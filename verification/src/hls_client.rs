//! Live streams over HTTP: which playlist is followed, and which segments of it
//! are fetched.

use crate::buffer::{buffer_freeze, buffer_len, buffer_split_to, held_bytes, shared_bytes};
use bytes::{Bytes, BytesMut};
use m3u8_rs::Playlist;
use std::collections::hash_map::DefaultHasher;
use std::collections::VecDeque;
use std::hash::Hasher;
use url::Url;
use vstd::prelude::*;
use vstd::std_specs::hash::DefaultHasherAdditionalSpecFns;
use vstd::utf8::encode_utf8;

verus! {

pub const MAX_SEGMENTS_COUNT: usize = 50;

pub const MAX_ERROR_COUNT: u32 = 3;

/// How much of a segment is handed on at once.
pub const PIECE_SIZE: usize = 1316;

/// The hash by which a segment is known again.
pub open spec fn item_hash(item: Seq<char>) -> u64 {
    DefaultHasher::spec_finish(seq![encode_utf8(item), seq![0xFFu8]])
}

/// A queue of segments with one more: the oldest leaves where there is no room.
pub open spec fn queue_pushed(q: Seq<u64>, capacity: int, hash: u64) -> Seq<u64> {
    seq![hash] + if q.len() >= capacity && q.len() > 0 {
        q.drop_last()
    } else {
        q
    }
}

/// The segments that were fetched last, newest first.
pub struct ChunkQueue {
    queue: VecDeque<u64>,
    capacity: usize,
}

impl View for ChunkQueue {
    type V = Seq<u64>;

    closed spec fn view(&self) -> Seq<u64> {
        self.queue@
    }
}

impl ChunkQueue {
    /// How many segments are remembered.
    pub closed spec fn spec_capacity(&self) -> usize {
        self.capacity
    }

    pub fn new(capacity: usize) -> (r: Self)
        ensures
            r@ == Seq::<u64>::empty(),
            r.spec_capacity() == capacity,
    {
        ChunkQueue { queue: VecDeque::new(), capacity }
    }

    /// Remembers a segment.
    pub fn push(&mut self, item: &str)
        ensures
            final(self)@ == queue_pushed(
                old(self)@,
                old(self).spec_capacity() as int,
                item_hash(item@),
            ),
            final(self).spec_capacity() == old(self).spec_capacity(),
    {
        let ghost before = self.queue@;
        if self.queue.len() >= self.capacity {
            self.queue.pop_back();
        }
        let hash = Self::calculate_hash(item);
        self.queue.push_front(hash);
        assert(self.queue@ =~= queue_pushed(before, self.capacity as int, hash));
    }

    /// Whether a segment is remembered.
    pub fn contains(&self, item: &str) -> (r: bool)
        ensures
            r == self@.contains(item_hash(item@)),
    {
        let hash = Self::calculate_hash(item);
        let mut i: usize = 0;
        while i < self.queue.len()
            invariant
                i <= self.queue@.len(),
                hash == item_hash(item@),
                forall|j: int| 0 <= j < i ==> self.queue@[j] != hash,
            decreases self.queue@.len() - i,
        {
            if self.queue[i] == hash {
                assert(self.queue@[i as int] == hash);
                return true;
            }
            i = i + 1;
        }
        false
    }

    fn calculate_hash(item: &str) -> (r: u64)
        ensures
            r == item_hash(item@),
    {
        let mut hasher = DefaultHasher::new();
        hasher.write(item.as_bytes());
        let end: [u8; 1] = [0xFF];
        hasher.write(end.as_slice());
        assert(end@ =~= seq![0xFFu8]);
        assert(hasher@ =~= seq![encode_utf8(item@), seq![0xFFu8]]);
        hasher.finish()
    }
}

/// A segment that was pushed is remembered, a queue never grows beyond its
/// capacity, and what was remembered still is unless it was the oldest of a full
/// queue.
pub proof fn law_chunk_queue(q: Seq<u64>, capacity: int, hash: u64)
    requires
        0 < capacity,
        q.len() <= capacity,
    ensures
        queue_pushed(q, capacity, hash).contains(hash),
        queue_pushed(q, capacity, hash).len() <= capacity,
        forall|i: int|
            0 <= i < q.len() && i + 1 < capacity ==> queue_pushed(q, capacity, hash).contains(
                #[trigger] q[i],
            ),
{
    let t = queue_pushed(q, capacity, hash);
    assert(t[0] == hash);
    assert forall|i: int| 0 <= i < q.len() && i + 1 < capacity implies t.contains(
        #[trigger] q[i],
    ) by {
        assert(t[i + 1] == q[i]);
    }
}

// ---- Playlists ----

/// A variant of a stream: its bandwidth and where its playlist is.
pub struct Variant {
    pub bandwidth: u64,
    pub uri: String,
}

/// A segment: where it is, and the bits of its duration in single precision.
pub struct Segment {
    pub uri: String,
    pub duration_bits: u32,
}

/// A playlist: of variants, or of segments with their longest duration.
pub enum HlsPlaylist {
    Master(Vec<Variant>),
    Media(Vec<Segment>, u64),
}

/// What a playlist says.
pub enum PlaylistModel {
    Master(Seq<(u64, Seq<char>)>),
    Media(Seq<(Seq<char>, u32)>, u64),
}

/// The variants of a list.
pub open spec fn variants_view(v: Seq<Variant>) -> Seq<(u64, Seq<char>)> {
    v.map_values(|x: Variant| (x.bandwidth, x.uri@))
}

/// The segments of a list.
pub open spec fn segments_view(v: Seq<Segment>) -> Seq<(Seq<char>, u32)> {
    v.map_values(|x: Segment| (x.uri@, x.duration_bits))
}

/// What an optional playlist says.
pub open spec fn playlist_view(p: Option<HlsPlaylist>) -> Option<PlaylistModel> {
    match p {
        Some(HlsPlaylist::Master(v)) => Some(PlaylistModel::Master(variants_view(v@))),
        Some(HlsPlaylist::Media(s, t)) => Some(PlaylistModel::Media(segments_view(s@), t)),
        None => None,
    }
}

/// What a text says as a playlist.
pub uninterp spec fn playlist_of(text: Seq<char>) -> Option<PlaylistModel>;

/// `m3u8_rs::parse_playlist_res`: the variants, or the segments and the longest
/// duration, that the text lists; none where it is no playlist.
#[verifier::external_body]
fn parse_playlist(text: &str) -> (r: Option<HlsPlaylist>)
    ensures
        playlist_view(r) == playlist_of(text@),
{
    Some(match m3u8_rs::parse_playlist_res(text.as_bytes()).ok()? {
        Playlist::MasterPlaylist(m) => HlsPlaylist::Master(
            m.variants.into_iter().map(|v| Variant { bandwidth: v.bandwidth, uri: v.uri }).collect(),
        ),
        Playlist::MediaPlaylist(m) => HlsPlaylist::Media(
            m.segments.into_iter()
                .map(|s| Segment { uri: s.uri, duration_bits: s.duration.to_bits() })
                .collect(),
            m.target_duration,
        ),
    })
}

/// The URL that a text stands for, in its normal form.
pub uninterp spec fn normal_url(text: Seq<char>) -> Option<Seq<char>>;

/// `Url::parse`: the URL that a text stands for, in its normal form, if it is one.
#[verifier::external_body]
fn parse_url(text: &str) -> (r: Option<String>)
    ensures
        (match r {
            Some(u) => Some(u@),
            None => None,
        }) == normal_url(text@),
{
    Some(Url::parse(text).ok()?.to_string())
}

/// The first playlist of a stream, by the text that is configured; none where it is
/// no URL.
pub fn master_url(text: &str) -> (r: Option<String>)
    ensures
        (match r {
            Some(u) => Some(u@),
            None => None,
        }) == normal_url(text@),
{
    parse_url(text)
}

/// What came of fetching a segment: by whether the request succeeded, how many bytes
/// were announced, and how many came in.
pub fn segment_result(success: bool, announced: usize, received: usize) -> (r: SegmentResult)
    ensures
        r == if !success {
            SegmentResult::Failed
        } else if announced == 0 {
            SegmentResult::Empty
        } else if received >= announced {
            SegmentResult::Complete
        } else {
            SegmentResult::Broken
        },
{
    if !success {
        SegmentResult::Failed
    } else if announced == 0 {
        SegmentResult::Empty
    } else if received >= announced {
        SegmentResult::Complete
    } else {
        SegmentResult::Broken
    }
}

/// The URL that a reference means on a page.
pub uninterp spec fn joined_url(base: Seq<char>, reference: Seq<char>) -> Option<Seq<char>>;

/// `Url::parse` and `Url::join`: the URL that a reference means on a page.
#[verifier::external_body]
fn join_url(base: &str, reference: &str) -> (r: Option<String>)
    ensures
        (match r {
            Some(u) => Some(u@),
            None => None,
        }) == joined_url(base@, reference@),
{
    Some(Url::parse(base).ok()?.join(reference).ok()?.to_string())
}

/// The variant with the highest bandwidth, the last of several.
pub open spec fn best_variant(v: Seq<(u64, Seq<char>)>) -> Option<int>
    decreases v.len(),
{
    if v.len() == 0 {
        None
    } else {
        match best_variant(v.drop_last()) {
            Some(i) => if v[i].0 > v.last().0 {
                Some(i)
            } else {
                Some(v.len() - 1)
            },
            None => Some(0),
        }
    }
}

fn find_best_variant(v: &Vec<Variant>) -> (r: Option<usize>)
    ensures
        r is Some == best_variant(variants_view(v@)) is Some,
        r matches Some(i) ==> best_variant(variants_view(v@)) == Some(i as int) && i < v@.len(),
{
    let ghost all = variants_view(v@);
    let mut best: Option<usize> = None;
    let mut i: usize = 0;
    assert(all.take(0) =~= Seq::<(u64, Seq<char>)>::empty());
    while i < v.len()
        invariant
            i <= v@.len(),
            all == variants_view(v@),
            best is Some == best_variant(all.take(i as int)) is Some,
            best matches Some(b) ==> best_variant(all.take(i as int)) == Some(b as int) && b < i,
            i > 0 ==> best is Some,
        decreases v@.len() - i,
    {
        assert(all.take(i + 1).drop_last() =~= all.take(i as int));
        assert(all.take(i + 1).last() == all[i as int]);
        best =
        match best {
            Some(b) => {
                assert(all.take(i + 1)[b as int] == all[b as int]);
                if v[b].bandwidth > v[i].bandwidth {
                    Some(b)
                } else {
                    Some(i)
                }
            },
            None => Some(i),
        };
        i = i + 1;
    }
    assert(all.take(all.len() as int) =~= all);
    best
}

/// The best variant is one of those with the highest bandwidth, and there is one
/// as soon as there are variants.
pub proof fn law_best_variant(v: Seq<(u64, Seq<char>)>)
    ensures
        best_variant(v) is Some == (v.len() > 0),
        best_variant(v) matches Some(i) ==> 0 <= i < v.len() && forall|j: int|
            0 <= j < v.len() ==> (#[trigger] v[j]).0 <= v[i].0 && (j > i ==> v[j].0 < v[i].0),
    decreases v.len(),
{
    if v.len() > 0 {
        let head = v.drop_last();
        law_best_variant(head);
        let i = best_variant(v)->0;
        assert forall|j: int| 0 <= j < v.len() implies (#[trigger] v[j]).0 <= v[i].0 && (j > i
            ==> v[j].0 < v[i].0) by {
            if j < head.len() {
                assert(head[j] == v[j]);
            }
            if head.len() > 0 {
                let b = best_variant(head)->0;
                assert(head[b] == v[b]);
            }
        }
    }
}

/// The playlist of segments that is followed: of a list of variants that of the
/// best one, of a list of segments itself.
pub open spec fn media_url(
    master_url: Seq<char>,
    playlist: Option<PlaylistModel>,
) -> Option<Seq<char>> {
    match playlist {
        Some(PlaylistModel::Master(v)) => match best_variant(v) {
            Some(i) => joined_url(master_url, v[i].1),
            None => None,
        },
        Some(PlaylistModel::Media(_, _)) => Some(master_url),
        None => None,
    }
}

/// The playlist of segments that is followed, by what the first playlist says.
pub fn select_media_url(master_url: &str, playlist: &Option<HlsPlaylist>) -> (r: Option<String>)
    ensures
        (match r {
            Some(u) => Some(u@),
            None => None,
        }) == media_url(master_url@, playlist_view(*playlist)),
{
    match playlist {
        Some(HlsPlaylist::Master(v)) => match find_best_variant(v) {
            Some(i) => {
                assert(variants_view(v@)[i as int].1 == v@[i as int].uri@);
                join_url(master_url, v[i].uri.as_str())
            },
            None => None,
        },
        Some(HlsPlaylist::Media(_, _)) => Some(master_url.to_owned()),
        None => None,
    }
}

/// The playlist of segments that is followed, by the text of the first playlist.
pub fn media_url_of_text(master_url: &str, text: &str) -> (r: Option<String>)
    ensures
        (match r {
            Some(u) => Some(u@),
            None => None,
        }) == media_url(master_url@, playlist_of(text@)),
{
    let playlist = parse_playlist(text);
    select_media_url(master_url, &playlist)
}

// ---- Following a playlist ----

/// What is to be done next.
pub enum HlsAction {
    /// Fetch the playlist of segments.
    FetchPlaylist,
    /// Fetch a segment.
    FetchSegment(String),
    /// Wait for two seconds, and fetch the playlist of segments then.
    Retry,
    /// Wait for half the duration of a segment, given by its bits in single
    /// precision, and go on then.
    Pause(u32),
    /// Wait for half the longest duration of a segment, in seconds (for two
    /// seconds where it is 0), and fetch the playlist of segments then.
    Refresh(u64),
}

/// What came of fetching a segment.
#[derive(Debug, Clone, Copy, PartialEq, Eq, Structural)]
pub enum SegmentResult {
    /// The request failed.
    Failed,
    /// Nothing was announced.
    Empty,
    /// It broke off.
    Broken,
    /// All of it came.
    Complete,
}

/// The state of following a playlist.
#[verifier::ext_equal]
pub struct HlsState {
    pub media_url: Seq<char>,
    pub first: bool,
    pub errors: u32,
    pub segment_errors: u32,
    pub downloaded: Seq<u64>,
    pub pending: Seq<(Seq<char>, u32)>,
    pub target: u64,
    pub current: Option<(Seq<char>, u32)>,
}

/// Segments that are remembered one after the other.
pub open spec fn remembered(q: Seq<u64>, capacity: int, s: Seq<(Seq<char>, u32)>) -> Seq<u64>
    decreases s.len(),
{
    if s.len() == 0 {
        q
    } else {
        queue_pushed(remembered(q, capacity, s.drop_last()), capacity, item_hash(s.last().0))
    }
}

/// How many segments of the first playlist are passed over: all but three.
pub open spec fn passed_over(first: bool, n: int) -> int {
    if first && n > 3 {
        n - 3
    } else {
        0
    }
}

/// A playlist of segments is taken up. Of the first one all but the last three
/// segments are passed over.
pub open spec fn playlist_taken(
    s: HlsState,
    segments: Seq<(Seq<char>, u32)>,
    target: u64,
) -> HlsState {
    let skip = passed_over(s.first, segments.len() as int);
    HlsState {
        first: false,
        downloaded: remembered(s.downloaded, 50, segments.take(skip)),
        pending: segments.skip(skip),
        target,
        current: None,
        ..s
    }
}

/// Whether a segment is fetched: it is not remembered, and its reference means a
/// URL.
pub open spec fn wanted(s: HlsState, segment: (Seq<char>, u32)) -> bool {
    !s.downloaded.contains(item_hash(segment.0)) && joined_url(s.media_url, segment.0) is Some
}

/// The next segment that is fetched becomes the current one; those before it are
/// passed over.
pub open spec fn next_chosen(s: HlsState) -> HlsState
    decreases s.pending.len(),
{
    if s.pending.len() == 0 {
        HlsState { current: None, ..s }
    } else if wanted(s, s.pending[0]) {
        HlsState { current: Some(s.pending[0]), pending: s.pending.drop_first(), ..s }
    } else {
        next_chosen(HlsState { pending: s.pending.drop_first(), ..s })
    }
}

/// A failure is counted.
pub open spec fn failed(s: HlsState) -> HlsState {
    HlsState {
        errors: if s.errors < u32::MAX {
            (s.errors + 1) as u32
        } else {
            s.errors
        },
        pending: Seq::empty(),
        current: None,
        ..s
    }
}

/// A segment that broke off is counted; after more than three in a row it is
/// remembered as if it had come.
pub open spec fn broken(s: HlsState, uri: Seq<char>) -> HlsState {
    let n = if s.segment_errors < u32::MAX {
        (s.segment_errors + 1) as u32
    } else {
        s.segment_errors
    };
    HlsState {
        segment_errors: n,
        downloaded: if n > MAX_ERROR_COUNT {
            queue_pushed(s.downloaded, 50, item_hash(uri))
        } else {
            s.downloaded
        },
        pending: Seq::empty(),
        current: None,
        ..s
    }
}

/// A segment that came is remembered.
pub open spec fn completed(s: HlsState, uri: Seq<char>) -> HlsState {
    HlsState {
        segment_errors: 0,
        downloaded: queue_pushed(s.downloaded, 50, item_hash(uri)),
        current: None,
        ..s
    }
}

/// What an action is.
pub enum ActionModel {
    FetchPlaylist,
    FetchSegment(Seq<char>),
    Retry,
    Pause(u32),
    Refresh(u64),
}

/// What an action is.
pub open spec fn action_view(a: HlsAction) -> ActionModel {
    match a {
        HlsAction::FetchPlaylist => ActionModel::FetchPlaylist,
        HlsAction::FetchSegment(u) => ActionModel::FetchSegment(u@),
        HlsAction::Retry => ActionModel::Retry,
        HlsAction::Pause(d) => ActionModel::Pause(d),
        HlsAction::Refresh(t) => ActionModel::Refresh(t),
    }
}

/// What follows from having chosen the next segment.
pub open spec fn chosen_action(s: HlsState) -> ActionModel {
    match s.current {
        Some(segment) => ActionModel::FetchSegment(joined_url(s.media_url, segment.0)->0),
        None => ActionModel::Refresh(s.target),
    }
}

/// What a playlist leads to: segments are taken up, anything else is a failure.
pub open spec fn after_playlist(s: HlsState, playlist: Option<PlaylistModel>) -> (
    HlsState,
    ActionModel,
) {
    match playlist {
        Some(PlaylistModel::Media(segments, target)) => {
            let t = next_chosen(playlist_taken(s, segments, target));
            (t, chosen_action(t))
        },
        _ => (failed(s), ActionModel::Retry),
    }
}

/// What the end of fetching a segment leads to.
pub open spec fn after_segment(s: HlsState, result: SegmentResult) -> (HlsState, ActionModel) {
    match s.current {
        None => {
            let t = next_chosen(s);
            (t, chosen_action(t))
        },
        Some((uri, duration)) => match result {
            SegmentResult::Failed => (failed(s), ActionModel::Retry),
            SegmentResult::Empty => {
                let t = next_chosen(s);
                (t, chosen_action(t))
            },
            SegmentResult::Broken => (broken(s, uri), ActionModel::FetchPlaylist),
            SegmentResult::Complete => (completed(s, uri), ActionModel::Pause(duration)),
        },
    }
}

/// Follows the playlist of segments of one stream.
pub struct HlsSession {
    media_url: String,
    first: bool,
    errors: u32,
    segment_errors: u32,
    downloaded: ChunkQueue,
    pending: VecDeque<Segment>,
    target: u64,
    current: Option<Segment>,
}

impl View for HlsSession {
    type V = HlsState;

    closed spec fn view(&self) -> HlsState {
        HlsState {
            media_url: self.media_url@,
            first: self.first,
            errors: self.errors,
            segment_errors: self.segment_errors,
            downloaded: self.downloaded@,
            pending: segments_view(self.pending@),
            target: self.target,
            current: match self.current {
                Some(s) => Some((s.uri@, s.duration_bits)),
                None => None,
            },
        }
    }
}

impl HlsSession {
    /// Fifty segments are remembered.
    pub closed spec fn wf(&self) -> bool {
        self.downloaded.spec_capacity() == 50
    }

    pub fn new(media_url: String) -> (r: Self)
        ensures
            r.wf(),
            r@ == (HlsState {
                media_url: media_url@,
                first: true,
                errors: 0,
                segment_errors: 0,
                downloaded: Seq::empty(),
                pending: Seq::empty(),
                target: 0,
                current: None,
            }),
    {
        let r = HlsSession {
            media_url,
            first: true,
            errors: 0,
            segment_errors: 0,
            downloaded: ChunkQueue::new(MAX_SEGMENTS_COUNT),
            pending: VecDeque::new(),
            target: 0,
            current: None,
        };
        assert(r@.pending =~= Seq::<(Seq<char>, u32)>::empty());
        r
    }

    /// Where the playlist of segments is.
    pub fn media_url(&self) -> (r: &str)
        ensures
            r@ == self@.media_url,
    {
        self.media_url.as_str()
    }

    /// Chooses the next segment that is fetched.
    fn choose_next(&mut self) -> (r: HlsAction)
        requires
            old(self).wf(),
        ensures
            final(self).wf(),
            final(self)@ == next_chosen(old(self)@),
            action_view(r) == chosen_action(final(self)@),
    {
        self.current = None;
        let ghost s0 = old(self)@;
        proof {
            assert(self@ =~= HlsState { current: None, ..s0 });
            lemma_next_forgets_current(s0);
        }
        while self.pending.len() > 0
            invariant
                self.wf(),
                self.current is None,
                s0 == old(self)@,
                next_chosen(self@) == next_chosen(s0),
            decreases self.pending@.len(),
        {
            let ghost before = self@;
            let ghost queue = self.pending@;
            if let Some(segment) = self.pending.pop_front() {
                proof {
                    assert(segment == queue[0]);
                    assert(before.pending[0] == (segment.uri@, segment.duration_bits));
                    assert(segments_view(self.pending@) =~= before.pending.drop_first());
                }
                if !self.downloaded.contains(segment.uri.as_str()) {
                    if let Some(url) = join_url(self.media_url.as_str(), segment.uri.as_str()) {
                        self.current = Some(segment);
                        assert(self@ =~= HlsState {
                            current: Some(before.pending[0]),
                            pending: before.pending.drop_first(),
                            ..before
                        });
                        return HlsAction::FetchSegment(url);
                    }
                }
                assert(self@ =~= HlsState { pending: before.pending.drop_first(), ..before });
            }
        }
        assert(self@ =~= HlsState { current: None, ..self@ });
        HlsAction::Refresh(self.target)
    }

    fn note_failure(&mut self)
        requires
            old(self).wf(),
        ensures
            final(self).wf(),
            final(self)@ == failed(old(self)@),
    {
        if self.errors < u32::MAX {
            self.errors = self.errors + 1;
        }
        self.pending = VecDeque::new();
        self.current = None;
        assert(self@.pending =~= Seq::<(Seq<char>, u32)>::empty());
    }

    /// Takes up what a playlist says.
    fn take_playlist(&mut self, segments: Vec<Segment>, target: u64)
        requires
            old(self).wf(),
        ensures
            final(self).wf(),
            final(self)@ == playlist_taken(old(self)@, segments_view(segments@), target),
    {
        let n: usize = segments.len();
        let skip: usize = if self.first && n > 3 {
            n - 3
        } else {
            0
        };
        let ghost all = segments_view(segments@);
        let ghost queue0 = self.downloaded@;
        let mut i: usize = 0;
        assert(all.take(0) =~= Seq::<(Seq<char>, u32)>::empty());
        while i < skip
            invariant
                i <= skip <= segments@.len(),
                all == segments_view(segments@),
                self.wf(),
                self.downloaded@ == remembered(queue0, 50, all.take(i as int)),
                self@ == (HlsState { downloaded: self.downloaded@, ..old(self)@ }),
            decreases skip - i,
        {
            self.downloaded.push(segments[i].uri.as_str());
            assert(all.take(i + 1).drop_last() =~= all.take(i as int));
            assert(all.take(i + 1).last().0 == segments@[i as int].uri@);
            i = i + 1;
        }
        let mut left = segments;
        let mut pending: VecDeque<Segment> = VecDeque::new();
        while left.len() > skip
            invariant
                skip <= left@.len() <= n,
                segments_view(left@) == all.take(left@.len() as int),
                segments_view(pending@) == all.skip(left@.len() as int),
                all.len() == n,
            decreases left@.len(),
        {
            let ghost k = left@.len() as int;
            let ghost l0 = left@;
            let ghost p0 = pending@;
            if let Some(segment) = left.pop() {
                pending.push_front(segment);
                proof {
                    assert(segment == l0[k - 1]);
                    assert(segments_view(l0)[k - 1] == (segment.uri@, segment.duration_bits));
                    assert(segments_view(left@) =~= all.take(k - 1));
                    assert(segments_view(pending@) =~= seq![(segment.uri@, segment.duration_bits)]
                        + segments_view(p0));
                    assert(segments_view(pending@) =~= all.skip(k - 1));
                }
            }
        }
        self.pending = pending;
        self.first = false;
        self.target = target;
        self.current = None;
    }

    /// Goes on after the playlist of segments was fetched, by what it says.
    pub fn on_parsed_playlist(&mut self, playlist: Option<HlsPlaylist>) -> (r: HlsAction)
        requires
            old(self).wf(),
        ensures
            final(self).wf(),
            (final(self)@, action_view(r)) == after_playlist(
                old(self)@,
                playlist_view(playlist),
            ),
    {
        match playlist {
            Some(HlsPlaylist::Media(segments, target)) => {
                self.take_playlist(segments, target);
                self.choose_next()
            },
            _ => {
                self.note_failure();
                HlsAction::Retry
            },
        }
    }

    /// Goes on after the playlist of segments was fetched. Without a text the
    /// request failed.
    pub fn on_playlist(&mut self, text: Option<&str>) -> (r: HlsAction)
        requires
            old(self).wf(),
        ensures
            final(self).wf(),
            (final(self)@, action_view(r)) == after_playlist(
                old(self)@,
                match text {
                    Some(t) => if t@.len() > 0 {
                        playlist_of(t@)
                    } else {
                        None
                    },
                    None => None,
                },
            ),
    {
        let playlist = match text {
            Some(t) => if !t.is_empty() {
                parse_playlist(t)
            } else {
                None
            },
            None => None,
        };
        self.on_parsed_playlist(playlist)
    }

    /// Goes on after a segment was fetched, or after the pause that followed it.
    pub fn on_segment(&mut self, result: SegmentResult) -> (r: HlsAction)
        requires
            old(self).wf(),
        ensures
            final(self).wf(),
            (final(self)@, action_view(r)) == after_segment(old(self)@, result),
    {
        let current = self.current.take();
        let ghost s0 = old(self)@;
        proof {
            assert(self@ =~= HlsState { current: None, ..s0 });
            lemma_next_forgets_current(s0);
        }
        match current {
            None => self.choose_next(),
            Some(segment) => match result {
                SegmentResult::Failed => {
                    self.note_failure();
                    HlsAction::Retry
                },
                SegmentResult::Empty => self.choose_next(),
                SegmentResult::Broken => {
                    if self.segment_errors < u32::MAX {
                        self.segment_errors = self.segment_errors + 1;
                    }
                    if self.segment_errors > MAX_ERROR_COUNT {
                        self.downloaded.push(segment.uri.as_str());
                    }
                    self.pending = VecDeque::new();
                    assert(self@.pending =~= Seq::<(Seq<char>, u32)>::empty());
                    HlsAction::FetchPlaylist
                },
                SegmentResult::Complete => {
                    self.segment_errors = 0;
                    self.downloaded.push(segment.uri.as_str());
                    HlsAction::Pause(segment.duration_bits)
                },
            },
        }
    }
}

/// Which segment was the current one does not matter for the choice of the next.
proof fn lemma_next_forgets_current(s: HlsState)
    ensures
        next_chosen(HlsState { current: None, ..s }) == next_chosen(s),
    decreases s.pending.len(),
{
    let t = HlsState { current: None, ..s };
    if s.pending.len() > 0 {
        assert(wanted(t, s.pending[0]) == wanted(s, s.pending[0]));
        if !wanted(s, s.pending[0]) {
            lemma_next_forgets_current(HlsState { pending: s.pending.drop_first(), ..s });
        }
    }
}

/// A segment that is remembered is never chosen, and the one that is chosen is
/// the first of those that are not.
pub proof fn law_next_is_new(s: HlsState)
    ensures
        next_chosen(s).current matches Some(segment) ==> wanted(s, segment) && exists|i: int|
            0 <= i < s.pending.len() && s.pending[i] == segment && (forall|j: int|
                0 <= j < i ==> !wanted(s, #[trigger] s.pending[j])),
        next_chosen(s).current is None ==> forall|j: int|
            0 <= j < s.pending.len() ==> !wanted(s, #[trigger] s.pending[j]),
    decreases s.pending.len(),
{
    if s.pending.len() > 0 {
        if wanted(s, s.pending[0]) {
            assert(s.pending[0] == next_chosen(s).current->0);
        } else {
            let rest = HlsState { pending: s.pending.drop_first(), ..s };
            law_next_is_new(rest);
            assert forall|x: (Seq<char>, u32)| wanted(rest, x) == #[trigger] wanted(s, x) by {}
            assert forall|j: int| 0 <= j < rest.pending.len() implies #[trigger] rest.pending[j]
                == s.pending[j + 1] by {}
            match next_chosen(s).current {
                Some(segment) => {
                    let i = choose|i: int|
                        0 <= i < rest.pending.len() && rest.pending[i] == segment && (forall|j: int|
                            0 <= j < i ==> !wanted(rest, #[trigger] rest.pending[j]));
                    assert(s.pending[i + 1] == segment);
                    assert forall|j: int| 0 <= j < i + 1 implies !wanted(
                        s,
                        #[trigger] s.pending[j],
                    ) by {
                        if j > 0 {
                            assert(!wanted(rest, rest.pending[j - 1]));
                        }
                    }
                },
                None => {
                    assert forall|j: int| 0 <= j < s.pending.len() implies !wanted(
                        s,
                        #[trigger] s.pending[j],
                    ) by {
                        if j > 0 {
                            assert(!wanted(rest, rest.pending[j - 1]));
                        }
                    }
                },
            }
        }
    }
}

/// The next piece of a segment; none where nothing is left.
pub fn next_piece(chunk: &mut BytesMut) -> (r: Option<Bytes>)
    ensures
        held_bytes(*old(chunk)).len() == 0 ==> r is None && held_bytes(*final(chunk)) == held_bytes(
            *old(chunk),
        ),
        held_bytes(*old(chunk)).len() > 0 ==> r is Some && ({
            let n = if held_bytes(*old(chunk)).len() < 1316 {
                held_bytes(*old(chunk)).len() as int
            } else {
                1316
            };
            shared_bytes(r->0) == held_bytes(*old(chunk)).take(n) && held_bytes(*final(chunk))
                == held_bytes(*old(chunk)).skip(n)
        }),
{
    let len: usize = buffer_len(chunk);
    if len == 0 {
        return None;
    }
    let n: usize = if len < PIECE_SIZE {
        len
    } else {
        PIECE_SIZE
    };
    Some(buffer_freeze(buffer_split_to(chunk, n)))
}

// ---- What is fetched ----

/// Whether a segment can be fetched: it was not fetched before, as far as is remembered,
/// and its reference means a URL on the page of the playlist.
pub open spec fn is_new(remembered_hashes: Seq<u64>, page: Seq<char>, uri: Seq<char>) -> bool {
    !remembered_hashes.contains(item_hash(uri)) && joined_url(page, uri) is Some
}

proof fn lemma_next_place(s: HlsState) -> (i: int)
    ensures
        0 <= i <= s.pending.len(),
        forall|j: int|
            0 <= j < i ==> !is_new(s.downloaded, s.media_url, (#[trigger] s.pending[j]).0),
        i < s.pending.len() ==> is_new(s.downloaded, s.media_url, s.pending[i].0) && next_chosen(s)
            == (HlsState {
            current: Some(s.pending[i]),
            pending: s.pending.skip(i + 1),
            ..s
        }),
        i == s.pending.len() ==> next_chosen(s) == (HlsState {
            current: None,
            pending: Seq::empty(),
            ..s
        }),
    decreases s.pending.len(),
{
    if s.pending.len() == 0 {
        assert(s.pending =~= Seq::empty());
        0
    } else if wanted(s, s.pending[0]) {
        assert(s.pending.drop_first() =~= s.pending.skip(1));
        0
    } else {
        let rest = HlsState { pending: s.pending.drop_first(), ..s };
        let k = lemma_next_place(rest);
        assert forall|j: int| 0 <= j < k + 1 implies !is_new(
            s.downloaded,
            s.media_url,
            (#[trigger] s.pending[j]).0,
        ) by {
            if j > 0 {
                assert(rest.pending[j - 1] == s.pending[j]);
            }
        }
        if k < rest.pending.len() {
            assert(rest.pending[k] == s.pending[k + 1]);
            assert(rest.pending.skip(k + 1) =~= s.pending.skip(k + 2));
        }
        k + 1
    }
}

/// What is done with a list of segments, the first of which that counts has the number
/// `from`: the first new one from there on is asked for, and those behind it are kept for
/// later, in their order. Where there is none, the playlist is asked for again after its
/// target duration.
pub open spec fn goes_on_from(
    t: HlsState,
    action: ActionModel,
    segments: Seq<(Seq<char>, u32)>,
    from: int,
) -> bool {
    ||| exists|i: int|
        {
            &&& from <= i < segments.len()
            &&& is_new(t.downloaded, t.media_url, (#[trigger] segments[i]).0)
            &&& forall|j: int|
                from <= j < i ==> !is_new(t.downloaded, t.media_url, (#[trigger] segments[j]).0)
            &&& t.current == Some(segments[i])
            &&& t.pending == segments.skip(i + 1)
            &&& Some(action) == match joined_url(t.media_url, segments[i].0) {
                Some(u) => Some(ActionModel::FetchSegment(u)),
                None => None,
            }
        }
    ||| {
        &&& forall|j: int|
            from <= j < segments.len() ==> !is_new(
                t.downloaded,
                t.media_url,
                (#[trigger] segments[j]).0,
            )
        &&& t.current is None
        &&& t.pending.len() == 0
        &&& action == ActionModel::Refresh(t.target)
    }
}

proof fn lemma_goes_on(s: HlsState, segments: Seq<(Seq<char>, u32)>, from: int)
    requires
        0 <= from <= segments.len(),
        s.pending == segments.skip(from),
    ensures
        goes_on_from(next_chosen(s), chosen_action(next_chosen(s)), segments, from),
{
    let i = lemma_next_place(s);
    assert forall|j: int| from <= j < from + i implies !is_new(
        s.downloaded,
        s.media_url,
        (#[trigger] segments[j]).0,
    ) by {
        assert(s.pending[j - from] == segments[j]);
    }
    if i < s.pending.len() {
        assert(segments[from + i] == s.pending[i]);
        assert(s.pending.skip(i + 1) =~= segments.skip(from + i + 1));
    }
}

/// Of the first playlist the last three segments count, or all where there are fewer, so
/// that a stream starts near its live end; of every later playlist all segments count. Of
/// those that count, the first new one is asked for, and the others are kept in order.
/// The target duration is that of the playlist.
pub proof fn law_playlist_starts_at_the_live_end(
    s: HlsState,
    segments: Seq<(Seq<char>, u32)>,
    target: u64,
)
    ensures
        ({
            let (t, action) = after_playlist(s, Some(PlaylistModel::Media(segments, target)));
            let n = segments.len() as int;
            &&& goes_on_from(
                t,
                action,
                segments,
                if s.first && n >= 3 {
                    n - 3
                } else {
                    0
                },
            )
            &&& s.first ==> t.pending.len() <= 2
            &&& !t.first && t.target == target && t.media_url == s.media_url
            &&& !s.first || n <= 3 ==> t.downloaded == s.downloaded
        }),
{
    let n = segments.len() as int;
    let skip = passed_over(s.first, n);
    let taken = playlist_taken(s, segments, target);
    lemma_goes_on(taken, segments, skip);
    let i = lemma_next_place(taken);
    assert(segments.take(0) =~= Seq::<(Seq<char>, u32)>::empty());
    assert(remembered(s.downloaded, 50, segments.take(0)) == s.downloaded);
}

/// A new stream asks first for the third segment from the end of its playlist, unless
/// that one is among those passed over or means no URL.
pub proof fn law_first_request(
    s: HlsState,
    segments: Seq<(Seq<char>, u32)>,
    target: u64,
)
    requires
        s.first,
        s.downloaded.len() == 0,
        segments.len() >= 3,
        joined_url(s.media_url, segments[segments.len() - 3].0) is Some,
        forall|k: int|
            0 <= k < segments.len() - 3 ==> item_hash((#[trigger] segments[k]).0) != item_hash(
                segments[segments.len() - 3].0,
            ),
    ensures
        after_playlist(s, Some(PlaylistModel::Media(segments, target))).1
            == ActionModel::FetchSegment(
            joined_url(s.media_url, segments[segments.len() - 3].0)->0,
        ),
{
    let n = segments.len() as int;
    let taken = playlist_taken(s, segments, target);
    lemma_remembered_only(s.downloaded, 50, segments.take(n - 3), item_hash(segments[n - 3].0));
    assert(taken.pending[0] == segments[n - 3]);
    assert(wanted(taken, taken.pending[0]));
}

proof fn lemma_remembered_only(
    q: Seq<u64>,
    capacity: int,
    s: Seq<(Seq<char>, u32)>,
    hash: u64,
)
    requires
        !q.contains(hash),
        forall|k: int| 0 <= k < s.len() ==> item_hash((#[trigger] s[k]).0) != hash,
    ensures
        !remembered(q, capacity, s).contains(hash),
    decreases s.len(),
{
    if s.len() > 0 {
        let head = s.drop_last();
        assert forall|k: int| 0 <= k < head.len() implies item_hash((#[trigger] head[k]).0)
            != hash by {
            assert(head[k] == s[k]);
        }
        lemma_remembered_only(q, capacity, head, hash);
        let before = remembered(q, capacity, head);
        let last = item_hash(s[s.len() - 1].0);
        assert(last != hash);
        let after = queue_pushed(before, capacity, last);
        assert(remembered(q, capacity, s) == after);
        if after.contains(hash) {
            let j = choose|j: int| 0 <= j < after.len() && after[j] == hash;
            assert(j > 0);
            assert(before[j - 1] == hash);
            assert(before.contains(hash));
        }
    }
}

/// The segments of the first playlist that are passed over are remembered, the last fifty
/// of them, and so are not asked for later.
pub proof fn law_passed_over_is_remembered(
    s: HlsState,
    segments: Seq<(Seq<char>, u32)>,
    target: u64,
    k: int,
)
    requires
        s.first,
        0 <= k < segments.len() - 3,
        segments.len() - 3 - k <= 50,
    ensures
        ({
            let t = after_playlist(s, Some(PlaylistModel::Media(segments, target))).0;
            t.downloaded.contains(item_hash(segments[k].0)) && !wanted(t, segments[k])
        }),
{
    let n = segments.len() as int;
    let over = segments.take(n - 3);
    lemma_remembered_place(s.downloaded, 50, over, k);
    let taken = playlist_taken(s, segments, target);
    let i = lemma_next_place(taken);
    assert(over[k] == segments[k]);
    let q = remembered(s.downloaded, 50, over);
    assert(q[over.len() - 1 - k] == item_hash(segments[k].0));
}

proof fn lemma_remembered_place(q: Seq<u64>, capacity: int, s: Seq<(Seq<char>, u32)>, k: int)
    requires
        0 <= k < s.len(),
        s.len() - k <= capacity,
    ensures
        s.len() - 1 - k < remembered(q, capacity, s).len(),
        remembered(q, capacity, s)[s.len() - 1 - k] == item_hash(s[k].0),
    decreases s.len(),
{
    if k < s.len() - 1 {
        lemma_remembered_place(q, capacity, s.drop_last(), k);
    }
}

/// A segment of which all came is played for its duration and remembered, so that it is
/// not asked for again; those that wait behind it still do, and failures are counted from
/// none again. After its pause the first new one of those that wait is asked for.
pub proof fn law_segment_is_fetched_once(s: HlsState, uri: Seq<char>, duration: u32)
    requires
        s.current == Some((uri, duration)),
    ensures
        ({
            let (t, action) = after_segment(s, SegmentResult::Complete);
            &&& action == ActionModel::Pause(duration)
            &&& t.downloaded.len() > 0 && t.downloaded[0] == item_hash(uri)
            &&& !is_new(t.downloaded, t.media_url, uri)
            &&& t.pending == s.pending && t.current is None && t.segment_errors == 0
            &&& t.target == s.target && t.media_url == s.media_url
            &&& forall|result: SegmentResult|
                goes_on_from(
                    (#[trigger] after_segment(t, result)).0,
                    after_segment(t, result).1,
                    s.pending,
                    0,
                )
        }),
{
    let t = after_segment(s, SegmentResult::Complete).0;
    assert(t.downloaded[0] == item_hash(uri));
    assert(t.downloaded.contains(item_hash(uri)));
    assert forall|result: SegmentResult|
        goes_on_from(
            (#[trigger] after_segment(t, result)).0,
            after_segment(t, result).1,
            s.pending,
            0,
        ) by {
        assert(s.pending.skip(0) =~= s.pending);
        lemma_goes_on(t, s.pending, 0);
    }
}

/// A segment that broke off is tried again by a new playlist; only when four in a row
/// broke off it is given up, and remembered as if it had come.
pub proof fn law_broken_segment_is_tried_again(s: HlsState, uri: Seq<char>, duration: u32)
    requires
        s.current == Some((uri, duration)),
        s.segment_errors < u32::MAX,
    ensures
        ({
            let (t, action) = after_segment(s, SegmentResult::Broken);
            &&& action == ActionModel::FetchPlaylist
            &&& t.segment_errors == s.segment_errors + 1
            &&& s.segment_errors < 3 ==> t.downloaded == s.downloaded
            &&& s.segment_errors >= 3 ==> t.downloaded.len() > 0 && t.downloaded[0] == item_hash(
                uri,
            ) && !is_new(t.downloaded, t.media_url, uri)
            &&& t.current is None && t.pending.len() == 0
        }),
{
    let t = after_segment(s, SegmentResult::Broken).0;
    if s.segment_errors >= 3 {
        assert(t.downloaded[0] == item_hash(uri));
    }
}

/// A request that failed, or a text that is no list of segments, is followed by a wait and
/// a new playlist, and nothing is remembered. A segment that announces nothing is passed
/// over without being remembered.
pub proof fn law_failure_forgets_nothing(s: HlsState, uri: Seq<char>, duration: u32)
    requires
        s.current == Some((uri, duration)),
    ensures
        after_segment(s, SegmentResult::Failed).1 == ActionModel::Retry,
        after_segment(s, SegmentResult::Failed).0.downloaded == s.downloaded,
        after_segment(s, SegmentResult::Failed).0.current is None,
        after_segment(s, SegmentResult::Failed).0.pending.len() == 0,
        after_playlist(s, None).1 == ActionModel::Retry,
        after_playlist(s, None).0.downloaded == s.downloaded,
        after_playlist(s, None).0.first == s.first,
        forall|v: Seq<(u64, Seq<char>)>|
            #[trigger] after_playlist(s, Some(PlaylistModel::Master(v))) == after_playlist(s, None),
        after_segment(s, SegmentResult::Empty).0.downloaded == s.downloaded,
        goes_on_from(
            after_segment(s, SegmentResult::Empty).0,
            after_segment(s, SegmentResult::Empty).1,
            s.pending,
            0,
        ),
{
    assert(s.pending.skip(0) =~= s.pending);
    lemma_goes_on(s, s.pending, 0);
    let i = lemma_next_place(s);
}

/// Of a list of variants one with the highest bandwidth is followed, on the page of the
/// list; a list of segments is followed itself; nothing else is.
pub proof fn law_followed_playlist(
    page: Seq<char>,
    v: Seq<(u64, Seq<char>)>,
    s: Seq<(Seq<char>, u32)>,
    target: u64,
)
    ensures
        v.len() > 0 ==> exists|i: int|
            {
                &&& 0 <= i < v.len()
                &&& forall|j: int| 0 <= j < v.len() ==> (#[trigger] v[j]).0 <= v[i].0
                &&& media_url(page, Some(PlaylistModel::Master(v))) == joined_url(
                    page,
                    (#[trigger] v[i]).1,
                )
            },
        v.len() == 0 ==> media_url(page, Some(PlaylistModel::Master(v))) is None,
        media_url(page, Some(PlaylistModel::Media(s, target))) == Some(page),
        media_url(page, None) is None,
{
    law_best_variant(v);
    if v.len() > 0 {
        let i = best_variant(v)->0;
        assert(media_url(page, Some(PlaylistModel::Master(v))) == joined_url(page, v[i].1));
    }
}

} // verus!
