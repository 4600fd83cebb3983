//! Workers: how a stream is taken in and handed on, which of its outputs run, and
//! what is reported of them.

use crate::buffer::{shared_bytes, shared_copy, shared_slice};
use crate::config::{allowed_task, is_task_type_allowed, Output, Stream};
use crate::epg::events::{parts_view, url_parts, url_parts_of, UrlParts};
use crate::misc::{address_of, parse_address};
pub use crate::mux::state::{cmd_word, Cmd};
use crate::mux::laws::joined;
use crate::mux::reports::{note_level, note_text, MuxNote, MuxReport, ReportLevel};
use crate::status::{cmd_content, cmd_data, log_content, log_data};
use crate::supervisor::{err_counted, ErrCounter, ErrReport};
use crate::text::{is_white_space, same_text, white_space};
use bytes::Bytes;
use std::collections::HashSet;
use vstd::prelude::*;
use vstd::slice::slice_subrange;
use vstd::string::{StrSliceExecFns, StringExecFns};

verus! {

broadcast use vstd::std_specs::hash::group_hash_axioms;

/// How many chunks wait for a receiver before it has lagged behind.
pub const BROADCAST_CAPACITY: usize = 256;

/// The size of a chunk that is handed on: 64 packets.
pub const BROADCAST_CHUNK_SIZE: usize = 12032;

// ---- Chunks ----

/// The pieces in which a chunk is handed on.
pub open spec fn chunk_pieces(b: Seq<u8>) -> Seq<Seq<u8>>
    decreases b.len(),
{
    if b.len() <= 12032 {
        seq![b]
    } else {
        seq![b.take(12032)] + chunk_pieces(b.skip(12032))
    }
}

/// The pieces in which a chunk is handed on: the chunk itself where it is small
/// enough, else pieces of 64 packets, of which the last may be shorter.
pub fn send_broadcast_chunks(chunk: Bytes) -> (r: Vec<Bytes>)
    ensures
        r@.map_values(|p: Bytes| shared_bytes(p)) == chunk_pieces(shared_bytes(chunk)),
{
    let mut pieces: Vec<Bytes> = Vec::new();
    let ghost whole = shared_bytes(chunk);
    if shared_slice(&chunk).len() <= BROADCAST_CHUNK_SIZE {
        pieces.push(chunk);
        assert(pieces@.map_values(|p: Bytes| shared_bytes(p)) =~= seq![whole]);
        return pieces;
    }
    let data = shared_slice(&chunk);
    let len: usize = data.len();
    let mut at: usize = 0;
    assert(whole.skip(0) =~= whole);
    assert(pieces@.map_values(|p: Bytes| shared_bytes(p)) =~= Seq::<Seq<u8>>::empty());
    assert(Seq::<Seq<u8>>::empty() + chunk_pieces(whole) =~= chunk_pieces(whole));
    while len - at > BROADCAST_CHUNK_SIZE
        invariant
            at <= len,
            len == data@.len(),
            data@ == whole,
            pieces@.map_values(|p: Bytes| shared_bytes(p)) + chunk_pieces(whole.skip(at as int))
                == chunk_pieces(whole),
        decreases len - at,
    {
        let ghost before = pieces@.map_values(|p: Bytes| shared_bytes(p));
        let piece = shared_copy(slice_subrange(data, at, at + BROADCAST_CHUNK_SIZE));
        assert(shared_bytes(piece) =~= whole.skip(at as int).take(12032));
        pieces.push(piece);
        assert(pieces@.map_values(|p: Bytes| shared_bytes(p)) =~= before.push(shared_bytes(piece)));
        assert(whole.skip(at as int).skip(12032) =~= whole.skip(at + 12032));
        at = at + BROADCAST_CHUNK_SIZE;
        assert(pieces@.map_values(|p: Bytes| shared_bytes(p)) + chunk_pieces(whole.skip(at as int))
            =~= before + (seq![shared_bytes(piece)] + chunk_pieces(whole.skip(at as int))));
    }
    let ghost before = pieces@.map_values(|p: Bytes| shared_bytes(p));
    let piece = shared_copy(slice_subrange(data, at, len));
    assert(shared_bytes(piece) =~= whole.skip(at as int));
    pieces.push(piece);
    assert(pieces@.map_values(|p: Bytes| shared_bytes(p)) =~= before + seq![shared_bytes(piece)]);
    pieces
}

/// The pieces of a chunk make up the chunk, and none is larger than 64 packets.
pub proof fn law_pieces_make_chunk(b: Seq<u8>)
    ensures
        joined(chunk_pieces(b)) == b,
        forall|i: int|
            0 <= i < chunk_pieces(b).len() ==> (#[trigger] chunk_pieces(b)[i]).len()
                <= BROADCAST_CHUNK_SIZE,
    decreases b.len(),
{
    let pieces = chunk_pieces(b);
    if b.len() <= 12032 {
        assert(pieces.drop_first() =~= Seq::empty());
        assert(joined(pieces.drop_first()) =~= Seq::<u8>::empty());
        assert(joined(pieces) =~= b);
    } else {
        let rest = chunk_pieces(b.skip(12032));
        law_pieces_make_chunk(b.skip(12032));
        assert(pieces.drop_first() =~= rest);
        assert(joined(pieces) =~= b);
        assert forall|i: int| 0 <= i < pieces.len() implies (#[trigger] pieces[i]).len()
            <= BROADCAST_CHUNK_SIZE by {
            if i > 0 {
                assert(pieces[i] == rest[i - 1]);
            }
        }
    }
}

// ---- Kinds of inputs and outputs ----

/// How a stream is taken in.
#[derive(Debug, Clone, Copy, PartialEq, Eq, Structural)]
pub enum InputKind {
    Http,
    Udp,
    Rtp,
    Hls,
    Ffmpeg,
    Unix,
}

/// How a stream is taken in.
pub open spec fn input_of(t: Seq<char>) -> Option<InputKind> {
    if t == "http"@ {
        Some(InputKind::Http)
    } else if t == "udp"@ {
        Some(InputKind::Udp)
    } else if t == "rtp"@ {
        Some(InputKind::Rtp)
    } else if t == "hls"@ {
        Some(InputKind::Hls)
    } else if t == "ffmpeg"@ {
        Some(InputKind::Ffmpeg)
    } else if t == "unix"@ {
        Some(InputKind::Unix)
    } else {
        None
    }
}

/// How a stream is taken in; nothing is where the kind is not known.
pub fn input_kind(task_type: &str) -> (r: Option<InputKind>)
    ensures
        r == input_of(task_type@),
{
    if same_text(task_type, "http") {
        Some(InputKind::Http)
    } else if same_text(task_type, "udp") {
        Some(InputKind::Udp)
    } else if same_text(task_type, "rtp") {
        Some(InputKind::Rtp)
    } else if same_text(task_type, "hls") {
        Some(InputKind::Hls)
    } else if same_text(task_type, "ffmpeg") {
        Some(InputKind::Ffmpeg)
    } else if same_text(task_type, "unix") {
        Some(InputKind::Unix)
    } else {
        None
    }
}

/// Every stream that a valid configuration holds can be taken in.
pub proof fn law_allowed_is_taken_in(t: Seq<char>)
    ensures
        allowed_task(t) == input_of(t) is Some,
{
}

/// How a stream is sent.
#[derive(Debug, Clone, Copy, PartialEq, Eq, Structural)]
pub enum OutputKind {
    Http,
    Udp,
    Rtp,
    Unix,
}

/// How a stream is sent.
pub open spec fn output_of(t: Seq<char>) -> Option<OutputKind> {
    if t == "http"@ {
        Some(OutputKind::Http)
    } else if t == "udp"@ {
        Some(OutputKind::Udp)
    } else if t == "rtp"@ {
        Some(OutputKind::Rtp)
    } else if t == "unix"@ {
        Some(OutputKind::Unix)
    } else {
        None
    }
}

/// How a stream is sent; it is not where the kind is not known.
pub fn output_kind(task_type: &str) -> (r: Option<OutputKind>)
    ensures
        r == output_of(task_type@),
{
    if same_text(task_type, "http") {
        Some(OutputKind::Http)
    } else if same_text(task_type, "udp") {
        Some(OutputKind::Udp)
    } else if same_text(task_type, "rtp") {
        Some(OutputKind::Rtp)
    } else if same_text(task_type, "unix") {
        Some(OutputKind::Unix)
    } else {
        None
    }
}

/// Why a group cannot be joined.
#[derive(Debug, Clone, Copy, PartialEq, Eq, Structural)]
pub enum GroupError {
    /// The text is no URL with a host and a port.
    Url,
    /// The host is no address of version 4.
    Address,
}

impl GroupError {
    /// What is said of a URL by which no group can be joined.
    pub fn message(&self, url: &str) -> (r: String)
        ensures
            r@ == match *self {
                GroupError::Url => "Invalid url "@ + url@,
                GroupError::Address => "invalid IPv4 address syntax"@,
            },
    {
        match self {
            GroupError::Url => {
                let mut t = String::from_str("Invalid url ");
                t.append(url);
                t
            },
            GroupError::Address => String::from_str("invalid IPv4 address syntax"),
        }
    }
}

/// The address and the port of the group that the parts of a URL name, or why there
/// is none.
pub open spec fn group_of(
    parts: Option<(Seq<char>, Option<Seq<char>>, Option<u16>)>,
) -> Result<(u32, u16), GroupError> {
    match parts {
        Some((_, Some(host), Some(port))) => match address_of(host) {
            Some(a) => Ok((a, port)),
            None => Err(GroupError::Address),
        },
        _ => Err(GroupError::Url),
    }
}

/// The group that the parts of a URL name.
pub fn group_of_parts(parts: Option<UrlParts>) -> (r: Result<(u32, u16), GroupError>)
    ensures
        r == group_of(parts_view(parts)),
{
    let parts = match parts {
        Some(parts) => parts,
        None => return Err(GroupError::Url),
    };
    match (parts.host, parts.port) {
        (Some(host), Some(port)) => match parse_address(host.as_str()) {
            Some(a) => Ok((a, port)),
            None => Err(GroupError::Address),
        },
        _ => Err(GroupError::Url),
    }
}

/// The group of which an input such as `udp://239.1.1.1:1234` takes the datagrams:
/// its address as a number, and the port.
pub fn multicast_group(url: &str) -> (r: Result<(u32, u16), GroupError>)
    ensures
        r == group_of(url_parts_of(url@)),
{
    group_of_parts(url_parts(url))
}

/// The time between two datagrams of an output of constant bitrate, in
/// nanoseconds; none where the bitrate is zero.
pub fn cbr_interval_ns(pkt_size: u16, bitrate: u64) -> (r: Option<u64>)
    ensures
        r is None == (bitrate == 0),
        r matches Some(t) ==> t as int == (pkt_size as int * 8_000_000_000) / (bitrate as int),
{
    if bitrate == 0 {
        return None;
    }
    Some((pkt_size as u64 * 8_000_000_000) / bitrate)
}

/// The bits per second of what was taken in or sent within a second.
pub fn bits_of(bytes: u64) -> (r: u64)
    ensures
        r as int == (bytes as int * 8) % 0x1_0000_0000_0000_0000,
{
    bytes.wrapping_mul(8)
}

// ---- Taking a stream in ----

/// What happens at an input.
#[derive(Debug, Clone, Copy, PartialEq, Eq, Structural)]
pub enum InputEvent {
    /// The source could not be reached.
    Unreachable,
    /// The source answered that it has no stream.
    Refused,
    /// So many bytes came in.
    Chunk(u64),
    /// The source closed the stream.
    Closed,
    /// Reading failed.
    Broken,
    /// Nothing came in for too long.
    Silent,
    /// A second has passed.
    Second,
}

/// What is reported of an event at an input.
#[derive(Debug, Clone, Copy, PartialEq, Eq, Structural)]
pub enum InputReport {
    Nothing,
    /// The event itself.
    Event,
    /// How often errors occurred within a minute.
    Count(u32),
    /// The bits that came in within the last second.
    Bitrate(u64),
}

/// What is done after an event at an input.
#[derive(Debug, Clone, Copy, PartialEq, Eq, Structural)]
pub enum InputStep {
    /// Read on.
    Read,
    /// Reach for the source again at once.
    Reconnect,
    /// Reach for the source again after three seconds.
    Pause,
    /// End.
    Stop,
}

/// An input: how it is taken in, the errors of the last minute, and the bytes of
/// the last second.
#[derive(Debug, Clone, Copy, PartialEq, Eq, Structural)]
pub struct InputSession {
    pub kind: InputKind,
    pub errors: ErrCounter,
    pub bytes: u64,
}

/// What a count of errors lets be reported.
pub open spec fn counted_report(r: ErrReport) -> InputReport {
    match r {
        ErrReport::Error => InputReport::Event,
        ErrReport::Count(n) => InputReport::Count(n),
        ErrReport::Nothing => InputReport::Nothing,
    }
}

/// Whether an event is reported by the count of errors, and not each time.
pub open spec fn is_counted(kind: InputKind, event: InputEvent) -> bool {
    match event {
        InputEvent::Unreachable | InputEvent::Refused => true,
        InputEvent::Closed => kind == InputKind::Http,
        _ => false,
    }
}

/// Whether an input fails for good: a process that cannot be started, or a socket of
/// this machine that cannot be reached. The error itself is its result.
pub open spec fn is_fatal(kind: InputKind, event: InputEvent) -> bool {
    event == InputEvent::Unreachable && (kind == InputKind::Ffmpeg || kind == InputKind::Unix)
}

/// What is done after the stream of an input was lost. A socket of this machine
/// is not reached for again.
pub open spec fn step_after(kind: InputKind, event: InputEvent) -> InputStep {
    if kind == InputKind::Unix {
        InputStep::Stop
    } else if event == InputEvent::Refused {
        InputStep::Reconnect
    } else {
        InputStep::Pause
    }
}

/// An input after an event, what is reported and what is done.
pub open spec fn input_stepped(s: InputSession, event: InputEvent) -> (
    InputSession,
    InputReport,
    InputStep,
) {
    match event {
        InputEvent::Chunk(n) => (
            InputSession {
                bytes: s.bytes.wrapping_add(n),
                errors: if s.kind == InputKind::Http {
                    ErrCounter { count: 0, ..s.errors }
                } else {
                    s.errors
                },
                ..s
            },
            InputReport::Nothing,
            InputStep::Read,
        ),
        InputEvent::Second => (
            InputSession { bytes: 0, ..s },
            InputReport::Bitrate(((s.bytes * 8) % 0x1_0000_0000_0000_0000) as u64),
            InputStep::Read,
        ),
        _ => if is_fatal(s.kind, event) {
            (s, InputReport::Nothing, InputStep::Stop)
        } else if is_counted(s.kind, event) {
            let (errors, report) = err_counted(s.errors);
            (InputSession { errors, ..s }, counted_report(report), step_after(s.kind, event))
        } else {
            (s, InputReport::Event, step_after(s.kind, event))
        },
    }
}

impl InputSession {
    pub fn new(kind: InputKind) -> (r: Self)
        ensures
            r == (InputSession { kind, errors: ErrCounter { count: 0, per_min: 20 }, bytes: 0 }),
    {
        InputSession { kind, errors: ErrCounter::new(3), bytes: 0 }
    }

    /// Goes on after an event.
    pub fn on_event(&mut self, event: InputEvent) -> (r: (InputReport, InputStep))
        ensures
            (*final(self), r.0, r.1) == input_stepped(*old(self), event),
    {
        match event {
            InputEvent::Chunk(n) => {
                self.bytes = self.bytes.wrapping_add(n);
                if self.kind == InputKind::Http {
                    self.errors.count = 0;
                }
                return (InputReport::Nothing, InputStep::Read);
            },
            InputEvent::Second => {
                let bits: u64 = bits_of(self.bytes);
                self.bytes = 0;
                return (InputReport::Bitrate(bits), InputStep::Read);
            },
            _ => {},
        }
        if event == InputEvent::Unreachable && (self.kind == InputKind::Ffmpeg || self.kind
            == InputKind::Unix) {
            return (InputReport::Nothing, InputStep::Stop);
        }
        let step = if self.kind == InputKind::Unix {
            InputStep::Stop
        } else if event == InputEvent::Refused {
            InputStep::Reconnect
        } else {
            InputStep::Pause
        };
        let counted = event == InputEvent::Unreachable || event == InputEvent::Refused || (event
            == InputEvent::Closed && self.kind == InputKind::Http);
        let report = if counted {
            match self.errors.on_error() {
                ErrReport::Error => InputReport::Event,
                ErrReport::Count(n) => InputReport::Count(n),
                ErrReport::Nothing => InputReport::Nothing,
            }
        } else {
            InputReport::Event
        };
        (report, step)
    }
}

/// Only a socket of this machine that was lost, or a process that cannot be started,
/// ends an input: every other stream that was lost is reached for again, and while it
/// comes in it is read on.
pub proof fn law_input_goes_on(s: InputSession, event: InputEvent)
    ensures
        input_stepped(s, event).0.kind == s.kind,
        input_stepped(s, event).2 == InputStep::Stop <==> is_fatal(s.kind, event) || (s.kind
            == InputKind::Unix && !(event is Chunk || event is Second)),
        input_stepped(s, event).2 == InputStep::Read <==> (event is Chunk || event is Second),
{
}

/// What came in within a second is reported with its last bit: chunks one after
/// the other are summed up until the second has passed.
pub proof fn law_bitrate_of_chunks(s: InputSession, a: u64, b: u64)
    requires
        (s.bytes + a + b) * 8 <= u64::MAX,
    ensures
        ({
            let s1 = input_stepped(s, InputEvent::Chunk(a)).0;
            let s2 = input_stepped(s1, InputEvent::Chunk(b)).0;
            input_stepped(s2, InputEvent::Second).1 == InputReport::Bitrate(
                ((s.bytes + a + b) * 8) as u64,
            )
        }),
{
}

// ---- Listening for clients ----

/// What happens to an output that listens for clients.
#[derive(Debug, Clone, Copy, PartialEq, Eq, Structural)]
pub enum ListenEvent {
    /// A client came in.
    Accepted,
    /// Accepting a client failed.
    Failed,
    /// The output ends.
    Cancelled,
}

/// What is done after an event at an output that listens.
#[derive(Debug, Clone, Copy, PartialEq, Eq, Structural)]
pub enum ListenStep {
    /// Serve the client.
    Serve,
    /// Report the failure, and listen on.
    Report,
    /// Report that listening ends, and end it. `dirty` says whether the output is
    /// marked dirty.
    End { dirty: bool },
}

/// An output that listens: how it sends, and whether the last client failed.
#[derive(Debug, Clone, Copy, PartialEq, Eq, Structural)]
pub struct ListenSession {
    pub kind: OutputKind,
    pub failed: bool,
}

/// An output that listens after an event, and what is done. A second failure in a row
/// ends listening and marks the output dirty; over HTTP every end marks it.
pub open spec fn listen_stepped(s: ListenSession, event: ListenEvent) -> (
    ListenSession,
    ListenStep,
) {
    match event {
        ListenEvent::Accepted => (ListenSession { failed: false, ..s }, ListenStep::Serve),
        ListenEvent::Failed => if s.failed {
            (s, ListenStep::End { dirty: true })
        } else {
            (ListenSession { failed: true, ..s }, ListenStep::Report)
        },
        ListenEvent::Cancelled => (s, ListenStep::End { dirty: s.kind == OutputKind::Http }),
    }
}

impl ListenSession {
    pub fn new(kind: OutputKind) -> (r: Self)
        ensures
            r == (ListenSession { kind, failed: false }),
    {
        ListenSession { kind, failed: false }
    }

    /// Goes on after an event.
    pub fn on_event(&mut self, event: ListenEvent) -> (r: ListenStep)
        ensures
            (*final(self), r) == listen_stepped(*old(self), event),
    {
        match event {
            ListenEvent::Accepted => {
                self.failed = false;
                ListenStep::Serve
            },
            ListenEvent::Failed => if self.failed {
                ListenStep::End { dirty: true }
            } else {
                self.failed = true;
                ListenStep::Report
            },
            ListenEvent::Cancelled => ListenStep::End { dirty: self.kind == OutputKind::Http },
        }
    }
}

// ---- Arguments of a command ----

/// Where the first word of a text ends.
pub open spec fn word_end(s: Seq<char>) -> int
    decreases s.len(),
{
    if s.len() == 0 || white_space(s[0]) {
        0
    } else {
        1 + word_end(s.drop_first())
    }
}

pub proof fn lemma_word_end(s: Seq<char>)
    ensures
        0 <= word_end(s) <= s.len(),
        s.len() > 0 && !white_space(s[0]) ==> word_end(s) > 0,
    decreases s.len(),
{
    if s.len() > 0 && !white_space(s[0]) {
        lemma_word_end(s.drop_first());
    }
}

/// The words of a text, between which white space stands.
pub open spec fn words(s: Seq<char>) -> Seq<Seq<char>>
    decreases s.len(),
{
    if s.len() == 0 {
        Seq::empty()
    } else if white_space(s[0]) {
        words(s.drop_first())
    } else if 0 < word_end(s) <= s.len() {
        seq![s.take(word_end(s))] + words(s.skip(word_end(s)))
    } else {
        Seq::empty()
    }
}

fn find_word_end(s: &str, from: usize) -> (r: usize)
    requires
        from <= s@.len() <= usize::MAX,
    ensures
        r == from + word_end(s@.skip(from as int)),
        from <= r <= s@.len(),
{
    let len: usize = s.unicode_len();
    let mut to: usize = from;
    while to < len && !is_white_space(s.get_char(to))
        invariant
            from <= to <= len,
            len == s@.len(),
            from + word_end(s@.skip(from as int)) == to + word_end(s@.skip(to as int)),
        decreases len - to,
    {
        assert(s@.skip(to as int).drop_first() =~= s@.skip(to + 1));
        to = to + 1;
    }
    to
}

/// The arguments with which the transcoder is called: the words of the address,
/// and that a transport stream goes to the standard output.
pub open spec fn transcoder_args(url: Seq<char>) -> Seq<Seq<char>> {
    words(url) + seq!["-f"@, "mpegts"@, "pipe:1"@]
}

/// The arguments with which the transcoder is called.
pub fn ffmpeg_args(url: &str) -> (r: Vec<String>)
    ensures
        r@.map_values(|w: String| w@) == transcoder_args(url@),
{
    let mut args: Vec<String> = Vec::new();
    let len: usize = url.unicode_len();
    let mut at: usize = 0;
    assert(url@.skip(0) =~= url@);
    assert(args@.map_values(|w: String| w@) =~= Seq::<Seq<char>>::empty());
    assert(Seq::<Seq<char>>::empty() + words(url@) =~= words(url@));
    while at < len
        invariant
            at <= len,
            len == url@.len(),
            args@.map_values(|w: String| w@) + words(url@.skip(at as int)) == words(url@),
        decreases len - at,
    {
        let ghost rest = url@.skip(at as int);
        let ghost before = args@.map_values(|w: String| w@);
        if is_white_space(url.get_char(at)) {
            assert(rest.drop_first() =~= url@.skip(at + 1));
            at = at + 1;
        } else {
            let end: usize = find_word_end(url, at);
            proof {
                lemma_word_end(rest);
            }
            let word = String::from_str(url.substring_char(at, end));
            assert(word@ =~= rest.take(word_end(rest)));
            assert(rest.skip(word_end(rest)) =~= url@.skip(end as int));
            args.push(word);
            assert(args@.map_values(|w: String| w@) =~= before.push(word@));
            at = end;
            assert(args@.map_values(|w: String| w@) + words(url@.skip(at as int)) =~= before + (
            seq![word@] + words(url@.skip(at as int))));
        }
    }
    assert(words(url@.skip(at as int)) =~= Seq::<Seq<char>>::empty());
    args.push(String::from_str("-f"));
    args.push(String::from_str("mpegts"));
    args.push(String::from_str("pipe:1"));
    assert(args@.map_values(|w: String| w@) =~= transcoder_args(url@));
    args
}

/// A text that is not empty and holds no white space.
pub open spec fn is_word(w: Seq<char>) -> bool {
    w.len() > 0 && forall|j: int| 0 <= j < w.len() ==> !white_space(#[trigger] w[j])
}

/// A word of a text is not empty and holds no white space.
pub proof fn law_words_are_words(s: Seq<char>)
    ensures
        forall|i: int| 0 <= i < words(s).len() ==> is_word(#[trigger] words(s)[i]),
    decreases s.len(),
{
    if s.len() == 0 {
        assert(words(s).len() == 0);
    } else {
        if white_space(s[0]) {
            law_words_are_words(s.drop_first());
            assert(words(s) == words(s.drop_first()));
        } else {
            lemma_word_end(s);
            let n = word_end(s);
            let rest = words(s.skip(n));
            law_words_are_words(s.skip(n));
            lemma_word_is_solid(s);
            assert(is_word(s.take(n)));
            assert forall|i: int| 0 <= i < words(s).len() implies is_word(
                #[trigger] words(s)[i],
            ) by {
                if i > 0 {
                    assert(words(s)[i] == rest[i - 1]);
                }
            }
        }
    }
}

proof fn lemma_word_is_solid(s: Seq<char>)
    ensures
        forall|j: int| 0 <= j < word_end(s) && j < s.len() ==> !white_space(#[trigger] s[j]),
    decreases s.len(),
{
    if s.len() > 0 && !white_space(s[0]) {
        let rest = s.drop_first();
        lemma_word_is_solid(rest);
        assert forall|j: int| 0 <= j < word_end(s) && j < s.len() implies !white_space(
            #[trigger] s[j],
        ) by {
            if j > 0 {
                assert(s[j] == rest[j - 1]);
            }
        }
    }
}

// ---- Workers ----

/// The outputs that are started, by their places, and which run then. From place
/// `i` on, each output of a known kind is started; unless `every` one is to be, only
/// where none with its identifier runs.
pub open spec fn outputs_started(
    outputs: Seq<Output>,
    i: int,
    running: Set<u32>,
    every: bool,
) -> (Seq<int>, Set<u32>)
    decreases outputs.len() - i,
{
    if i < 0 || i >= outputs.len() {
        (Seq::empty(), running)
    } else if (!every && running.contains(outputs[i].id)) || !allowed_task(outputs[i].task_type@) {
        outputs_started(outputs, i + 1, running, every)
    } else {
        let (places, r) = outputs_started(outputs, i + 1, running.insert(outputs[i].id), every);
        (seq![i] + places, r)
    }
}

/// What runs without what has finished.
pub open spec fn without(running: Set<u32>, finished: Seq<u32>) -> Set<u32> {
    running.difference(finished.to_set())
}

/// A stream that is taken in, and which of its outputs run.
pub struct Worker {
    config: Stream,
    outputs: HashSet<u32>,
}

impl Worker {
    /// Which outputs run.
    pub closed spec fn running(&self) -> Set<u32> {
        self.outputs@
    }

    /// What is configured of the stream.
    pub closed spec fn stream(&self) -> Stream {
        self.config
    }

    /// What is configured of the stream.
    pub fn config(&self) -> (r: &Stream)
        ensures
            *r == self.stream(),
    {
        &self.config
    }

    /// A worker, and the places of the outputs that are to be started: every one of a
    /// known kind.
    pub fn new(config: Stream) -> (r: (Self, Vec<usize>))
        ensures
            r.0.stream() == config,
            (r.1@.map_values(|k: usize| k as int), r.0.running()) == outputs_started(
                config.outputs@,
                0,
                Set::empty(),
                true,
            ),
    {
        let mut worker = Worker { config, outputs: HashSet::new() };
        let places = worker.start_outputs(true);
        (worker, places)
    }

    fn start_outputs(&mut self, every: bool) -> (r: Vec<usize>)
        ensures
            final(self).stream() == old(self).stream(),
            (r@.map_values(|k: usize| k as int), final(self).running()) == outputs_started(
                old(self).stream().outputs@,
                0,
                old(self).running(),
                every,
            ),
    {
        let mut places: Vec<usize> = Vec::new();
        let mut i: usize = 0;
        let ghost all = outputs_started(self.config.outputs@, 0, self.running(), every);
        assert(places@.map_values(|k: usize| k as int) =~= Seq::<int>::empty());
        assert(Seq::<int>::empty() + all.0 =~= all.0);
        while i < self.config.outputs.len()
            invariant
                i <= self.config.outputs@.len(),
                self.config == old(self).config,
                all == outputs_started(old(self).stream().outputs@, 0, old(self).running(), every),
                places@.map_values(|k: usize| k as int) + outputs_started(
                    self.config.outputs@,
                    i as int,
                    self.running(),
                    every,
                ).0 == all.0,
                outputs_started(self.config.outputs@, i as int, self.running(), every).1 == all.1,
            decreases self.config.outputs@.len() - i,
        {
            let ghost before = places@.map_values(|k: usize| k as int);
            let id: u32 = self.config.outputs[i].id;
            if (every || !self.outputs.contains(&id)) && is_task_type_allowed(
                self.config.outputs[i].task_type.as_str(),
            ) {
                places.push(i);
                self.outputs.insert(id);
                assert(places@.map_values(|k: usize| k as int) =~= before.push(i as int));
                assert(places@.map_values(|k: usize| k as int) + outputs_started(
                    self.config.outputs@,
                    i + 1,
                    self.running(),
                    every,
                ).0 =~= before + (seq![i as int] + outputs_started(
                    self.config.outputs@,
                    i + 1,
                    self.running(),
                    every,
                ).0));
            }
            i = i + 1;
        }
        assert(places@.map_values(|k: usize| k as int) =~= all.0);
        places
    }

    /// Looks after the outputs. Where the input has finished, all outputs end and
    /// nothing is returned; else the places of the outputs that are to be started
    /// again.
    pub fn monitor(&mut self, input_finished: bool, finished: &Vec<u32>) -> (r: Option<Vec<usize>>)
        ensures
            final(self).stream() == old(self).stream(),
            r is None == input_finished,
            input_finished ==> final(self).running() == Set::<u32>::empty(),
            r matches Some(places) ==> (
                places@.map_values(|k: usize| k as int),
                final(self).running(),
            ) == outputs_started(
                old(self).stream().outputs@,
                0,
                without(old(self).running(), finished@),
                false,
            ),
    {
        if input_finished {
            self.outputs = HashSet::new();
            return None;
        }
        let mut i: usize = 0;
        assert(finished@.take(0).to_set() =~= Set::empty());
        assert(self.running() =~= without(self.running(), finished@.take(0)));
        while i < finished.len()
            invariant
                i <= finished@.len(),
                self.config == old(self).config,
                self.running() == without(old(self).running(), finished@.take(i as int)),
            decreases finished@.len() - i,
        {
            let ghost before = self.running();
            self.outputs.remove(&finished[i]);
            i = i + 1;
            assert(finished@.take(i as int) =~= finished@.take(i - 1).push(finished@[i - 1]));
            assert(self.running() =~= without(old(self).running(), finished@.take(i as int))) by {
                let shorter = finished@.take(i - 1);
                let longer = finished@.take(i as int);
                assert forall|k: u32| longer.to_set().contains(k) == (shorter.to_set().contains(k)
                    || k == finished@[i - 1]) by {
                    if longer.contains(k) {
                        let j = choose|j: int| 0 <= j < longer.len() && longer[j] == k;
                        if j < i - 1 {
                            assert(shorter[j] == k);
                        }
                    }
                    if shorter.contains(k) {
                        let j = choose|j: int| 0 <= j < shorter.len() && shorter[j] == k;
                        assert(longer[j] == k);
                    }
                    if k == finished@[i - 1] {
                        assert(longer[i - 1] == k);
                    }
                }
            }
        }
        assert(finished@.take(i as int) =~= finished@);
        Some(self.start_outputs(false))
    }

    /// Whether an output runs.
    pub fn is_output_running(&self, output_id: u32) -> (r: bool)
        ensures
            r == self.running().contains(output_id),
    {
        self.outputs.contains(&output_id)
    }

    /// An output ends; whether it ran.
    pub fn stop_output(&mut self, output_id: u32) -> (r: bool)
        ensures
            final(self).stream() == old(self).stream(),
            final(self).running() == old(self).running().remove(output_id),
            r == old(self).running().contains(output_id),
    {
        self.outputs.remove(&output_id)
    }
}

/// After a worker was looked after, every output of a known kind runs, and none
/// was started that ran already.
pub proof fn law_outputs_run(outputs: Seq<Output>, i: int, running: Set<u32>)
    requires
        0 <= i <= outputs.len(),
    ensures
        running.subset_of(outputs_started(outputs, i, running, false).1),
        forall|k: int|
            i <= k < outputs.len() && allowed_task((#[trigger] outputs[k]).task_type@)
                ==> outputs_started(outputs, i, running, false).1.contains(outputs[k].id),
        forall|n: int|
            #![trigger outputs_started(outputs, i, running, false).0[n]]
            0 <= n < outputs_started(outputs, i, running, false).0.len() ==> ({
                let k = outputs_started(outputs, i, running, false).0[n];
                i <= k < outputs.len() && allowed_task(outputs[k].task_type@) && !running.contains(
                    outputs[k].id,
                )
            }),
    decreases outputs.len() - i,
{
    if i < outputs.len() {
        if running.contains(outputs[i].id) || !allowed_task(outputs[i].task_type@) {
            law_outputs_run(outputs, i + 1, running);
        } else {
            let more = running.insert(outputs[i].id);
            law_outputs_run(outputs, i + 1, more);
            let places = outputs_started(outputs, i + 1, more, false).0;
            assert forall|n: int|
                #![trigger outputs_started(outputs, i, running, false).0[n]]
                0 <= n < outputs_started(outputs, i, running, false).0.len() implies ({
                let k = outputs_started(outputs, i, running, false).0[n];
                i <= k < outputs.len() && allowed_task(outputs[k].task_type@) && !running.contains(
                    outputs[k].id,
                )
            }) by {
                if n > 0 {
                    assert(outputs_started(outputs, i, running, false).0[n] == places[n - 1]);
                }
            }
        }
    }
}

/// A new worker starts every output of a known kind, also one of several with the
/// same identifier, each once and in the order of the configuration.
pub proof fn law_every_output_starts(outputs: Seq<Output>, i: int, running: Set<u32>)
    requires
        0 <= i <= outputs.len(),
    ensures
        ({
            let places = outputs_started(outputs, i, running, true).0;
            &&& forall|k: int|
                i <= k < outputs.len() && allowed_task((#[trigger] outputs[k]).task_type@)
                    ==> places.contains(k)
            &&& forall|n: int|
                0 <= n < places.len() ==> i <= #[trigger] places[n] < outputs.len()
                    && allowed_task(outputs[places[n]].task_type@)
            &&& forall|m: int, n: int|
                0 <= m < n < places.len() ==> #[trigger] places[m] < #[trigger] places[n]
        }),
    decreases outputs.len() - i,
{
    let places = outputs_started(outputs, i, running, true).0;
    if i == outputs.len() {
        assert(places.len() == 0);
    } else {
        if !allowed_task(outputs[i].task_type@) {
            law_every_output_starts(outputs, i + 1, running);
            assert(places == outputs_started(outputs, i + 1, running, true).0);
        } else {
            let more = running.insert(outputs[i].id);
            law_every_output_starts(outputs, i + 1, more);
            let rest = outputs_started(outputs, i + 1, more, true).0;
            assert(places == seq![i] + rest);
            assert forall|k: int|
                i <= k < outputs.len() && allowed_task(
                    (#[trigger] outputs[k]).task_type@,
                ) implies places.contains(k) by {
                if k == i {
                    assert(places[0] == k);
                } else {
                    let n = choose|n: int| 0 <= n < rest.len() && rest[n] == k;
                    assert(places[n + 1] == k);
                }
            }
            assert forall|n: int| 0 <= n < places.len() implies i <= #[trigger] places[n]
                < outputs.len() && allowed_task(outputs[places[n]].task_type@) by {
                if n > 0 {
                    assert(places[n] == rest[n - 1]);
                }
            }
            assert forall|m: int, n: int| 0 <= m < n < places.len() implies #[trigger] places[m]
                < #[trigger] places[n] by {
                assert(places[n] == rest[n - 1]);
                if m > 0 {
                    assert(places[m] == rest[m - 1]);
                }
            }
        }
    }
}

// ---- Reports ----

/// How a message is shown.
#[derive(Debug, Clone, Copy, PartialEq, Eq, Structural)]
pub enum LogLevels {
    Info,
    Warn,
    Pause,
    Play,
}

/// The word for how a message is shown.
pub open spec fn level_word(l: LogLevels) -> Seq<char> {
    match l {
        LogLevels::Info => "0"@,
        LogLevels::Warn => "1"@,
        LogLevels::Pause => "10"@,
        LogLevels::Play => "11"@,
    }
}

impl LogLevels {
    /// The word for how a message is shown.
    pub fn as_str(&self) -> (r: &'static str)
        ensures
            r@ == level_word(*self),
    {
        match self {
            LogLevels::Info => "0",
            LogLevels::Warn => "1",
            LogLevels::Pause => "10",
            LogLevels::Play => "11",
        }
    }
}

/// What is reported of a worker.
pub enum Report {
    /// A line for the log of the stream, written behind the time.
    Line(String),
    /// A message for the administration.
    Log { worker_id: u32, output_id: u32, message: String, level: LogLevels },
    /// A command for the administration.
    Command { worker_id: u32, output_id: u32, cmd: Cmd },
}

impl Report {
    /// The content of the message to the administration, if it is one.
    pub fn data(&self) -> (r: Option<String>)
        ensures
            match self@ {
                ReportModel::Line(_) => r is None,
                ReportModel::Log { worker_id, output_id, message, level } => r matches Some(t)
                    && t@ == log_content(worker_id, output_id, message, level_word(level)),
                ReportModel::Command { worker_id, output_id, cmd } => r matches Some(t) && t@
                    == cmd_content(worker_id, output_id, cmd_word(cmd)),
            },
    {
        match self {
            Report::Line(_) => None,
            Report::Log { worker_id, output_id, message, level } => Some(
                log_data(*worker_id, *output_id, message.as_str(), level.as_str()),
            ),
            Report::Command { worker_id, output_id, cmd } => Some(
                cmd_data(*worker_id, *output_id, cmd.as_str()),
            ),
        }
    }
}

/// What is reported of a worker.
pub enum ReportModel {
    Line(Seq<char>),
    Log { worker_id: u32, output_id: u32, message: Seq<char>, level: LogLevels },
    Command { worker_id: u32, output_id: u32, cmd: Cmd },
}

impl View for Report {
    type V = ReportModel;

    open spec fn view(&self) -> ReportModel {
        match *self {
            Report::Line(t) => ReportModel::Line(t@),
            Report::Log { worker_id, output_id, message, level } => ReportModel::Log {
                worker_id,
                output_id,
                message: message@,
                level,
            },
            Report::Command { worker_id, output_id, cmd } => ReportModel::Command {
                worker_id,
                output_id,
                cmd,
            },
        }
    }
}

/// The reports as they are read.
pub open spec fn reports(v: Seq<Report>) -> Seq<ReportModel> {
    v.map_values(|r: Report| r@)
}

/// Collects what is reported of a worker, in the order in which it is to be
/// delivered. Without an administration only the log of the stream is kept.
pub struct Helper {
    worker_id: u32,
    output_id: u32,
    namespace: String,
    has_api: bool,
    pending: Vec<Report>,
}

/// The state of a helper.
#[verifier::ext_equal]
pub struct HelperState {
    pub worker_id: u32,
    pub output_id: u32,
    pub namespace: Seq<char>,
    pub has_api: bool,
    pub pending: Seq<ReportModel>,
}

impl View for Helper {
    type V = HelperState;

    closed spec fn view(&self) -> HelperState {
        HelperState {
            worker_id: self.worker_id,
            output_id: self.output_id,
            namespace: self.namespace@,
            has_api: self.has_api,
            pending: reports(self.pending@),
        }
    }
}

/// A message is written to the log of the stream, under the name of who reports.
pub open spec fn line_logged(s: HelperState, message: Seq<char>) -> HelperState {
    HelperState {
        pending: s.pending.push(ReportModel::Line("["@ + s.namespace + "]: "@ + message)),
        ..s
    }
}

/// A message is written to the log of the stream and sent to the administration.
pub open spec fn message_logged(
    s: HelperState,
    message: Seq<char>,
    level: LogLevels,
) -> HelperState {
    let t = line_logged(s, message);
    if s.has_api {
        HelperState {
            pending: t.pending.push(
                ReportModel::Log {
                    worker_id: s.worker_id,
                    output_id: s.output_id,
                    message,
                    level,
                },
            ),
            ..t
        }
    } else {
        t
    }
}

/// A command is sent to the administration.
pub open spec fn command_sent(s: HelperState, cmd: Cmd) -> HelperState {
    if s.has_api {
        HelperState {
            pending: s.pending.push(
                ReportModel::Command { worker_id: s.worker_id, output_id: s.output_id, cmd },
            ),
            ..s
        }
    } else {
        s
    }
}

/// A report of the packet handler is delivered. `shown` is what a table says, behind
/// the words for it.
pub open spec fn note_delivered(s: HelperState, n: MuxNote, shown: Seq<char>) -> HelperState {
    let text = note_text(n) + shown;
    match note_level(n) {
        ReportLevel::Line => line_logged(s, text),
        ReportLevel::Info => message_logged(s, text, LogLevels::Info),
        ReportLevel::Warn => message_logged(s, text, LogLevels::Warn),
        ReportLevel::Command(cmd) => command_sent(s, cmd),
    }
}

impl Helper {
    pub fn new(worker_id: u32) -> (r: Self)
        ensures
            r@ == (HelperState {
                worker_id,
                output_id: 0,
                namespace: "main"@,
                has_api: false,
                pending: Seq::empty(),
            }),
    {
        let r = Helper {
            worker_id,
            output_id: 0,
            namespace: String::from_str("main"),
            has_api: false,
            pending: Vec::new(),
        };
        assert(reports(r.pending@) =~= Seq::empty());
        r
    }

    pub fn set_output_id(&mut self, output_id: u32)
        ensures
            final(self)@ == (HelperState { output_id, ..old(self)@ }),
    {
        self.output_id = output_id;
    }

    pub fn set_namespace(&mut self, namespace: &str)
        ensures
            final(self)@ == (HelperState { namespace: namespace@, ..old(self)@ }),
    {
        self.namespace = String::from_str(namespace);
    }

    /// From now on the administration is told.
    pub fn set_api_config(&mut self)
        ensures
            final(self)@ == (HelperState { has_api: true, ..old(self)@ }),
    {
        self.has_api = true;
    }

    fn report(&mut self, report: Report)
        ensures
            final(self)@ == (HelperState { pending: old(self)@.pending.push(report@), ..old(self)@
            }),
    {
        self.pending.push(report);
        assert(reports(self.pending@) =~= reports(old(self).pending@).push(report@));
    }

    /// Writes to the log of the stream.
    pub fn log(&mut self, message: &str)
        ensures
            final(self)@ == line_logged(old(self)@, message@),
    {
        let mut line = String::from_str("[");
        line.append(self.namespace.as_str());
        line.append("]: ");
        line.append(message);
        self.report(Report::Line(line));
    }

    /// Writes to the log of the stream, and tells the administration.
    pub fn send_log(&mut self, message: &str, level: LogLevels)
        ensures
            final(self)@ == message_logged(old(self)@, message@, level),
    {
        self.log(message);
        if self.has_api {
            self.report(
                Report::Log {
                    worker_id: self.worker_id,
                    output_id: self.output_id,
                    message: String::from_str(message),
                    level,
                },
            );
        }
    }

    pub fn log_info(&mut self, message: &str)
        ensures
            final(self)@ == message_logged(old(self)@, message@, LogLevels::Info),
    {
        self.send_log(message, LogLevels::Info);
    }

    pub fn log_warn(&mut self, message: &str)
        ensures
            final(self)@ == message_logged(old(self)@, message@, LogLevels::Warn),
    {
        self.send_log(message, LogLevels::Warn);
    }

    pub fn log_pause(&mut self, message: &str)
        ensures
            final(self)@ == message_logged(old(self)@, message@, LogLevels::Pause),
    {
        self.send_log(message, LogLevels::Pause);
    }

    pub fn log_play(&mut self, message: &str)
        ensures
            final(self)@ == message_logged(old(self)@, message@, LogLevels::Play),
    {
        self.send_log(message, LogLevels::Play);
    }

    /// Sends a command to the administration.
    pub fn send_cmd(&mut self, cmd: Cmd)
        ensures
            final(self)@ == command_sent(old(self)@, cmd),
    {
        if self.has_api {
            self.report(
                Report::Command { worker_id: self.worker_id, output_id: self.output_id, cmd },
            );
        }
    }

    pub fn cmd_mark_dirty(&mut self)
        ensures
            final(self)@ == command_sent(old(self)@, Cmd::MarkDirty),
    {
        self.send_cmd(Cmd::MarkDirty);
    }

    pub fn cmd_unmark_dirty(&mut self)
        ensures
            final(self)@ == command_sent(old(self)@, Cmd::UnMarkDirty),
    {
        self.send_cmd(Cmd::UnMarkDirty);
    }

    /// Delivers a report of the packet handler. `shown` is what a table says, behind
    /// the words for it.
    pub fn deliver(&mut self, report: &MuxReport, shown: &str)
        ensures
            final(self)@ == note_delivered(old(self)@, report@, shown@),
    {
        let mut text = report.text();
        text.append(shown);
        match report.level() {
            ReportLevel::Line => self.log(text.as_str()),
            ReportLevel::Info => self.log_info(text.as_str()),
            ReportLevel::Warn => self.log_warn(text.as_str()),
            ReportLevel::Command(cmd) => self.send_cmd(cmd),
        }
    }

    /// Hands out what is to be delivered, in the order of the calls.
    pub fn take_reports(&mut self) -> (r: Vec<Report>)
        ensures
            reports(r@) == old(self)@.pending,
            final(self)@ == (HelperState { pending: Seq::empty(), ..old(self)@ }),
    {
        let mut none: Vec<Report> = Vec::new();
        std::mem::swap(&mut none, &mut self.pending);
        assert(reports(self.pending@) =~= Seq::empty());
        none
    }
}

/// Something that is given to a helper.
pub enum HelperCall {
    Line(Seq<char>),
    Log(Seq<char>, LogLevels),
    Command(Cmd),
}

/// The state of a helper after a call.
pub open spec fn called(s: HelperState, call: HelperCall) -> HelperState {
    match call {
        HelperCall::Line(message) => line_logged(s, message),
        HelperCall::Log(message, level) => message_logged(s, message, level),
        HelperCall::Command(cmd) => command_sent(s, cmd),
    }
}

/// The state of a helper after calls, one after the other.
pub open spec fn all_called(s: HelperState, calls: Seq<HelperCall>) -> HelperState
    decreases calls.len(),
{
    if calls.len() == 0 {
        s
    } else {
        called(all_called(s, calls.drop_last()), calls.last())
    }
}

/// The requests to the administration among reports, in their order.
pub open spec fn requests(reports: Seq<ReportModel>) -> Seq<ReportModel>
    decreases reports.len(),
{
    if reports.len() == 0 {
        Seq::empty()
    } else if reports.last() is Line {
        requests(reports.drop_last())
    } else {
        requests(reports.drop_last()).push(reports.last())
    }
}

/// The requests that calls are owed, in the order of the calls.
pub open spec fn requested(s: HelperState, calls: Seq<HelperCall>) -> Seq<ReportModel>
    decreases calls.len(),
{
    if calls.len() == 0 {
        Seq::empty()
    } else {
        let before = requested(s, calls.drop_last());
        match calls.last() {
            HelperCall::Line(_) => before,
            HelperCall::Log(message, level) => before.push(
                ReportModel::Log { worker_id: s.worker_id, output_id: s.output_id, message, level },
            ),
            HelperCall::Command(cmd) => before.push(
                ReportModel::Command { worker_id: s.worker_id, output_id: s.output_id, cmd },
            ),
        }
    }
}

proof fn lemma_requests_push(reports: Seq<ReportModel>, r: ReportModel)
    ensures
        requests(reports.push(r)) == if r is Line {
            requests(reports)
        } else {
            requests(reports).push(r)
        },
{
    assert(reports.push(r).drop_last() =~= reports);
}

/// With an administration, whatever calls are made one after the other, the requests
/// stand in the queue in the order of the calls, behind those that stood there before.
pub proof fn law_requests_in_order(s: HelperState, calls: Seq<HelperCall>)
    requires
        s.has_api,
    ensures
        requests(all_called(s, calls).pending) == requests(s.pending) + requested(s, calls),
        all_called(s, calls).has_api,
        all_called(s, calls).worker_id == s.worker_id,
        all_called(s, calls).output_id == s.output_id,
    decreases calls.len(),
{
    if calls.len() == 0 {
        assert(requests(s.pending) + requested(s, calls) =~= requests(s.pending));
    } else {
        law_requests_in_order(s, calls.drop_last());
        let t = all_called(s, calls.drop_last());
        match calls.last() {
            HelperCall::Line(message) => {
                lemma_requests_push(
                    t.pending,
                    ReportModel::Line("["@ + t.namespace + "]: "@ + message),
                );
            },
            HelperCall::Log(message, level) => {
                let line = ReportModel::Line("["@ + t.namespace + "]: "@ + message);
                let log = ReportModel::Log {
                    worker_id: t.worker_id,
                    output_id: t.output_id,
                    message,
                    level,
                };
                lemma_requests_push(t.pending, line);
                lemma_requests_push(t.pending.push(line), log);
            },
            HelperCall::Command(cmd) => {
                lemma_requests_push(
                    t.pending,
                    ReportModel::Command { worker_id: t.worker_id, output_id: t.output_id, cmd },
                );
            },
        }
        assert(requests(all_called(s, calls).pending) =~= requests(s.pending) + requested(
            s,
            calls,
        ));
    }
}

/// What the packet handler reports is delivered in the order in which it happened: each
/// report is one call.
pub proof fn law_note_is_one_call(s: HelperState, n: MuxNote, shown: Seq<char>)
    ensures
        note_delivered(s, n, shown) == called(
            s,
            match note_level(n) {
                ReportLevel::Line => HelperCall::Line(note_text(n) + shown),
                ReportLevel::Info => HelperCall::Log(note_text(n) + shown, LogLevels::Info),
                ReportLevel::Warn => HelperCall::Log(note_text(n) + shown, LogLevels::Warn),
                ReportLevel::Command(cmd) => HelperCall::Command(cmd),
            },
        ),
{
}

/// What was reported stays, and what is reported later stands behind it:
/// messages and commands are delivered in the order in which they were given.
pub proof fn law_reports_in_order(
    s: HelperState,
    message: Seq<char>,
    level: LogLevels,
    cmd: Cmd,
)
    ensures
        s.pending.is_prefix_of(line_logged(s, message).pending),
        s.pending.is_prefix_of(message_logged(s, message, level).pending),
        s.pending.is_prefix_of(command_sent(s, cmd).pending),
        s.has_api ==> command_sent(message_logged(s, message, level), cmd).pending == s.pending
            + seq![
            ReportModel::Line("["@ + s.namespace + "]: "@ + message),
            ReportModel::Log { worker_id: s.worker_id, output_id: s.output_id, message, level },
            ReportModel::Command { worker_id: s.worker_id, output_id: s.output_id, cmd },
        ],
{
    if s.has_api {
        assert(command_sent(message_logged(s, message, level), cmd).pending =~= s.pending + seq![
            ReportModel::Line("["@ + s.namespace + "]: "@ + message),
            ReportModel::Log { worker_id: s.worker_id, output_id: s.output_id, message, level },
            ReportModel::Command { worker_id: s.worker_id, output_id: s.output_id, cmd },
        ]);
    }
}

/// Words on both sides of white space are words apart; a text without white space is one
/// word. So nothing of a text is lost but the white space.
pub proof fn law_words_are_apart(a: Seq<char>, c: char, b: Seq<char>)
    requires
        white_space(c),
    ensures
        words(a.push(c) + b) == words(a) + words(b),
        is_word(a) ==> words(a) == seq![a],
    decreases a.len(),
{
    let all = a.push(c) + b;
    if a.len() == 0 {
        assert(all.drop_first() =~= b);
        assert(words(a) + words(b) =~= words(b));
    } else if white_space(a[0]) {
        law_words_are_apart(a.drop_first(), c, b);
        assert(all.drop_first() =~= a.drop_first().push(c) + b);
    } else {
        lemma_word_end(a);
        lemma_word_end(all);
        lemma_end_before_space(a, c, b);
        let n = word_end(a);
        law_words_are_apart(a.skip(n), c, b);
        assert(all.skip(n) =~= a.skip(n).push(c) + b);
        assert(all.take(n) =~= a.take(n));
        assert(words(all) =~= words(a) + words(b));
        if is_word(a) {
            lemma_one_word(a);
            assert(a.take(n) =~= a);
            assert(a.skip(n) =~= Seq::<char>::empty());
            assert(words(a) =~= seq![a]);
        }
    }
}

proof fn lemma_end_before_space(a: Seq<char>, c: char, b: Seq<char>)
    requires
        white_space(c),
    ensures
        word_end(a.push(c) + b) == word_end(a),
    decreases a.len(),
{
    let all = a.push(c) + b;
    if a.len() > 0 && !white_space(a[0]) {
        lemma_end_before_space(a.drop_first(), c, b);
        assert(all.drop_first() =~= a.drop_first().push(c) + b);
    }
}

proof fn lemma_one_word(a: Seq<char>)
    requires
        forall|j: int| 0 <= j < a.len() ==> !white_space(#[trigger] a[j]),
    ensures
        word_end(a) == a.len(),
    decreases a.len(),
{
    if a.len() > 0 {
        let rest = a.drop_first();
        assert forall|j: int| 0 <= j < rest.len() implies !white_space(#[trigger] rest[j]) by {
            assert(rest[j] == a[j + 1]);
        }
        lemma_one_word(rest);
    }
}

/// The transcoder gets the words of the URL and is told to write a transport stream to its
/// output.
pub proof fn law_transcoder_writes_stream(url: Seq<char>)
    ensures
        ({
            let a = transcoder_args(url);
            let n = words(url).len() as int;
            &&& a.len() == n + 3
            &&& a.take(n) == words(url)
            &&& a[n] == "-f"@ && a[n + 1] == "mpegts"@ && a[n + 2] == "pipe:1"@
        }),
{
    assert(transcoder_args(url).take(words(url).len() as int) =~= words(url));
}

/// A source that could not be reached is reported at once when something came from it
/// before; over http its errors are counted anew from there. A source that refuses is
/// asked again without a pause, any other lost one after a pause.
pub proof fn law_lost_source_is_reached_for(s: InputSession, n: u64, event: InputEvent)
    requires
        !(event is Chunk || event is Second),
    ensures
        s.kind == InputKind::Http && (event == InputEvent::Unreachable || event
            == InputEvent::Refused || event == InputEvent::Closed) ==> input_stepped(
            input_stepped(s, InputEvent::Chunk(n)).0,
            event,
        ).1 == InputReport::Event,
        s.kind != InputKind::Unix && event == InputEvent::Refused ==> input_stepped(s, event).2
            == InputStep::Reconnect,
        s.kind != InputKind::Unix && event != InputEvent::Refused && !(s.kind == InputKind::Ffmpeg
            && event == InputEvent::Unreachable) ==> input_stepped(s, event).2 == InputStep::Pause,
        event == InputEvent::Broken || event == InputEvent::Silent ==> input_stepped(s, event).1
            == InputReport::Event,
        input_stepped(s, event).0.bytes == s.bytes,
{
}

/// An output that listens for clients goes on after one failure and ends after two in a
/// row; a client that comes in between wipes the first one out.
pub proof fn law_two_failures_end(s: ListenSession)
    ensures
        ({
            let (a, step_a) = listen_stepped(s, ListenEvent::Accepted);
            let (b, step_b) = listen_stepped(a, ListenEvent::Failed);
            let (c, step_c) = listen_stepped(b, ListenEvent::Failed);
            let (d, step_d) = listen_stepped(b, ListenEvent::Accepted);
            &&& step_a == ListenStep::Serve
            &&& step_b == ListenStep::Report
            &&& step_c == (ListenStep::End { dirty: true })
            &&& step_d == ListenStep::Serve && d == a
            &&& c.kind == s.kind
            &&& listen_stepped(s, ListenEvent::Cancelled).1 == (ListenStep::End {
                dirty: s.kind == OutputKind::Http,
            })
        }),
{
}

} // verus!
