//! The packets of the program guide.

use crate::epg::events::{EpgEvent, EpgNetwork, EpgState, ServiceEvents};
use crate::packet::TS_PACKET_SIZE;
use crate::psi::crc::with_crc;
use crate::psi::eit::{
    eit_head, empty_present_following_section, event_descriptors, event_section, lang_code,
    try_present_following_section,
};
use crate::psi::header::with_length;
use crate::psi::pmt::text_of;
use crate::psi::section::{pack_multi, packet_count, section_packets, Section};
use crate::psi::tdt::tdt_bytes;
use crate::psi::time::{zone_offset_of, UtcTime};
use crate::psi::tot::tot_bytes;
use crate::psi::{eit, tdt, tot};
use std::collections::VecDeque;
use vstd::prelude::*;
use vstd::string::StringExecFns;
use vstd::utf8::{encode_utf8, is_char_boundary};

verus! {

pub const EIT_PERIOD_MS: u64 = 1_000;

pub const TDT_PERIOD_MS: u64 = 10_000;

pub const EIT_TS_PACKET_COUNT: usize = 7;

pub const MIN_TICK_NS: u64 = 1_000_000;

// ---- What is on ----

/// When an event ends. A leap second is left behind as soon as time goes on.
pub open spec fn end_of(e: EpgEvent) -> UtcTime {
    UtcTime {
        secs: (e.start_time_utc.secs + e.duration_seconds) as i64,
        nanos: if e.start_time_utc.nanos >= 1_000_000_000 && e.duration_seconds > 0 {
            (e.start_time_utc.nanos - 1_000_000_000) as u32
        } else {
            e.start_time_utc.nanos
        },
    }
}

/// Whether an event is on.
pub open spec fn is_on(e: EpgEvent, now: UtcTime) -> bool {
    !now.earlier(&e.start_time_utc) && now.earlier(&end_of(e))
}

/// The first event from `i` on that is on.
pub open spec fn first_on(s: Seq<EpgEvent>, now: UtcTime, i: int) -> Option<int>
    decreases s.len() - i,
{
    if i >= s.len() {
        None
    } else if is_on(s[i], now) {
        Some(i)
    } else {
        first_on(s, now, i + 1)
    }
}

/// The first event from `i` on that starts later.
pub open spec fn first_upcoming(s: Seq<EpgEvent>, now: UtcTime, i: int) -> Option<int>
    decreases s.len() - i,
{
    if i >= s.len() {
        None
    } else if now.earlier(&s[i].start_time_utc) {
        Some(i)
    } else {
        first_upcoming(s, now, i + 1)
    }
}

/// A place in a list, if it is one.
pub open spec fn place(s: Seq<EpgEvent>, i: int) -> Option<int> {
    if i < s.len() {
        Some(i)
    } else {
        None
    }
}

/// The event that counts as present and the one that follows. That is the one
/// that is on and its successor; else the first two that are still to come; else
/// the first two of all.
pub open spec fn present_following(s: Seq<EpgEvent>, now: UtcTime) -> Option<(int, Option<int>)> {
    match first_on(s, now, 0) {
        Some(i) => Some((i, place(s, i + 1))),
        None => match first_upcoming(s, now, 0) {
            Some(i) => Some((i, first_upcoming(s, now, i + 1))),
            None => if s.len() > 0 {
                Some((0, place(s, 1)))
            } else {
                None
            },
        },
    }
}

/// Whether the calendar has a date for the start of every event.
pub open spec fn events_wf(s: Seq<EpgEvent>) -> bool {
    forall|i: int| 0 <= i < s.len() ==> (#[trigger] s[i]).start_time_utc.wf()
}

fn find_upcoming(events: &Vec<EpgEvent>, now: &UtcTime, from: usize) -> (r: Option<usize>)
    requires
        from <= events@.len(),
    ensures
        r is Some == first_upcoming(events@, *now, from as int) is Some,
        r matches Some(i) ==> first_upcoming(events@, *now, from as int) == Some(i as int) && i
            < events@.len(),
{
    let mut i: usize = from;
    while i < events.len()
        invariant
            i <= events@.len(),
            first_upcoming(events@, *now, i as int) == first_upcoming(events@, *now, from as int),
        decreases events@.len() - i,
    {
        if now.is_before(&events[i].start_time_utc) {
            return Some(i);
        }
        i = i + 1;
    }
    None
}

fn find_on(events: &Vec<EpgEvent>, now: &UtcTime) -> (r: Option<usize>)
    requires
        events_wf(events@),
    ensures
        r is Some == first_on(events@, *now, 0) is Some,
        r matches Some(i) ==> first_on(events@, *now, 0) == Some(i as int) && i < events@.len(),
{
    let mut i: usize = 0;
    while i < events.len()
        invariant
            i <= events@.len(),
            events_wf(events@),
            first_on(events@, *now, i as int) == first_on(events@, *now, 0),
        decreases events@.len() - i,
    {
        let e = &events[i];
        let end = UtcTime {
            secs: e.start_time_utc.secs + e.duration_seconds as i64,
            nanos: if e.start_time_utc.nanos >= 1_000_000_000 && e.duration_seconds > 0 {
                e.start_time_utc.nanos - 1_000_000_000
            } else {
                e.start_time_utc.nanos
            },
        };
        if !now.is_before(&e.start_time_utc) && now.is_before(&end) {
            return Some(i);
        }
        i = i + 1;
    }
    None
}

/// The places of the event that counts as present and of the one that follows.
pub fn present_following_places(events: &Vec<EpgEvent>, now: &UtcTime) -> (r: Option<
    (usize, Option<usize>),
>)
    requires
        events_wf(events@),
    ensures
        r is Some == present_following(events@, *now) is Some,
        r matches Some((i, f)) ==> {
            &&& i < events@.len()
            &&& f matches Some(k) ==> k < events@.len()
            &&& present_following(events@, *now) == Some(
                (
                    i as int,
                    match f {
                        Some(k) => Some(k as int),
                        None => None,
                    },
                ),
            )
        },
{
    let n: usize = events.len();
    if let Some(i) = find_on(events, now) {
        let next: Option<usize> = if i + 1 < n {
            Some(i + 1)
        } else {
            None
        };
        return Some((i, next));
    }
    if let Some(i) = find_upcoming(events, now, 0) {
        return Some((i, find_upcoming(events, now, i + 1)));
    }
    if events.len() > 0 {
        let next: Option<usize> = if events.len() > 1 {
            Some(1)
        } else {
            None
        };
        return Some((0, next));
    }
    None
}

/// The event that counts as present and the one that follows.
pub fn present_following_events<'a>(events: &'a Vec<EpgEvent>, now: &UtcTime) -> (r: Option<
    (&'a EpgEvent, Option<&'a EpgEvent>),
>)
    requires
        events_wf(events@),
    ensures
        match present_following(events@, *now) {
            Some((i, f)) => r matches Some((p, n)) && *p == events@[i] && (match f {
                Some(k) => n matches Some(e) && *e == events@[k],
                None => n is None,
            }),
            None => r is None,
        },
{
    match present_following_places(events, now) {
        Some((i, Some(k))) => Some((&events[i], Some(&events[k]))),
        Some((i, None)) => Some((&events[i], None)),
        None => None,
    }
}

/// The text of an event: its description, else its subtitle, else nothing.
pub open spec fn event_text(e: EpgEvent) -> Seq<char> {
    match (text_of(e.description), text_of(e.subtitle)) {
        (Some(d), sub) => if d.len() > 0 {
            d
        } else {
            match sub {
                Some(t) => t,
                None => Seq::empty(),
            }
        },
        (None, Some(t)) => t,
        (None, None) => Seq::empty(),
    }
}

/// The text of an event: its description, else its subtitle, else nothing.
pub fn event_description(event: &EpgEvent) -> (r: String)
    ensures
        r@ == event_text(*event),
{
    if let Some(d) = &event.description {
        if !d.as_str().is_empty() {
            return d.clone();
        }
    }
    if let Some(t) = &event.subtitle {
        if !t.as_str().is_empty() {
            return t.clone();
        }
        assert(t@ =~= Seq::<char>::empty());
    }
    String::new()
}

// ---- Sections ----

/// The section on an event of a service, where its descriptors fit.
pub open spec fn event_sections(
    key: (u16, u16, u16),
    version: u8,
    number: u8,
    e: EpgEvent,
    language: Seq<char>,
) -> Seq<Seq<u8>> {
    let d = event_descriptors(
        lang_code(encode_utf8(language)),
        encode_utf8(e.title@),
        encode_utf8(event_text(e)),
    );
    if d.len() <= 0x0FFF {
        seq![
            event_section(
                eit_head(key.2, version, key.1, key.0, number),
                e.event_id,
                e.start_time_utc.secs as int,
                e.duration_seconds,
                d,
            ),
        ]
    } else {
        Seq::empty()
    }
}

/// The sections on a service: on the present event, and on the following one or
/// that there is none. Both are in the language of the present event.
pub open spec fn service_sections(
    key: (u16, u16, u16),
    events: Seq<EpgEvent>,
    version: u8,
    now: UtcTime,
) -> Seq<Seq<u8>> {
    match present_following(events, now) {
        None => Seq::empty(),
        Some((i, f)) => {
            let language = events[i].language@;
            event_sections(key, version, 0, events[i], language) + match f {
                Some(k) => event_sections(key, version, 1, events[k], language),
                None => seq![
                    with_crc(with_length(eit_head(key.2, version, key.1, key.0, 1))),
                ],
            }
        },
    }
}

/// The sections on all services.
pub open spec fn guide_sections(g: Seq<ServiceEvents>, version: u8, now: UtcTime) -> Seq<Seq<u8>>
    decreases g.len(),
{
    if g.len() == 0 {
        Seq::empty()
    } else {
        guide_sections(g.drop_last(), version, now) + service_sections(
            g.last().key,
            g.last().events@,
            version,
            now,
        )
    }
}

/// The sections on the time, the second one where the time zone is known.
pub open spec fn time_sections(
    now: UtcTime,
    clock: UtcTime,
    country: Seq<char>,
    timezone: Seq<char>,
) -> Seq<Seq<u8>> {
    seq![tdt_bytes(now.secs as int)] + match zone_offset_of(timezone, clock.secs) {
        Some(offset) => seq![tot_bytes(now.secs as int, country, offset as int)],
        None => Seq::empty(),
    }
}

/// The packets of sections one after the other, numbered from `cc` on, and the
/// number that comes next.
pub open spec fn packed(sections: Seq<Seq<u8>>, pid: u16, cc: u8) -> (Seq<Seq<u8>>, u8)
    decreases sections.len(),
{
    if sections.len() == 0 {
        (Seq::empty(), cc)
    } else {
        let (before, next) = packed(sections.drop_last(), pid, cc);
        let s = sections.last();
        (
            before + section_packets(s, pid, next),
            ((next + packet_count(s.len() as int)) % 16) as u8,
        )
    }
}

/// The contents of sections.
pub open spec fn section_bytes(s: Seq<Section>) -> Seq<Seq<u8>> {
    s.map_values(|x: Section| x.bytes@)
}

fn push_event_section(
    out: &mut Vec<Section>,
    key: (u16, u16, u16),
    version: u8,
    number: u8,
    e: &EpgEvent,
    language: &str,
)
    requires
        e.start_time_utc.wf(),
    ensures
        section_bytes(final(out)@) == section_bytes(old(out)@) + event_sections(
            key,
            version,
            number,
            *e,
            language@,
        ),
{
    let text = event_description(e);
    let ghost before = section_bytes(out@);
    match try_present_following_section(
        key.2,
        version,
        key.1,
        key.0,
        number,
        e.event_id,
        &e.start_time_utc,
        e.duration_seconds,
        e.title.as_str(),
        text.as_str(),
        language,
    ) {
        Some(s) => {
            out.push(s);
            assert(section_bytes(out@) =~= before + event_sections(
                key,
                version,
                number,
                *e,
                language@,
            ));
        },
        None => {
            assert(section_bytes(out@) =~= before + event_sections(
                key,
                version,
                number,
                *e,
                language@,
            ));
        },
    }
}

fn push_service_sections(
    out: &mut Vec<Section>,
    key: (u16, u16, u16),
    events: &Vec<EpgEvent>,
    version: u8,
    now: &UtcTime,
) -> (r: bool)
    requires
        events_wf(events@),
    ensures
        section_bytes(final(out)@) == section_bytes(old(out)@) + service_sections(
            key,
            events@,
            version,
            *now,
        ),
        r == (present_following(events@, *now) is Some),
{
    let ghost before = section_bytes(out@);
    match present_following_places(events, now) {
        Some((i, f)) => {
            let present = &events[i];
            push_event_section(out, key, version, 0, present, present.language.as_str());
            let ghost mid = section_bytes(out@);
            match f {
                Some(k) => {
                    push_event_section(out, key, version, 1, &events[k], present.language.as_str());
                },
                None => {
                    out.push(empty_present_following_section(key.2, version, key.1, key.0, 1));
                    assert(section_bytes(out@) =~= mid + seq![
                        with_crc(with_length(eit_head(key.2, version, key.1, key.0, 1))),
                    ]);
                },
            }
            assert(section_bytes(out@) =~= before + service_sections(key, events@, version, *now));
            true
        },
        None => {
            assert(before + Seq::<Seq<u8>>::empty() =~= before);
            false
        },
    }
}

/// Whether every event of every service has a date.
pub open spec fn guide_wf(g: Seq<ServiceEvents>) -> bool {
    forall|i: int| 0 <= i < g.len() ==> events_wf((#[trigger] g[i]).events@)
}

/// Whether there is a service with an event.
pub open spec fn guide_told(g: Seq<ServiceEvents>, now: UtcTime) -> bool {
    exists|i: int|
        0 <= i < g.len() && present_following((#[trigger] g[i]).events@, now) is Some
}

/// The sections on all services, and whether there is one with an event.
pub fn build_guide_sections(g: &Vec<ServiceEvents>, version: u8, now: &UtcTime) -> (r: (
    Vec<Section>,
    bool,
))
    requires
        guide_wf(g@),
    ensures
        section_bytes(r.0@) == guide_sections(g@, version, *now),
        r.1 == guide_told(g@, *now),
{
    let mut out: Vec<Section> = Vec::new();
    let mut told = false;
    let mut i: usize = 0;
    assert(g@.take(0) =~= Seq::<ServiceEvents>::empty());
    assert(section_bytes(out@) =~= Seq::<Seq<u8>>::empty());
    while i < g.len()
        invariant
            i <= g@.len(),
            guide_wf(g@),
            section_bytes(out@) == guide_sections(g@.take(i as int), version, *now),
            told == exists|k: int|
                0 <= k < i && present_following((#[trigger] g@[k]).events@, *now) is Some,
        decreases g@.len() - i,
    {
        assert(g@.take(i + 1).drop_last() =~= g@.take(i as int));
        assert(g@.take(i + 1).last() == g@[i as int]);
        let here = push_service_sections(&mut out, g[i].key, &g[i].events, version, now);
        proof {
            if told {
                let k = choose|k: int|
                    0 <= k < i && present_following((#[trigger] g@[k]).events@, *now) is Some;
                assert(present_following(g@[k].events@, *now) is Some);
            }
            if here {
                assert(present_following(g@[i as int].events@, *now) is Some);
            }
        }
        told = told || here;
        i = i + 1;
    }
    assert(g@.take(g@.len() as int) =~= g@);
    (out, told)
}

// ---- Packets ----

/// The state of the guide's packets.
#[verifier::ext_equal]
pub struct GuideState {
    pub state: EpgState,
    pub last_tdt_ms: u64,
    pub eit_cc: u8,
    pub tdt_cc: u8,
    pub packets: Seq<Seq<u8>>,
}

/// The guide that is sent after another one came in: a change moves the version
/// on by one.
pub open spec fn state_taken(current: EpgState, new: EpgState) -> EpgState {
    EpgState {
        current_version: if new.last_hash != current.last_hash {
            ((current.current_version + 1) % 32) as u8
        } else {
            current.current_version
        },
        generated_at_utc: new.generated_at_utc,
        last_hash: new.last_hash,
    }
}

/// The packets of a round: those of the time, if it is due again, and those of
/// all services.
pub open spec fn round_added(
    s: GuideState,
    now: UtcTime,
    clock: UtcTime,
    clock_ms: u64,
    new: EpgState,
    country: Seq<char>,
    timezone: Seq<char>,
    g: Seq<ServiceEvents>,
) -> GuideState {
    let state = state_taken(s.state, new);
    let due = clock_ms - s.last_tdt_ms >= 10_000;
    let (time_packets, tdt_cc) = if due {
        packed(time_sections(now, clock, country, timezone), tdt::PID, s.tdt_cc)
    } else {
        (Seq::empty(), s.tdt_cc)
    };
    let (event_packets, eit_cc) = packed(
        guide_sections(g, state.current_version, now),
        eit::PID,
        s.eit_cc,
    );
    GuideState {
        state,
        last_tdt_ms: if due {
            clock_ms
        } else {
            s.last_tdt_ms
        },
        eit_cc,
        tdt_cc,
        packets: s.packets + time_packets + event_packets,
    }
}

/// The packets of the guide that wait to be sent.
pub struct EpgMuxer {
    state: EpgState,
    last_tdt_ms: u64,
    eit_cc: u8,
    tdt_tot_cc: u8,
    packets: VecDeque<[u8; TS_PACKET_SIZE]>,
}

impl View for EpgMuxer {
    type V = GuideState;

    closed spec fn view(&self) -> GuideState {
        GuideState {
            state: self.state,
            last_tdt_ms: self.last_tdt_ms,
            eit_cc: self.eit_cc,
            tdt_cc: self.tdt_tot_cc,
            packets: self.packets@.map_values(|p: [u8; TS_PACKET_SIZE]| p@),
        }
    }
}

impl EpgMuxer {
    /// A guide of which nothing was sent yet. `clock_ms` is the reading of a
    /// clock that runs on.
    pub fn new(state: EpgState, clock_ms: u64) -> (r: Self)
        ensures
            r@ == (GuideState {
                state,
                last_tdt_ms: clock_ms,
                eit_cc: 0,
                tdt_cc: 0,
                packets: Seq::empty(),
            }),
    {
        let r = EpgMuxer {
            state,
            last_tdt_ms: clock_ms,
            eit_cc: 0,
            tdt_tot_cc: 0,
            packets: VecDeque::new(),
        };
        assert(r@.packets =~= Seq::<Seq<u8>>::empty());
        r
    }

    /// Which guide is sent.
    pub fn state(&self) -> (r: EpgState)
        ensures
            r == self@.state,
    {
        self.state
    }

    /// How many packets wait.
    pub fn waiting(&self) -> (r: usize)
        ensures
            r == self@.packets.len(),
    {
        self.packets.len()
    }

    /// Adds the packets of a round, and says whether there was an event in it.
    /// `now` is the time that is told, `clock` the reading by which the offset
    /// of the time zone is looked up.
    pub fn add_round(
        &mut self,
        now: &UtcTime,
        clock: &UtcTime,
        clock_ms: u64,
        new_state: &EpgState,
        network: &EpgNetwork,
        services: &Vec<ServiceEvents>,
    ) -> (r: bool)
        requires
            now.wf(),
            clock.wf(),
            clock_ms >= old(self)@.last_tdt_ms,
            guide_wf(services@),
            encode_utf8(network.country_code@).len() >= 3,
            is_char_boundary(encode_utf8(network.country_code@), 3),
        ensures
            final(self)@ == round_added(
                old(self)@,
                *now,
                *clock,
                clock_ms,
                *new_state,
                network.country_code@,
                network.timezone@,
                services@,
            ),
            r == guide_told(services@, *now),
    {
        let version: u8 = if new_state.last_hash != self.state.last_hash {
            (self.state.current_version % 32 + 1) % 32
        } else {
            self.state.current_version
        };
        self.state = EpgState::new(version, new_state.generated_at_utc, new_state.last_hash);
        if clock_ms - self.last_tdt_ms >= TDT_PERIOD_MS {
            let sections = build_time_sections(now, clock, network);
            queue_sections(&mut self.packets, &sections, tdt::PID, &mut self.tdt_tot_cc);
            self.last_tdt_ms = clock_ms;
        } else {
            assert(self@.packets + Seq::<Seq<u8>>::empty() =~= self@.packets);
        }
        let (sections, told) = build_guide_sections(services, version, now);
        queue_sections(&mut self.packets, &sections, eit::PID, &mut self.eit_cc);
        told
    }

    /// The time between two datagrams, so that what waits takes a second, and a
    /// millisecond at least; none where nothing waits.
    pub fn tick_ns(&self) -> (r: Option<u64>)
        ensures
            r is Some == (self@.packets.len() > 0),
            r matches Some(ns) ==> ns == if 7_000_000_000int / self@.packets.len() as int
                > 1_000_000 {
                7_000_000_000int / self@.packets.len() as int
            } else {
                1_000_000
            },
    {
        let n: u64 = self.packets.len() as u64;
        if n == 0 {
            return None;
        }
        let ns: u64 = 7_000_000_000 / n;
        if ns > MIN_TICK_NS {
            Some(ns)
        } else {
            Some(MIN_TICK_NS)
        }
    }

    /// The next datagram of seven packets; none where fewer wait.
    pub fn next_batch(&mut self) -> (r: Option<Vec<u8>>)
        ensures
            old(self)@.packets.len() < 7 ==> r is None && final(self)@ == old(self)@,
            old(self)@.packets.len() >= 7 ==> r is Some && r->0@ == crate::psi::eit::flat(
                old(self)@.packets.take(7),
            ) && r->0@.len() == 7 * 188 && final(self)@ == (GuideState {
                packets: old(self)@.packets.skip(7),
                ..old(self)@
            }),
    {
        if self.packets.len() < EIT_TS_PACKET_COUNT {
            return None;
        }
        let mut out: Vec<u8> = Vec::new();
        let mut i: usize = 0;
        let ghost all = self@.packets;
        assert(all.take(0) =~= Seq::<Seq<u8>>::empty());
        assert(all.skip(0) =~= all);
        while i < EIT_TS_PACKET_COUNT
            invariant
                i <= 7,
                all.len() >= 7,
                all == old(self)@.packets,
                self@ == (GuideState { packets: all.skip(i as int), ..old(self)@ }),
                out@ == crate::psi::eit::flat(all.take(i as int)),
                out@.len() == 188 * i,
            decreases 7 - i,
        {
            let ghost here = self.packets@;
            assert(here.len() == self@.packets.len());
            assert(here.len() == all.len() - i);
            assert(self@.packets[0] == here[0]@);
            assert forall|j: int| 0 <= j < here.len() implies #[trigger] here[j]@ == all[i + j] by {
                assert(self@.packets[j] == here[j]@);
            }
            if let Some(pkt) = self.packets.pop_front() {
                out.extend_from_slice(pkt.as_slice());
                assert(pkt@ == all[i as int]);
                assert(all.take(i + 1).drop_last() =~= all.take(i as int));
                assert(all.take(i + 1).last() == pkt@);
                assert(self@.packets =~= all.skip(i + 1));
            }
            i = i + 1;
        }
        Some(out)
    }
}

fn build_time_sections(now: &UtcTime, clock: &UtcTime, network: &EpgNetwork) -> (r: Vec<Section>)
    requires
        now.wf(),
        clock.wf(),
        encode_utf8(network.country_code@).len() >= 3,
        is_char_boundary(encode_utf8(network.country_code@), 3),
    ensures
        section_bytes(r@) == time_sections(
            *now,
            *clock,
            network.country_code@,
            network.timezone@,
        ),
{
    let mut sections: Vec<Section> = Vec::new();
    sections.push(tdt::section(now));
    if let Some(s) = tot::section(
        now,
        network.country_code.as_str(),
        network.timezone.as_str(),
        clock,
    ) {
        sections.push(s);
    }
    assert(section_bytes(sections@) =~= time_sections(
        *now,
        *clock,
        network.country_code@,
        network.timezone@,
    ));
    sections
}

/// Appends the packets of sections.
fn queue_sections(
    packets: &mut VecDeque<[u8; TS_PACKET_SIZE]>,
    sections: &Vec<Section>,
    pid: u16,
    cc: &mut u8,
)
    ensures
        final(packets)@.map_values(|p: [u8; TS_PACKET_SIZE]| p@) == old(packets)@.map_values(
            |p: [u8; TS_PACKET_SIZE]| p@,
        ) + packed(section_bytes(sections@), pid, *old(cc)).0,
        *final(cc) == packed(section_bytes(sections@), pid, *old(cc)).1,
{
    let ghost base = packets@.map_values(|p: [u8; TS_PACKET_SIZE]| p@);
    let ghost all = section_bytes(sections@);
    let mut i: usize = 0;
    assert(all.take(0) =~= Seq::<Seq<u8>>::empty());
    assert(base + Seq::<Seq<u8>>::empty() =~= base);
    while i < sections.len()
        invariant
            i <= sections@.len(),
            all == section_bytes(sections@),
            packets@.map_values(|p: [u8; TS_PACKET_SIZE]| p@) == base + packed(
                all.take(i as int),
                pid,
                *old(cc),
            ).0,
            *cc == packed(all.take(i as int), pid, *old(cc)).1,
        decreases sections@.len() - i,
    {
        let ghost before = packets@.map_values(|p: [u8; TS_PACKET_SIZE]| p@);
        let ghost cc0 = *cc;
        let s = &sections[i];
        let parts = pack_multi(s.bytes.as_slice(), pid, cc);
        push_packets(packets, &parts);
        proof {
            let views = parts@.map_values(|p: [u8; TS_PACKET_SIZE]| p@);
            assert(views =~= section_packets(s.bytes@, pid, cc0));
            assert(all.take(i + 1).drop_last() =~= all.take(i as int));
            assert(all.take(i + 1).last() == s.bytes@);
            assert(base + (packed(all.take(i as int), pid, *old(cc)).0 + views) =~= before + views);
        }
        i = i + 1;
    }
    assert(all.take(all.len() as int) =~= all);
}

fn push_packets(
    packets: &mut VecDeque<[u8; TS_PACKET_SIZE]>,
    parts: &Vec<[u8; TS_PACKET_SIZE]>,
)
    ensures
        final(packets)@ == old(packets)@ + parts@,
{
    let mut i: usize = 0;
    assert(packets@ + parts@.take(0) =~= packets@);
    while i < parts.len()
        invariant
            i <= parts@.len(),
            packets@ == old(packets)@ + parts@.take(i as int),
        decreases parts@.len() - i,
    {
        packets.push_back(parts[i]);
        assert(packets@ =~= old(packets)@ + parts@.take(i + 1));
        i = i + 1;
    }
    assert(parts@.take(parts@.len() as int) =~= parts@);
}

/// Versions run in a circle of 32, and only a change of the events moves them
/// on.
pub proof fn law_guide_version(current: EpgState, new: EpgState)
    ensures
        new.last_hash == current.last_hash ==> state_taken(current, new).current_version
            == current.current_version,
        new.last_hash != current.last_hash ==> state_taken(current, new).current_version == (
        current.current_version + 1) % 32,
        state_taken(state_taken(current, new), new).current_version == state_taken(
            current,
            new,
        ).current_version,
{
}

/// As long as a service has events, one of them counts as present.
pub proof fn law_present_exists(s: Seq<EpgEvent>, now: UtcTime)
    ensures
        present_following(s, now) is Some == (s.len() > 0),
{
    lemma_found_on(s, now, 0);
    lemma_found_upcoming(s, now, 0);
}

proof fn lemma_found_on(s: Seq<EpgEvent>, now: UtcTime, i: int)
    requires
        0 <= i,
    ensures
        first_on(s, now, i) matches Some(k) ==> i <= k < s.len() && is_on(s[k], now),
    decreases s.len() - i,
{
    if i < s.len() && !is_on(s[i], now) {
        lemma_found_on(s, now, i + 1);
    }
}

proof fn lemma_found_upcoming(s: Seq<EpgEvent>, now: UtcTime, i: int)
    requires
        0 <= i,
    ensures
        first_upcoming(s, now, i) matches Some(k) ==> i <= k < s.len() && now.earlier(
            &s[k].start_time_utc,
        ),
    decreases s.len() - i,
{
    if i < s.len() && !now.earlier(&s[i].start_time_utc) {
        lemma_found_upcoming(s, now, i + 1);
    }
}

// ---- Watching over the guide ----

/// What has gone wrong with a guide.
#[derive(Debug, Clone, Copy, PartialEq, Eq, Structural)]
pub enum EpgStall {
    Download,
    Send,
    Process,
}

impl EpgStall {
    /// What is said of it.
    pub fn message(&self) -> (r: &'static str)
        ensures
            r@ == match *self {
                EpgStall::Download => "EPG download is too rarely"@,
                EpgStall::Send => "EPG sent is too rarely"@,
                EpgStall::Process => "EPG processed is too rarely"@,
            },
    {
        match self {
            EpgStall::Download => "EPG download is too rarely",
            EpgStall::Send => "EPG sent is too rarely",
            EpgStall::Process => "EPG processed is too rarely",
        }
    }
}

/// Whether a guide has to be given up, by the nanoseconds since it was last
/// loaded, sent and processed: no load for 20 s, nothing sent for 20 s although
/// something was processed, or nothing processed for an hour.
pub fn epg_stall(download_ns: u128, send_ns: u128, process_ns: u128) -> (r: Option<EpgStall>)
    ensures
        r == if download_ns > 20_000_000_000 {
            Some(EpgStall::Download)
        } else if send_ns > 20_000_000_000 && process_ns < 20_000_000_000 {
            Some(EpgStall::Send)
        } else if process_ns > 3_600_000_000_000 {
            Some(EpgStall::Process)
        } else {
            None
        },
{
    if download_ns > 20_000_000_000 {
        Some(EpgStall::Download)
    } else if send_ns > 20_000_000_000 && process_ns < 20_000_000_000 {
        Some(EpgStall::Send)
    } else if process_ns > 3_600_000_000_000 {
        Some(EpgStall::Process)
    } else {
        None
    }
}

} // verus!
