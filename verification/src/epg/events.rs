//! The events of a program guide, by service.

use crate::misc::{address_of, parse_address};
use crate::psi::crc::push_be32;
use crate::psi::time::UtcTime;
use crate::text::{decimal, push_decimal, same_text};
use std::collections::hash_map::DefaultHasher;
use std::collections::VecDeque;
use std::hash::Hasher;
use url::Url;
use vstd::prelude::*;
use vstd::std_specs::hash::DefaultHasherAdditionalSpecFns;
use vstd::string::{StrSliceExecFns, StringExecFns};
use vstd::utf8::encode_utf8;

verus! {

/// Where the events are broadcast: the country and its time zone.
#[derive(Debug, Clone)]
pub struct EpgNetwork {
    pub country_code: String,
    pub timezone: String,
}

/// An event of a service.
#[derive(Debug, Clone)]
pub struct EpgEvent {
    pub original_network_id: u16,
    pub transport_stream_id: u16,
    pub service_id: u16,
    pub event_id: u16,
    pub start_time_utc: UtcTime,
    pub duration_seconds: u32,
    pub title: String,
    pub subtitle: Option<String>,
    pub description: Option<String>,
    pub language: String,
}

/// A guide as it is received.
#[derive(Debug)]
pub struct EpgEvents {
    pub version: u8,
    pub generated_at_utc: UtcTime,
    pub network: EpgNetwork,
    pub events: Vec<EpgEvent>,
}

/// Which guide is sent.
#[derive(Debug, Clone, Copy, PartialEq, Eq, Structural)]
pub struct EpgState {
    pub current_version: u8,
    pub generated_at_utc: UtcTime,
    pub last_hash: u64,
}

impl EpgState {
    pub fn new(current_version: u8, generated_at_utc: UtcTime, last_hash: u64) -> (r: Self)
        ensures
            r == (EpgState { current_version, generated_at_utc, last_hash }),
    {
        EpgState { current_version, generated_at_utc, last_hash }
    }
}

// ---- Where the guide goes ----

/// Why a destination is refused.
#[derive(Debug, Clone, Copy, PartialEq, Eq, Structural)]
pub enum UdpUrlError {
    Url,
    Scheme,
    Host,
    Port,
    Address,
}

impl UdpUrlError {
    /// What is said of a refused destination.
    pub fn message(&self) -> (r: &'static str)
        ensures
            r@ == match *self {
                UdpUrlError::Url => "destination must look like udp://239.200.99.1:1234"@,
                UdpUrlError::Scheme => "destination scheme must be udp"@,
                UdpUrlError::Host => "missing UDP host"@,
                UdpUrlError::Port => "missing UDP port"@,
                UdpUrlError::Address => "invalid UDP socket address"@,
            },
    {
        match self {
            UdpUrlError::Url => "destination must look like udp://239.200.99.1:1234",
            UdpUrlError::Scheme => "destination scheme must be udp",
            UdpUrlError::Host => "missing UDP host",
            UdpUrlError::Port => "missing UDP port",
            UdpUrlError::Address => "invalid UDP socket address",
        }
    }
}

/// The parts of a URL that an address is made of.
pub struct UrlParts {
    pub scheme: String,
    pub host: Option<String>,
    pub port: Option<u16>,
}

/// Scheme, host and port of a URL.
pub uninterp spec fn url_parts_of(value: Seq<char>) -> Option<
    (Seq<char>, Option<Seq<char>>, Option<u16>),
>;

/// What the parts of a URL are.
pub open spec fn parts_view(p: Option<UrlParts>) -> Option<
    (Seq<char>, Option<Seq<char>>, Option<u16>),
> {
    match p {
        Some(parts) => Some(
            (parts.scheme@, crate::psi::pmt::text_of(parts.host), parts.port),
        ),
        None => None,
    }
}

/// `Url::parse`, `Url::scheme`, `Url::host_str` and `Url::port`: the parts of a
/// text that is a URL.
#[verifier::external_body]
pub(crate) fn url_parts(value: &str) -> (r: Option<UrlParts>)
    ensures
        parts_view(r) == url_parts_of(value@),
{
    let url = Url::parse(value).ok()?;
    Some(UrlParts {
        scheme: url.scheme().to_string(),
        host: url.host_str().map(|h| h.to_string()),
        port: url.port(),
    })
}

/// A destination: an address of version 4 and a port, or one of version 6 with its
/// port as a text.
#[derive(Debug)]
pub enum UdpTarget {
    V4(u32, u16),
    V6(String),
}

/// What a destination is.
pub enum TargetModel {
    V4(u32, u16),
    V6(Seq<char>),
}

impl View for UdpTarget {
    type V = TargetModel;

    open spec fn view(&self) -> TargetModel {
        match *self {
            UdpTarget::V4(addr, port) => TargetModel::V4(addr, port),
            UdpTarget::V6(text) => TargetModel::V6(text@),
        }
    }
}

/// The destination that the parts of a URL stand for, or why there is none. A host
/// in brackets is an address of version 6.
pub open spec fn udp_target(
    parts: Option<(Seq<char>, Option<Seq<char>>, Option<u16>)>,
) -> Result<TargetModel, UdpUrlError> {
    match parts {
        None => Err(UdpUrlError::Url),
        Some((scheme, host, port)) => if scheme != "udp"@ {
            Err(UdpUrlError::Scheme)
        } else {
            match (host, port) {
                (None, _) => Err(UdpUrlError::Host),
                (Some(_), None) => Err(UdpUrlError::Port),
                (Some(h), Some(p)) => if h.len() > 0 && h[0] == '[' {
                    Ok(TargetModel::V6(h + ":"@ + decimal(p as int)))
                } else {
                    match address_of(h) {
                        Some(addr) => Ok(TargetModel::V4(addr, p)),
                        None => Err(UdpUrlError::Address),
                    }
                },
            }
        },
    }
}

/// The destination that the parts of a URL stand for.
pub fn udp_target_of(parts: Option<UrlParts>) -> (r: Result<UdpTarget, UdpUrlError>)
    ensures
        match udp_target(parts_view(parts)) {
            Ok(t) => r is Ok && r->Ok_0@ == t,
            Err(e) => r is Err && r->Err_0 == e,
        },
{
    let parts = match parts {
        Some(parts) => parts,
        None => return Err(UdpUrlError::Url),
    };
    if !same_text(parts.scheme.as_str(), "udp") {
        return Err(UdpUrlError::Scheme);
    }
    let host = match parts.host {
        Some(host) => host,
        None => return Err(UdpUrlError::Host),
    };
    let port: u16 = match parts.port {
        Some(port) => port,
        None => return Err(UdpUrlError::Port),
    };
    if host.as_str().unicode_len() > 0 && host.as_str().get_char(0) == '[' {
        let mut address = host;
        address.append(":");
        push_decimal(&mut address, port as u64);
        return Ok(UdpTarget::V6(address));
    }
    match parse_address(host.as_str()) {
        Some(addr) => Ok(UdpTarget::V4(addr, port)),
        None => Err(UdpUrlError::Address),
    }
}

/// The destination that a text such as `udp://239.200.99.1:1234` names.
pub fn parse_udp_url(value: &str) -> (r: Result<UdpTarget, UdpUrlError>)
    ensures
        match udp_target(url_parts_of(value@)) {
            Ok(t) => r is Ok && r->Ok_0@ == t,
            Err(e) => r is Err && r->Err_0 == e,
        },
{
    udp_target_of(url_parts(value))
}

// ---- Events ----

/// A list with an event put in at `i` or before it, behind every event that does
/// not start later.
pub open spec fn put_in(s: Seq<EpgEvent>, e: EpgEvent, i: int) -> Seq<EpgEvent>
    decreases i,
{
    if i > 0 && i <= s.len() && e.start_time_utc.earlier(&s[i - 1].start_time_utc) {
        put_in(s, e, i - 1)
    } else {
        s.insert(i, e)
    }
}

/// The events by their start; those that start together keep their order.
pub open spec fn by_start(s: Seq<EpgEvent>) -> Seq<EpgEvent>
    decreases s.len(),
{
    if s.len() == 0 {
        s
    } else {
        let before = by_start(s.drop_last());
        put_in(before, s.last(), before.len() as int)
    }
}

/// Whether no event starts earlier than one before it.
pub open spec fn in_order(s: Seq<EpgEvent>) -> bool {
    forall|i: int, j: int|
        0 <= i < j < s.len() ==> !(#[trigger] s[j]).start_time_utc.earlier(
            &(#[trigger] s[i]).start_time_utc,
        )
}

proof fn lemma_put_in(s: Seq<EpgEvent>, e: EpgEvent, i: int)
    requires
        in_order(s),
        0 <= i <= s.len(),
        forall|k: int| i <= k < s.len() ==> e.start_time_utc.earlier(
            &(#[trigger] s[k]).start_time_utc,
        ),
    ensures
        in_order(put_in(s, e, i)),
        put_in(s, e, i).to_multiset() == s.to_multiset().insert(e),
        put_in(s, e, i).len() == s.len() + 1,
    decreases i,
{
    if i > 0 && e.start_time_utc.earlier(&s[i - 1].start_time_utc) {
        lemma_put_in(s, e, i - 1);
    } else {
        let t = s.insert(i, e);
        assert(t.remove(i) =~= s);
        t.to_multiset_ensures();
        assert(t[i] == e);
        assert(t.contains(e));
        assert(t.to_multiset() =~= s.to_multiset().insert(e));
        assert forall|a: int, b: int| 0 <= a < b < t.len() implies !(
        #[trigger] t[b]).start_time_utc.earlier(&(#[trigger] t[a]).start_time_utc) by {
            let sa = if a < i {
                a
            } else {
                a - 1
            };
            let sb = if b < i {
                b
            } else {
                b - 1
            };
            if a == i {
                assert(t[b] == s[b - 1]);
                assert(e.start_time_utc.earlier(&s[b - 1].start_time_utc));
            } else if b == i {
                assert(t[a] == s[a]);
                assert(!e.start_time_utc.earlier(&s[i - 1].start_time_utc));
                if a < i - 1 {
                    assert(!s[i - 1].start_time_utc.earlier(&s[a].start_time_utc));
                }
            } else {
                assert(t[a] == s[sa] && t[b] == s[sb]);
                assert(!s[sb].start_time_utc.earlier(&s[sa].start_time_utc));
            }
        }
    }
}

/// Sorting by start puts the events in order, and keeps each of them as often as
/// it was there.
pub proof fn law_by_start(s: Seq<EpgEvent>)
    ensures
        in_order(by_start(s)),
        by_start(s).to_multiset() == s.to_multiset(),
        by_start(s).len() == s.len(),
    decreases s.len(),
{
    if s.len() > 0 {
        law_by_start(s.drop_last());
        let before = by_start(s.drop_last());
        lemma_put_in(before, s.last(), before.len() as int);
        s.drop_last().to_multiset_ensures();
        assert(s.drop_last().push(s.last()) =~= s);
    }
}

fn put_event(sorted: &mut Vec<EpgEvent>, e: EpgEvent)
    ensures
        final(sorted)@ == put_in(old(sorted)@, e, old(sorted)@.len() as int),
{
    let mut i: usize = sorted.len();
    while i > 0 && e.start_time_utc.is_before(&sorted[i - 1].start_time_utc)
        invariant
            i <= sorted@.len(),
            sorted@ == old(sorted)@,
            put_in(sorted@, e, i as int) == put_in(sorted@, e, sorted@.len() as int),
        decreases i,
    {
        i = i - 1;
    }
    sorted.insert(i, e);
}

/// Sorts events by their start; those that start together keep their order.
pub fn sort_by_start(events: Vec<EpgEvent>) -> (r: Vec<EpgEvent>)
    ensures
        r@ == by_start(events@),
{
    let ghost all = events@;
    let mut rest = to_queue(events);
    let mut sorted: Vec<EpgEvent> = Vec::new();
    assert(all.take(0) =~= Seq::<EpgEvent>::empty());
    let ghost mut n: int = 0;
    assert(all.skip(0) =~= all);
    while rest.len() > 0
        invariant
            0 <= n <= all.len(),
            rest@ == all.skip(n),
            sorted@ == by_start(all.take(n)),
        decreases rest@.len(),
    {
        if let Some(e) = rest.pop_front() {
            proof {
                assert(e == all[n]);
                assert(all.take(n + 1).drop_last() =~= all.take(n));
                assert(all.take(n + 1).last() == e);
                assert(rest@ =~= all.skip(n + 1));
                n = n + 1;
            }
            put_event(&mut sorted, e);
        }
    }
    assert(all.take(n) =~= all);
    sorted
}

/// The bytes of a number of 16 bits.
fn push_be16(out: &mut Vec<u8>, v: u16)
    ensures
        final(out)@ == old(out)@ + seq![(v / 256) as u8, (v % 256) as u8],
{
    out.push((v / 256) as u8);
    out.push((v % 256) as u8);
    assert(out@ =~= old(out)@ + seq![(v / 256) as u8, (v % 256) as u8]);
}

/// The bytes of a number of 64 bits.
pub open spec fn be64_bytes(v: u64) -> Seq<u8> {
    crate::psi::crc::be32_bytes((v / 0x1_0000_0000) as u32) + crate::psi::crc::be32_bytes(
        (v % 0x1_0000_0000) as u32,
    )
}

fn push_be64(out: &mut Vec<u8>, v: u64)
    ensures
        final(out)@ == old(out)@ + be64_bytes(v),
{
    push_be32(out, (v / 0x1_0000_0000) as u32);
    push_be32(out, (v % 0x1_0000_0000) as u32);
    assert(out@ =~= old(out)@ + be64_bytes(v));
}

/// A text behind its length.
pub open spec fn sized_text(t: Seq<char>) -> Seq<u8> {
    be64_bytes(encode_utf8(t).len() as u64) + encode_utf8(t)
}

fn push_text(out: &mut Vec<u8>, t: &str)
    ensures
        final(out)@ == old(out)@ + sized_text(t@),
{
    let bytes = t.as_bytes();
    push_be64(out, bytes.len() as u64);
    out.extend_from_slice(bytes);
    assert(out@ =~= old(out)@ + sized_text(t@));
}

/// A text that may be missing, behind a byte that says so.
pub open spec fn optional_text(t: Option<Seq<char>>) -> Seq<u8> {
    match t {
        Some(text) => seq![1u8] + sized_text(text),
        None => seq![0u8],
    }
}

fn push_optional(out: &mut Vec<u8>, t: &Option<String>)
    ensures
        final(out)@ == old(out)@ + optional_text(crate::psi::pmt::text_of(*t)),
{
    match t {
        Some(text) => {
            out.push(1);
            push_text(out, text.as_str());
            assert(out@ =~= old(out)@ + optional_text(crate::psi::pmt::text_of(*t)));
        },
        None => {
            out.push(0);
            assert(out@ =~= old(out)@ + optional_text(crate::psi::pmt::text_of(*t)));
        },
    }
}

/// A number of 64 bits with a sign, from the lowest one on.
pub open spec fn lifted(v: i64) -> u64 {
    (v + 0x8000_0000_0000_0000) as u64
}

/// An event in bytes.
pub open spec fn event_bytes(e: EpgEvent) -> Seq<u8> {
    seq![
        (e.original_network_id / 256) as u8,
        (e.original_network_id % 256) as u8,
        (e.transport_stream_id / 256) as u8,
        (e.transport_stream_id % 256) as u8,
        (e.service_id / 256) as u8,
        (e.service_id % 256) as u8,
        (e.event_id / 256) as u8,
        (e.event_id % 256) as u8,
    ] + be64_bytes(lifted(e.start_time_utc.secs)) + crate::psi::crc::be32_bytes(
        e.start_time_utc.nanos,
    ) + crate::psi::crc::be32_bytes(e.duration_seconds) + sized_text(e.title@) + optional_text(
        crate::psi::pmt::text_of(e.subtitle),
    ) + optional_text(crate::psi::pmt::text_of(e.description)) + sized_text(e.language@)
}

/// Events in bytes.
pub open spec fn events_bytes(s: Seq<EpgEvent>) -> Seq<u8>
    decreases s.len(),
{
    if s.len() == 0 {
        Seq::empty()
    } else {
        events_bytes(s.drop_last()) + event_bytes(s.last())
    }
}

fn push_event(out: &mut Vec<u8>, e: &EpgEvent)
    ensures
        final(out)@ == old(out)@ + event_bytes(*e),
{
    push_be16(out, e.original_network_id);
    push_be16(out, e.transport_stream_id);
    push_be16(out, e.service_id);
    push_be16(out, e.event_id);
    let start: i64 = e.start_time_utc.secs;
    let lifted_start: u64 = (start as i128 + 0x8000_0000_0000_0000) as u64;
    push_be64(out, lifted_start);
    push_be32(out, e.start_time_utc.nanos);
    push_be32(out, e.duration_seconds);
    push_text(out, e.title.as_str());
    push_optional(out, &e.subtitle);
    push_optional(out, &e.description);
    push_text(out, e.language.as_str());
    assert(out@ =~= old(out)@ + event_bytes(*e));
}

/// The hash of a list of events.
pub open spec fn events_hash(s: Seq<EpgEvent>) -> u64 {
    DefaultHasher::spec_finish(seq![events_bytes(s)])
}

/// A number by which a change of the events is noticed.
pub fn hash_events(events: &Vec<EpgEvent>) -> (r: u64)
    ensures
        r == events_hash(events@),
{
    let mut bytes: Vec<u8> = Vec::new();
    let mut i: usize = 0;
    assert(events@.take(0) =~= Seq::<EpgEvent>::empty());
    while i < events.len()
        invariant
            i <= events@.len(),
            bytes@ == events_bytes(events@.take(i as int)),
        decreases events@.len() - i,
    {
        push_event(&mut bytes, &events[i]);
        assert(events@.take(i + 1).drop_last() =~= events@.take(i as int));
        assert(events@.take(i + 1).last() == events@[i as int]);
        i = i + 1;
    }
    assert(events@.take(events@.len() as int) =~= events@);
    let mut hasher = DefaultHasher::new();
    hasher.write(bytes.as_slice());
    assert(hasher@ =~= seq![events_bytes(events@)]);
    hasher.finish()
}

/// Takes over a guide: the events by their start, and the state that they stand
/// for. A country code that is not of three letters is refused.
pub fn accept_events(epg: EpgEvents) -> (r: Option<(EpgState, EpgNetwork, Vec<EpgEvent>)>)
    ensures
        r is Some == (encode_utf8(epg.network.country_code@).len() == 3),
        r matches Some((state, network, events)) ==> {
            &&& events@ == by_start(epg.events@)
            &&& network == epg.network
            &&& state == (EpgState {
                current_version: epg.version,
                generated_at_utc: epg.generated_at_utc,
                last_hash: events_hash(by_start(epg.events@)),
            })
        },
{
    let events = sort_by_start(epg.events);
    let hash = hash_events(&events);
    if epg.network.country_code.as_str().as_bytes().len() != 3 {
        return None;
    }
    Some((EpgState::new(epg.version, epg.generated_at_utc, hash), epg.network, events))
}

// ---- Services ----

/// Network, transport stream and service.
pub open spec fn service_key(e: EpgEvent) -> (u16, u16, u16) {
    (e.original_network_id, e.transport_stream_id, e.service_id)
}

/// Whether one key comes before another.
pub open spec fn key_less(a: (u16, u16, u16), b: (u16, u16, u16)) -> bool {
    a.0 < b.0 || (a.0 == b.0 && (a.1 < b.1 || (a.1 == b.1 && a.2 < b.2)))
}

/// The events of a service.
pub open spec fn events_of(s: Seq<EpgEvent>, key: (u16, u16, u16)) -> Seq<EpgEvent>
    decreases s.len(),
{
    if s.len() == 0 {
        s
    } else if service_key(s.last()) == key {
        events_of(s.drop_last(), key).push(s.last())
    } else {
        events_of(s.drop_last(), key)
    }
}

/// A service and its events.
pub struct ServiceEvents {
    pub key: (u16, u16, u16),
    pub events: Vec<EpgEvent>,
}

/// Whether a list holds a service.
pub open spec fn holds_service(g: Seq<ServiceEvents>, key: (u16, u16, u16)) -> bool {
    exists|i: int| 0 <= i < g.len() && (#[trigger] g[i]).key == key
}

/// Whether the keys of a list of services increase.
pub open spec fn keys_increase(g: Seq<ServiceEvents>) -> bool {
    forall|i: int, j: int|
        0 <= i < j < g.len() ==> key_less((#[trigger] g[i]).key, (#[trigger] g[j]).key)
}

/// Whether a list holds each service of the events once, with its events as they
/// came.
pub open spec fn is_grouped(g: Seq<ServiceEvents>, s: Seq<EpgEvent>) -> bool {
    &&& keys_increase(g)
    &&& forall|i: int|
        0 <= i < g.len() ==> (#[trigger] g[i]).events@ == events_of(s, g[i].key)
            && g[i].events@.len() > 0
    &&& forall|j: int| 0 <= j < s.len() ==> holds_service(g, service_key(#[trigger] s[j]))
}

fn is_key_less(a: (u16, u16, u16), b: (u16, u16, u16)) -> (r: bool)
    ensures
        r == key_less(a, b),
{
    a.0 < b.0 || (a.0 == b.0 && (a.1 < b.1 || (a.1 == b.1 && a.2 < b.2)))
}

/// Adds an event to the list of its service.
fn add_to_group(groups: &mut Vec<ServiceEvents>, e: EpgEvent, Ghost(s): Ghost<Seq<EpgEvent>>)
    requires
        is_grouped(old(groups)@, s),
    ensures
        is_grouped(final(groups)@, s.push(e)),
{
    let key: (u16, u16, u16) = (e.original_network_id, e.transport_stream_id, e.service_id);
    let mut i: usize = 0;
    while i < groups.len() && is_key_less(groups[i].key, key)
        invariant
            i <= groups@.len(),
            groups@ == old(groups)@,
            forall|k: int| 0 <= k < i ==> key_less((#[trigger] groups@[k]).key, key),
        decreases groups@.len() - i,
    {
        i = i + 1;
    }
    let ghost before = groups@;
    let ghost t = s.push(e);
    assert(t.drop_last() =~= s);
    assert(t.last() == e);
    assert forall|k: (u16, u16, u16)| k != key implies #[trigger] events_of(t, k) == events_of(
        s,
        k,
    ) by {}
    assert(events_of(t, key) == events_of(s, key).push(e));
    if i < groups.len() && groups[i].key.0 == key.0 && groups[i].key.1 == key.1 && groups[i].key.2
        == key.2 {
        let mut group = groups.remove(i);
        group.events.push(e);
        let ghost added = group;
        groups.insert(i, group);
        proof {
            assert(groups@ =~= before.update(i as int, added));
            assert forall|j: int| 0 <= j < t.len() implies holds_service(
                groups@,
                service_key(#[trigger] t[j]),
            ) by {
                if j < s.len() {
                    assert(holds_service(before, service_key(s[j])));
                    let k = choose|k: int|
                        0 <= k < before.len() && (#[trigger] before[k]).key == service_key(s[j]);
                    assert(groups@[k].key == before[k].key);
                } else {
                    assert(groups@[i as int].key == service_key(t[j]));
                }
            }
        }
    } else {
        let mut events: Vec<EpgEvent> = Vec::new();
        events.push(e);
        proof {
            lemma_no_events(before, s, key, i as int);
            assert(events@ =~= events_of(t, key));
        }
        groups.insert(i, ServiceEvents { key, events });
        proof {
            assert forall|a: int, b: int| 0 <= a < b < groups@.len() implies key_less(
                (#[trigger] groups@[a]).key,
                (#[trigger] groups@[b]).key,
            ) by {
                if b == i {
                    assert(groups@[a] == before[a]);
                } else if a == i {
                    assert(groups@[b] == before[b - 1]);
                    if b - 1 > i {
                        assert(key_less(before[i as int].key, before[b - 1].key));
                    }
                } else {
                    let ba = if a < i {
                        a
                    } else {
                        a - 1
                    };
                    let bb = if b < i {
                        b
                    } else {
                        b - 1
                    };
                    assert(groups@[a] == before[ba] && groups@[b] == before[bb]);
                }
            }
            assert forall|k: int| 0 <= k < groups@.len() implies (#[trigger] groups@[k]).events@
                == events_of(t, groups@[k].key) && groups@[k].events@.len() > 0 by {
                if k < i {
                    assert(groups@[k] == before[k]);
                } else if k > i {
                    assert(groups@[k] == before[k - 1]);
                    if k - 1 > i {
                        assert(key_less(before[i as int].key, before[k - 1].key));
                    }
                }
            }
            assert forall|j: int| 0 <= j < t.len() implies holds_service(
                groups@,
                service_key(#[trigger] t[j]),
            ) by {
                if j < s.len() {
                    assert(holds_service(before, service_key(s[j])));
                    let k = choose|k: int|
                        0 <= k < before.len() && (#[trigger] before[k]).key == service_key(s[j]);
                    let at = if k < i {
                        k
                    } else {
                        k + 1
                    };
                    assert(groups@[at] == before[k]);
                } else {
                    assert(groups@[i as int].key == service_key(t[j]));
                }
            }
        }
    }
}

/// A key that is not in the list has no events.
proof fn lemma_no_events(
    g: Seq<ServiceEvents>,
    s: Seq<EpgEvent>,
    key: (u16, u16, u16),
    i: int,
)
    requires
        is_grouped(g, s),
        0 <= i <= g.len(),
        forall|k: int| 0 <= k < i ==> key_less((#[trigger] g[k]).key, key),
        i < g.len() ==> !key_less(g[i].key, key) && g[i].key != key,
    ensures
        events_of(s, key) == Seq::<EpgEvent>::empty(),
        forall|k: int| i <= k < g.len() ==> key_less(key, (#[trigger] g[k]).key),
{
    assert forall|k: int| i <= k < g.len() implies key_less(key, (#[trigger] g[k]).key) by {
        if k > i {
            assert(key_less(g[i].key, g[k].key));
        }
    }
    if events_of(s, key).len() > 0 {
        let j = lemma_event_of_key(s, key);
        assert(holds_service(g, service_key(s[j])));
        let k = choose|k: int| 0 <= k < g.len() && (#[trigger] g[k]).key == service_key(s[j]);
        assert(g[k].key == key);
        assert(k < i || k >= i);
    }
    assert(events_of(s, key) =~= Seq::<EpgEvent>::empty());
}

proof fn lemma_event_of_key(s: Seq<EpgEvent>, key: (u16, u16, u16)) -> (j: int)
    requires
        events_of(s, key).len() > 0,
    ensures
        0 <= j < s.len(),
        service_key(s[j]) == key,
    decreases s.len(),
{
    if service_key(s.last()) == key {
        s.len() - 1
    } else {
        lemma_event_of_key(s.drop_last(), key)
    }
}

/// Whether a list holds each service of the events once, in the order of the
/// services, with its events by their start.
pub open spec fn is_guide(g: Seq<ServiceEvents>, s: Seq<EpgEvent>) -> bool {
    &&& keys_increase(g)
    &&& forall|i: int|
        0 <= i < g.len() ==> (#[trigger] g[i]).events@ == by_start(events_of(s, g[i].key))
            && g[i].events@.len() > 0
    &&& forall|j: int| 0 <= j < s.len() ==> holds_service(g, service_key(#[trigger] s[j]))
}

/// The events of each service by their start, in the order of the services.
pub fn group_events_by_service(events: Vec<EpgEvent>) -> (r: Vec<ServiceEvents>)
    ensures
        is_guide(r@, events@),
{
    let ghost all = events@;
    let mut queue = to_queue(events);
    let mut groups: Vec<ServiceEvents> = Vec::new();
    let ghost mut n: int = 0;
    assert(all.take(0) =~= Seq::<EpgEvent>::empty());
    assert(all.skip(0) =~= all);
    while queue.len() > 0
        invariant
            0 <= n <= all.len(),
            queue@ == all.skip(n),
            is_grouped(groups@, all.take(n)),
        decreases queue@.len(),
    {
        if let Some(e) = queue.pop_front() {
            assert(e == all[n]);
            add_to_group(&mut groups, e, Ghost(all.take(n)));
            proof {
                assert(all.take(n).push(e) =~= all.take(n + 1));
                assert(queue@ =~= all.skip(n + 1));
                n = n + 1;
            }
        }
    }
    assert(all.take(n) =~= all);
    sort_groups(groups, Ghost(all))
}

fn to_queue(events: Vec<EpgEvent>) -> (r: VecDeque<EpgEvent>)
    ensures
        r@ == events@,
{
    let ghost all = events@;
    let mut left = events;
    let mut rest: VecDeque<EpgEvent> = VecDeque::new();
    while left.len() > 0
        invariant
            left@ + rest@ == all,
        decreases left@.len(),
    {
        let ghost l0 = left@;
        let ghost r0 = rest@;
        if let Some(e) = left.pop() {
            rest.push_front(e);
            assert(l0 + r0 =~= left@ + rest@);
        }
    }
    assert(rest@ =~= all);
    rest
}

fn sort_groups(groups: Vec<ServiceEvents>, Ghost(s): Ghost<Seq<EpgEvent>>) -> (r: Vec<
    ServiceEvents,
>)
    requires
        is_grouped(groups@, s),
    ensures
        is_guide(r@, s),
{
    let ghost all = groups@;
    let mut left = groups;
    let mut sorted: VecDeque<ServiceEvents> = VecDeque::new();
    while left.len() > 0
        invariant
            left@.len() + sorted@.len() == all.len(),
            left@ == all.take(left@.len() as int),
            forall|i: int|
                0 <= i < sorted@.len() ==> (#[trigger] sorted@[i]).key == all[left@.len() + i].key
                    && sorted@[i].events@ == by_start(all[left@.len() + i].events@),
        decreases left@.len(),
    {
        let ghost n = left@.len() as int;
        let ghost before = sorted@;
        if let Some(g) = left.pop() {
            assert(g == all[n - 1]);
            let group = ServiceEvents { key: g.key, events: sort_by_start(g.events) };
            sorted.push_front(group);
            assert(left@ =~= all.take(n - 1));
            assert forall|i: int| 0 <= i < sorted@.len() implies (#[trigger] sorted@[i]).key
                == all[left@.len() + i].key && sorted@[i].events@ == by_start(
                all[left@.len() + i].events@,
            ) by {
                if i > 0 {
                    assert(sorted@[i] == before[i - 1]);
                }
            }
        }
    }
    let mut out: Vec<ServiceEvents> = Vec::new();
    while sorted.len() > 0
        invariant
            out@.len() + sorted@.len() == all.len(),
            forall|i: int|
                0 <= i < out@.len() ==> (#[trigger] out@[i]).key == all[i].key && out@[i].events@
                    == by_start(all[i].events@),
            forall|i: int|
                0 <= i < sorted@.len() ==> (#[trigger] sorted@[i]).key == all[out@.len() + i].key
                    && sorted@[i].events@ == by_start(all[out@.len() + i].events@),
        decreases sorted@.len(),
    {
        let ghost before = sorted@;
        if let Some(g) = sorted.pop_front() {
            out.push(g);
            assert forall|i: int| 0 <= i < sorted@.len() implies (#[trigger] sorted@[i]).key
                == all[out@.len() + i].key && sorted@[i].events@ == by_start(
                all[out@.len() + i].events@,
            ) by {
                assert(sorted@[i] == before[i + 1]);
            }
        }
    }
    proof {
        assert forall|a: int, b: int| 0 <= a < b < out@.len() implies key_less(
            (#[trigger] out@[a]).key,
            (#[trigger] out@[b]).key,
        ) by {
            assert(key_less(all[a].key, all[b].key));
        }
        assert forall|i: int| 0 <= i < out@.len() implies (#[trigger] out@[i]).events@ == by_start(
            events_of(s, out@[i].key),
        ) && out@[i].events@.len() > 0 by {
            law_by_start(all[i].events@);
        }
        assert forall|j: int| 0 <= j < s.len() implies holds_service(
            out@,
            service_key(#[trigger] s[j]),
        ) by {
            assert(holds_service(all, service_key(s[j])));
            let i = choose|i: int| 0 <= i < all.len() && (#[trigger] all[i]).key == service_key(
                s[j],
            );
            assert(out@[i].key == all[i].key);
        }
    }
    out
}

/// A destination needs the scheme `udp`, a host and a port; what is missing first, in this
/// order, is the reason why there is none. A host in brackets is kept as it is, in front of
/// the port; any other has to be an address of version 4.
pub proof fn law_destination(scheme: Seq<char>, host: Option<Seq<char>>, port: Option<u16>)
    ensures
        ({
            let r = udp_target(Some((scheme, host, port)));
            &&& scheme != "udp"@ ==> r == Err::<TargetModel, UdpUrlError>(UdpUrlError::Scheme)
            &&& scheme == "udp"@ && host is None ==> r == Err::<TargetModel, UdpUrlError>(
                UdpUrlError::Host,
            )
            &&& scheme == "udp"@ && host is Some && port is None ==> r == Err::<
                TargetModel,
                UdpUrlError,
            >(UdpUrlError::Port)
            &&& r matches Ok(TargetModel::V4(a, p)) ==> Some(p) == port && address_of(host->0)
                == Some(a)
            &&& r matches Ok(TargetModel::V6(t)) ==> (host->0)[0] == '[' && t == host->0 + ":"@
                + decimal(port->0 as int)
            &&& scheme == "udp"@ && port is Some && (host matches Some(h) && (h.len() > 0 && h[0]
                == '[' || address_of(h) is Some)) ==> r is Ok
        }),
{
}

} // verus!
