//! What holds of the events of a guide: that every change of them is noticed, and that each
//! stands with its service.

use crate::epg::events::{
    be64_bytes, by_start, event_bytes, events_bytes, events_of, is_guide, law_by_start, lifted,
    optional_text, service_key, sized_text, EpgEvent, ServiceEvents,
};
use crate::psi::crc::be32_bytes;
use crate::psi::pmt::text_of;
use vstd::prelude::*;
use vstd::utf8::{encode_utf8, encode_utf8_decode_utf8};

verus! {

/// Whether two events are the same in all that is told of them.
pub open spec fn same_event(a: EpgEvent, b: EpgEvent) -> bool {
    &&& a.original_network_id == b.original_network_id
    &&& a.transport_stream_id == b.transport_stream_id
    &&& a.service_id == b.service_id
    &&& a.event_id == b.event_id
    &&& a.start_time_utc.secs == b.start_time_utc.secs
    &&& a.start_time_utc.nanos == b.start_time_utc.nanos
    &&& a.duration_seconds == b.duration_seconds
    &&& a.title@ == b.title@
    &&& text_of(a.subtitle) == text_of(b.subtitle)
    &&& text_of(a.description) == text_of(b.description)
    &&& a.language@ == b.language@
}

/// Whether a text is one that can be held.
pub open spec fn text_fits(t: Seq<char>) -> bool {
    encode_utf8(t).len() <= u64::MAX
}

/// Whether the texts of an event are ones that can be held.
pub open spec fn texts_fit(e: EpgEvent) -> bool {
    &&& text_fits(e.title@) && text_fits(e.language@)
    &&& text_of(e.subtitle) matches Some(t) ==> text_fits(t)
    &&& text_of(e.description) matches Some(t) ==> text_fits(t)
}

proof fn lemma_be32_tells(a: u32, b: u32)
    requires
        be32_bytes(a) == be32_bytes(b),
    ensures
        a == b,
{
    let x = be32_bytes(a);
    let y = be32_bytes(b);
    assert(x[0] == y[0] && x[1] == y[1] && x[2] == y[2] && x[3] == y[3]);
    assert((a >> 24u32) as u8 == (b >> 24u32) as u8 && (a >> 16u32) as u8 == (b >> 16u32) as u8 && (
    a >> 8u32) as u8 == (b >> 8u32) as u8 && a as u8 == b as u8 ==> a == b) by (bit_vector);
}

proof fn lemma_be64_tells(a: u64, b: u64)
    requires
        be64_bytes(a) == be64_bytes(b),
    ensures
        a == b,
{
    let x = be64_bytes(a);
    let y = be64_bytes(b);
    assert(x.take(4) =~= be32_bytes((a / 0x1_0000_0000) as u32));
    assert(y.take(4) =~= be32_bytes((b / 0x1_0000_0000) as u32));
    assert(x.skip(4) =~= be32_bytes((a % 0x1_0000_0000) as u32));
    assert(y.skip(4) =~= be32_bytes((b % 0x1_0000_0000) as u32));
    lemma_be32_tells((a / 0x1_0000_0000) as u32, (b / 0x1_0000_0000) as u32);
    lemma_be32_tells((a % 0x1_0000_0000) as u32, (b % 0x1_0000_0000) as u32);
}

proof fn lemma_sized_tells(t: Seq<char>, u: Seq<char>, x: Seq<u8>, y: Seq<u8>)
    requires
        sized_text(t) + x == sized_text(u) + y,
        text_fits(t) && text_fits(u),
    ensures
        t == u,
        x == y,
{
    let p = encode_utf8(t);
    let q = encode_utf8(u);
    let a = sized_text(t) + x;
    let b = sized_text(u) + y;
    assert(a.take(8) =~= be64_bytes(p.len() as u64));
    assert(b.take(8) =~= be64_bytes(q.len() as u64));
    lemma_be64_tells(p.len() as u64, q.len() as u64);
    let n = 8 + p.len() as int;
    assert(a.subrange(8, n) =~= p);
    assert(b.subrange(8, n) =~= q);
    assert(a.skip(n) =~= x);
    assert(b.skip(n) =~= y);
    encode_utf8_decode_utf8(t);
    encode_utf8_decode_utf8(u);
}

proof fn lemma_optional_tells(
    t: Option<Seq<char>>,
    u: Option<Seq<char>>,
    x: Seq<u8>,
    y: Seq<u8>,
)
    requires
        optional_text(t) + x == optional_text(u) + y,
        t matches Some(a) ==> text_fits(a),
        u matches Some(a) ==> text_fits(a),
    ensures
        t == u,
        x == y,
{
    let a = optional_text(t) + x;
    let b = optional_text(u) + y;
    assert(a[0] == optional_text(t)[0]);
    assert(b[0] == optional_text(u)[0]);
    match (t, u) {
        (Some(p), Some(q)) => {
            assert(a.skip(1) =~= sized_text(p) + x);
            assert(b.skip(1) =~= sized_text(q) + y);
            lemma_sized_tells(p, q, x, y);
        },
        (None, None) => {
            assert(a.skip(1) =~= x);
            assert(b.skip(1) =~= y);
        },
        _ => {},
    }
}

/// The part of an event that has always the same size.
spec fn head_bytes(e: EpgEvent) -> Seq<u8> {
    seq![
        (e.original_network_id / 256) as u8,
        (e.original_network_id % 256) as u8,
        (e.transport_stream_id / 256) as u8,
        (e.transport_stream_id % 256) as u8,
        (e.service_id / 256) as u8,
        (e.service_id % 256) as u8,
        (e.event_id / 256) as u8,
        (e.event_id % 256) as u8,
    ] + be64_bytes(lifted(e.start_time_utc.secs)) + be32_bytes(e.start_time_utc.nanos)
        + be32_bytes(e.duration_seconds)
}

proof fn lemma_head_tells(a: EpgEvent, b: EpgEvent)
    requires
        head_bytes(a) == head_bytes(b),
    ensures
        a.original_network_id == b.original_network_id,
        a.transport_stream_id == b.transport_stream_id,
        a.service_id == b.service_id,
        a.event_id == b.event_id,
        a.start_time_utc.secs == b.start_time_utc.secs,
        a.start_time_utc.nanos == b.start_time_utc.nanos,
        a.duration_seconds == b.duration_seconds,
{
    let x = head_bytes(a);
    let y = head_bytes(b);
    assert(x[0] == y[0] && x[1] == y[1] && x[2] == y[2] && x[3] == y[3]);
    assert(x[4] == y[4] && x[5] == y[5] && x[6] == y[6] && x[7] == y[7]);
    assert(x.subrange(8, 16) =~= be64_bytes(lifted(a.start_time_utc.secs)));
    assert(y.subrange(8, 16) =~= be64_bytes(lifted(b.start_time_utc.secs)));
    assert(x.subrange(16, 20) =~= be32_bytes(a.start_time_utc.nanos));
    assert(y.subrange(16, 20) =~= be32_bytes(b.start_time_utc.nanos));
    assert(x.subrange(20, 24) =~= be32_bytes(a.duration_seconds));
    assert(y.subrange(20, 24) =~= be32_bytes(b.duration_seconds));
    lemma_be64_tells(lifted(a.start_time_utc.secs), lifted(b.start_time_utc.secs));
    lemma_be32_tells(a.start_time_utc.nanos, b.start_time_utc.nanos);
    lemma_be32_tells(a.duration_seconds, b.duration_seconds);
}

/// The texts of an event, before other bytes.
spec fn texts_then(e: EpgEvent, x: Seq<u8>) -> Seq<u8> {
    sized_text(e.title@) + (optional_text(text_of(e.subtitle)) + (optional_text(
        text_of(e.description),
    ) + (sized_text(e.language@) + x)))
}

proof fn lemma_regroup(
    h: Seq<u8>,
    a: Seq<u8>,
    b: Seq<u8>,
    c: Seq<u8>,
    d: Seq<u8>,
    x: Seq<u8>,
)
    ensures
        h + a + b + c + d + x == h + (a + (b + (c + (d + x)))),
{
    assert(h + a + b + c + d + x =~= h + (a + (b + (c + (d + x)))));
}

proof fn lemma_apart(h: Seq<u8>, t: Seq<u8>)
    ensures
        (h + t).take(h.len() as int) == h,
        (h + t).skip(h.len() as int) == t,
{
    assert((h + t).take(h.len() as int) =~= h);
    assert((h + t).skip(h.len() as int) =~= t);
}

proof fn lemma_event_parts(e: EpgEvent, x: Seq<u8>)
    ensures
        (event_bytes(e) + x).take(24) == head_bytes(e),
        (event_bytes(e) + x).skip(24) == texts_then(e, x),
{
    let h = head_bytes(e);
    assert(h.len() == 24);
    lemma_regroup(
        h,
        sized_text(e.title@),
        optional_text(text_of(e.subtitle)),
        optional_text(text_of(e.description)),
        sized_text(e.language@),
        x,
    );
    lemma_apart(h, texts_then(e, x));
}

/// The bytes of an event tell all of it, and where it ends: nothing of it can change, and
/// nothing can move from one event to the next, without a change of the bytes.
pub proof fn law_event_bytes_tell(a: EpgEvent, b: EpgEvent, x: Seq<u8>, y: Seq<u8>)
    requires
        event_bytes(a) + x == event_bytes(b) + y,
        texts_fit(a) && texts_fit(b),
    ensures
        same_event(a, b),
        x == y,
{
    lemma_event_parts(a, x);
    lemma_event_parts(b, y);
    lemma_head_tells(a, b);
    let x1 = sized_text(a.language@) + x;
    let y1 = sized_text(b.language@) + y;
    let x2 = optional_text(text_of(a.description)) + x1;
    let y2 = optional_text(text_of(b.description)) + y1;
    let x3 = optional_text(text_of(a.subtitle)) + x2;
    let y3 = optional_text(text_of(b.subtitle)) + y2;
    lemma_sized_tells(a.title@, b.title@, x3, y3);
    lemma_optional_tells(text_of(a.subtitle), text_of(b.subtitle), x2, y2);
    lemma_optional_tells(text_of(a.description), text_of(b.description), x1, y1);
    lemma_sized_tells(a.language@, b.language@, x, y);
}

proof fn lemma_events_first(s: Seq<EpgEvent>)
    requires
        s.len() > 0,
    ensures
        events_bytes(s) == event_bytes(s[0]) + events_bytes(s.drop_first()),
    decreases s.len(),
{
    if s.len() == 1 {
        assert(s.drop_last() =~= Seq::<EpgEvent>::empty());
        assert(s.drop_first() =~= Seq::<EpgEvent>::empty());
        assert(events_bytes(s.drop_last()) == Seq::<u8>::empty());
        assert(events_bytes(s) =~= event_bytes(s[0]) + events_bytes(s.drop_first()));
    } else {
        lemma_events_first(s.drop_last());
        assert(s.drop_last().drop_first() =~= s.drop_first().drop_last());
        assert(s.drop_first().last() == s.last());
        assert(events_bytes(s) =~= event_bytes(s[0]) + events_bytes(s.drop_first()));
    }
}

/// What is hashed tells all events and their order.
pub proof fn law_events_bytes_tell(s: Seq<EpgEvent>, t: Seq<EpgEvent>)
    requires
        events_bytes(s) == events_bytes(t),
        forall|i: int| 0 <= i < s.len() ==> texts_fit(#[trigger] s[i]),
        forall|i: int| 0 <= i < t.len() ==> texts_fit(#[trigger] t[i]),
    ensures
        s.len() == t.len(),
        forall|i: int| 0 <= i < s.len() ==> same_event(#[trigger] s[i], t[i]),
    decreases s.len(),
{
    lemma_both_end(s, t);
    if s.len() > 0 {
        let sr = s.drop_first();
        let tr = t.drop_first();
        lemma_first_same(s, t);
        law_events_bytes_tell(sr, tr);
        assert forall|i: int| 0 <= i < s.len() implies same_event(#[trigger] s[i], t[i]) by {
            if i > 0 {
                assert(same_event(sr[i - 1], tr[i - 1]));
            }
        }
    }
}

proof fn lemma_both_end(s: Seq<EpgEvent>, t: Seq<EpgEvent>)
    requires
        events_bytes(s) == events_bytes(t),
    ensures
        (s.len() == 0) == (t.len() == 0),
{
    lemma_some_bytes(s);
    lemma_some_bytes(t);
}

proof fn lemma_some_bytes(s: Seq<EpgEvent>)
    ensures
        (events_bytes(s).len() == 0) == (s.len() == 0),
{
    if s.len() > 0 {
        assert(event_bytes(s.last()).len() >= 8);
    }
}

proof fn lemma_first_same(s: Seq<EpgEvent>, t: Seq<EpgEvent>)
    requires
        events_bytes(s) == events_bytes(t),
        s.len() > 0 && t.len() > 0,
        texts_fit(s[0]) && texts_fit(t[0]),
    ensures
        same_event(s[0], t[0]),
        events_bytes(s.drop_first()) == events_bytes(t.drop_first()),
{
    lemma_events_first(s);
    lemma_events_first(t);
    law_event_bytes_tell(
        s[0],
        t[0],
        events_bytes(s.drop_first()),
        events_bytes(t.drop_first()),
    );
}

/// Whether an event belongs to a service: network, stream and service, in this order.
pub open spec fn belongs_to(e: EpgEvent, key: (u16, u16, u16)) -> bool {
    e.original_network_id == key.0 && e.transport_stream_id == key.1 && e.service_id == key.2
}

/// The events of a service are those that belong to it, in their order, and no others.
pub proof fn law_events_of_service(s: Seq<EpgEvent>, key: (u16, u16, u16))
    ensures
        events_of(s, key) == s.filter(|e: EpgEvent| belongs_to(e, key)),
    decreases s.len(),
{
    let f = |e: EpgEvent| belongs_to(e, key);
    reveal(Seq::filter);
    if s.len() == 0 {
        assert(s.filter(f) =~= s);
    } else {
        law_events_of_service(s.drop_last(), key);
    }
}

/// In a guide every event stands with its service, and every service has its own events
/// only, by their start.
pub proof fn law_guide_has_every_event(g: Seq<ServiceEvents>, s: Seq<EpgEvent>, j: int)
    requires
        is_guide(g, s),
        0 <= j < s.len(),
    ensures
        exists|i: int|
            0 <= i < g.len() && belongs_to(s[j], (#[trigger] g[i]).key) && g[i].events@.contains(
                s[j],
            ),
        forall|i: int, k: int|
            0 <= i < g.len() && 0 <= k < g[i].events@.len() ==> belongs_to(
                #[trigger] g[i].events@[k],
                g[i].key,
            ),
{
    broadcast use vstd::seq_lib::group_to_multiset_ensures;

    let key = service_key(s[j]);
    assert(crate::epg::events::holds_service(g, key));
    let i = choose|i: int| 0 <= i < g.len() && (#[trigger] g[i]).key == key;
    lemma_member(s, key, j);
    let mine = events_of(s, key);
    law_by_start(mine);
    assert(mine.to_multiset().contains(s[j]));
    assert(by_start(mine).to_multiset().contains(s[j]));
    assert(g[i].events@.contains(s[j]));
    assert forall|i: int, k: int|
        0 <= i < g.len() && 0 <= k < g[i].events@.len() implies belongs_to(
        #[trigger] g[i].events@[k],
        g[i].key,
    ) by {
        let mine = events_of(s, g[i].key);
        law_by_start(mine);
        let e = g[i].events@[k];
        assert(by_start(mine).contains(e));
        assert(by_start(mine).to_multiset().contains(e));
        assert(mine.contains(e));
        lemma_members_belong(s, g[i].key);
    }
}

proof fn lemma_member(s: Seq<EpgEvent>, key: (u16, u16, u16), j: int)
    requires
        0 <= j < s.len(),
        service_key(s[j]) == key,
    ensures
        events_of(s, key).contains(s[j]),
    decreases s.len(),
{
    if j == s.len() - 1 {
        let before = events_of(s.drop_last(), key);
        assert(before.push(s.last())[before.len() as int] == s[j]);
    } else {
        lemma_member(s.drop_last(), key, j);
        let before = events_of(s.drop_last(), key);
        let k = choose|k: int| 0 <= k < before.len() && before[k] == s[j];
        assert(events_of(s, key)[k] == s[j]);
    }
}

proof fn lemma_members_belong(s: Seq<EpgEvent>, key: (u16, u16, u16))
    ensures
        forall|k: int|
            0 <= k < events_of(s, key).len() ==> belongs_to(#[trigger] events_of(s, key)[k], key),
    decreases s.len(),
{
    if s.len() > 0 {
        lemma_members_belong(s.drop_last(), key);
        let before = events_of(s.drop_last(), key);
        assert forall|k: int| 0 <= k < events_of(s, key).len() implies belongs_to(
            #[trigger] events_of(s, key)[k],
            key,
        ) by {
            if k < before.len() {
                assert(events_of(s, key)[k] == before[k]);
            }
        }
    }
}

} // verus!
