//! What holds of the program guide: which events its sections tell of, and how its
//! packets carry them.

use crate::epg::events::{EpgEvent, EpgState, ServiceEvents};
use crate::epg::muxer::{
    end_of, event_sections, event_text, first_on, first_upcoming, guide_sections, is_on, packed,
    present_following, round_added, service_sections, time_sections, GuideState,
};
use crate::mux::laws::joined;
use crate::mux::table_laws::{carries, lemma_packet_carries};
use crate::psi::crc::with_crc;
use crate::psi::eit::{
    eit_head, event_body, event_descriptors, extended_descriptor, extended_descriptors, flat,
    lang_code, law_text_chunks_join, lemma_cut_near, short_event, single_precision, text_chunks,
};
use crate::psi::header::{dvb_text_of, law_dvb_text_is_text, law_section_length, with_length};
use crate::psi::section::{
    law_pack_reassemble, packet_count, section_packet, section_packets, section_total,
};
use crate::psi::tdt::tdt_bytes;
use crate::psi::time::{
    bcd_value, duration_field, dvb_time_bytes, law_duration_digits, law_dvb_time_tells,
    lemma_dvb_time_len, offset_field, zone_offset_of, UtcTime,
};
use crate::psi::tot::tot_bytes;
use vstd::prelude::*;
use vstd::utf8::{encode_utf8, valid_utf8};

verus! {

// ---- Which events ----

/// Whether an instant comes before another.
pub open spec fn comes_before(a: UtcTime, b: UtcTime) -> bool {
    a.secs < b.secs || a.secs == b.secs && a.nanos < b.nanos
}

/// Whether an event has begun at an instant and not ended yet.
pub open spec fn runs_at(e: EpgEvent, now: UtcTime) -> bool {
    !comes_before(now, e.start_time_utc) && comes_before(now, end_of(e))
}

/// Whether an event is still to begin at an instant.
pub open spec fn begins_after(e: EpgEvent, now: UtcTime) -> bool {
    comes_before(now, e.start_time_utc)
}

/// An event ends its duration after it began.
pub proof fn law_event_ends(e: EpgEvent)
    requires
        e.start_time_utc.wf(),
        e.start_time_utc.nanos < 1_000_000_000,
    ensures
        end_of(e).secs == e.start_time_utc.secs + e.duration_seconds,
        end_of(e).nanos == e.start_time_utc.nanos,
{
}

/// The text of an event is its description; where that is missing or empty, its subtitle;
/// and nothing where both are missing.
pub proof fn law_text_of_event(e: EpgEvent)
    ensures
        e.description is Some && (e.description->0)@.len() > 0 ==> event_text(e) == (
        e.description->0)@,
        (e.description is None || (e.description->0)@.len() == 0) && e.subtitle is Some
            ==> event_text(e) == (e.subtitle->0)@,
        (e.description is None || (e.description->0)@.len() == 0) && e.subtitle is None
            ==> event_text(e).len() == 0,
{
}

/// A language is told by three small letters: a small letter by itself, a capital one by the
/// small one. A place without a letter is told as in English.
pub proof fn law_language_is_told(lang: Seq<u8>, i: int)
    requires
        0 <= i < 3,
    ensures
        ({
            let c = lang_code(lang);
            let letter = i < lang.len() && (0x61 <= lang[i] <= 0x7A || 0x41 <= lang[i] <= 0x5A);
            &&& c.len() == 3
            &&& 0x61 <= c[i] <= 0x7A
            &&& letter ==> (c[i] - lang[i]) % 32 == 0
            &&& !letter ==> c[i] == seq![0x65u8, 0x6E, 0x67][i]
        }),
{
}

/// While an event runs, the first one that does is the present one, and the one behind it
/// in the list follows. While none runs, the first that is still to begin is the present
/// one, and the next of those that are still to begin follows. When all are over, the
/// first two of the list stand for them.
pub proof fn law_present_and_following(s: Seq<EpgEvent>, now: UtcTime)
    requires
        s.len() > 0,
    ensures
        present_following(s, now) is Some,
        ({
            let (i, f) = present_following(s, now)->0;
            let some_runs = exists|j: int| 0 <= j < s.len() && runs_at(#[trigger] s[j], now);
            let some_begins = exists|j: int|
                0 <= j < s.len() && begins_after(#[trigger] s[j], now);
            let end = match f {
                Some(k) => k,
                None => s.len() as int,
            };
            &&& 0 <= i < s.len()
            &&& f matches Some(k) ==> i < k < s.len()
            &&& some_runs ==> runs_at(s[i], now) && (forall|j: int|
                0 <= j < i ==> !runs_at(#[trigger] s[j], now)) && (f is Some <==> i + 1 < s.len())
                && (f matches Some(k) ==> k == i + 1)
            &&& !some_runs && some_begins ==> begins_after(s[i], now) && (forall|j: int|
                0 <= j < i ==> !begins_after(#[trigger] s[j], now)) && (forall|j: int|
                i < j < end ==> !begins_after(#[trigger] s[j], now)) && (f matches Some(k)
                ==> begins_after(s[k], now))
            &&& !some_runs && !some_begins ==> i == 0 && (f is Some <==> s.len() > 1) && (
            f matches Some(k) ==> k == 1)
        }),
{
    lemma_first_on(s, now, 0);
    lemma_first_upcoming(s, now, 0);
    if let Some(i) = first_upcoming(s, now, 0) {
        lemma_first_upcoming(s, now, i + 1);
    }
}

proof fn lemma_first_on(s: Seq<EpgEvent>, now: UtcTime, i: int)
    requires
        0 <= i,
    ensures
        match first_on(s, now, i) {
            Some(k) => i <= k < s.len() && runs_at(s[k], now) && forall|j: int|
                i <= j < k ==> !runs_at(#[trigger] s[j], now),
            None => forall|j: int| i <= j < s.len() ==> !runs_at(#[trigger] s[j], now),
        },
    decreases s.len() - i,
{
    if i < s.len() && !is_on(s[i], now) {
        lemma_first_on(s, now, i + 1);
    }
}

proof fn lemma_first_upcoming(s: Seq<EpgEvent>, now: UtcTime, i: int)
    requires
        0 <= i,
    ensures
        match first_upcoming(s, now, i) {
            Some(k) => i <= k < s.len() && begins_after(s[k], now) && forall|j: int|
                i <= j < k ==> !begins_after(#[trigger] s[j], now),
            None => forall|j: int|
                i <= j < s.len() ==> !begins_after(#[trigger] s[j], now),
        },
    decreases s.len() - i,
{
    if i < s.len() && !begins_after(s[i], now) {
        lemma_first_upcoming(s, now, i + 1);
    }
}

// ---- What a section tells ----

/// Whether a section belongs to a service and its number and version are these.
pub open spec fn is_of_service(
    section: Seq<u8>,
    network: u16,
    stream: u16,
    service: u16,
    version: u8,
    number: u8,
) -> bool {
    &&& section.len() >= 18
    &&& section[0] == 0x4E
    &&& section[3] * 256 + section[4] == service
    &&& (section[5] / 2) % 32 == version % 32 && section[5] % 2 == 1
    &&& section[6] == number && section[7] == 1
    &&& section[8] * 256 + section[9] == stream
    &&& section[10] * 256 + section[11] == network
    &&& section == with_crc(section.take(section.len() - 4))
    &&& section.len() <= 4098 ==> section_total(section) == section.len()
}

/// The text that stands in descriptors one behind the other, in parts.
pub open spec fn text_in(d: Seq<u8>) -> Seq<u8>
    decreases d.len(),
{
    if d.len() < 9 || d.len() < d[1] + 2 || d[1] < 7 {
        Seq::empty()
    } else {
        d.subrange(9, d[1] + 2) + text_in(d.skip(d[1] + 2))
    }
}

/// Whether a section tells of an event: its number, its start, its duration, its language,
/// its title and its text. A title is cut to 79 bytes, between two characters. A short text
/// stands beside it; a long one is told in parts behind it, the first 3920 bytes at least.
pub open spec fn tells_of(section: Seq<u8>, e: EpgEvent, language: Seq<char>) -> bool {
    let title = encode_utf8(e.title@);
    let text = encode_utf8(event_text(e));
    let n = section[31] as int;
    &&& section.len() >= 38
    &&& section[14] * 256 + section[15] == e.event_id
    &&& section.subrange(16, 21) == dvb_time_bytes(e.start_time_utc.secs as int)
    &&& e.duration_seconds < 360_000 ==> bcd_value(section[21]) * 3600 + bcd_value(section[22])
        * 60 + bcd_value(section[23]) == e.duration_seconds
    &&& section[26] == 0x4D
    &&& section.subrange(28, 31) == lang_code(encode_utf8(language))
    &&& 1 <= n && 33 + n <= section.len()
    &&& section[32] == 0x15
    &&& section.subrange(33, 32 + n) == title.take(n - 1)
    &&& if title.len() <= 79 {
        n - 1 == title.len()
    } else {
        76 <= n - 1 <= 79
    }
    &&& text.len() < 160 ==> section[32 + n] == text.len() + 1 && section[33 + n] == 0x15
        && section.len() == 38 + n + text.len() && section.subrange(
        34 + n,
        34 + n + text.len() as int,
    ) == text
    &&& text.len() > 160 ==> section[32 + n] == 0
    &&& text.len() > 160 ==> ({
        let told = text_in(section.subrange(33 + n, section.len() - 4));
        &&& told.is_prefix_of(text)
        &&& text.len() <= 3920 ==> told == text
    })
}

proof fn lemma_title(title: Seq<u8>)
    requires
        valid_utf8(title),
    ensures
        ({
            let name = dvb_text_of(title, 80);
            let n = name.len() as int;
            &&& 1 <= n <= 80
            &&& name[0] == 0x15
            &&& name.skip(1) == title.take(n - 1)
            &&& if title.len() <= 79 {
                n - 1 == title.len()
            } else {
                76 <= n - 1 <= 79
            }
        }),
{
    let name = dvb_text_of(title, 80);
    law_dvb_text_is_text(title, 80);
    assert(name.skip(1).len() == name.len() - 1);
    if title.len() > 79 {
        lemma_cut_near(title, 79);
    } else {
        assert(name.skip(1) == title);
    }
    assert(name.skip(1) =~= title.take(name.len() - 1));
}

proof fn lemma_short_event(lang: Seq<u8>, title: Seq<u8>, text: Seq<u8>)
    requires
        lang.len() == 3,
        valid_utf8(title),
        valid_utf8(text),
    ensures
        ({
            let d = event_descriptors(lang, title, text);
            let n = d[5] as int;
            &&& d.len() >= 8
            &&& d[0] == 0x4D
            &&& d.subrange(2, 5) == lang
            &&& 1 <= n && 7 + n <= d.len()
            &&& d[6] == 0x15
            &&& d.subrange(7, 6 + n) == title.take(n - 1)
            &&& if title.len() <= 79 {
                n - 1 == title.len()
            } else {
                76 <= n - 1 <= 79
            }
            &&& text.len() < 160 ==> d[6 + n] == text.len() + 1 && d[7 + n] == 0x15 && d.len() == 8
                + n + text.len() && d.subrange(8 + n, 8 + n + text.len() as int) == text
            &&& text.len() > 160 ==> d[6 + n] == 0 && d.skip(7 + n) == flat(
                extended_descriptors(lang, text),
            )
            &&& text.len() <= 3675 ==> d.len() <= 3942
        }),
{
    lemma_title(title);
    let name = dvb_text_of(title, 80);
    let n = name.len() as int;
    let d = event_descriptors(lang, title, text);
    let short = short_event(lang, title, text);
    assert(d[5] == short[3]);
    assert(d.subrange(2, 5) =~= lang);
    assert(d[6] == name[0]);
    assert(d.subrange(7, 6 + n) =~= name.skip(1));
    if text.len() < 160 {
        law_dvb_text_is_text(text, 160);
        let t = dvb_text_of(text, 160);
        assert(t.skip(1) == text);
        assert(t.len() == text.len() + 1);
        assert(d.subrange(8 + n, 8 + n + text.len() as int) =~= t.skip(1));
        assert(d[7 + n] == t[0]);
        assert(d[6 + n] == t.len() as u8);
    } else if text.len() > 160 {
        assert(d[6 + n] == 0);
        assert(d.skip(7 + n) =~= flat(extended_descriptors(lang, text)));
        lemma_parts_len(lang, text);
    } else {
        law_dvb_text_is_text(text, 160);
    }
}

proof fn lemma_parts_len(lang: Seq<u8>, text: Seq<u8>)
    requires
        lang.len() == 3,
        valid_utf8(text),
    ensures
        text.len() <= 3675 ==> flat(extended_descriptors(lang, text)).len() <= 3855,
        text_in(flat(extended_descriptors(lang, text))).is_prefix_of(text),
        text.len() <= 3920 ==> text_in(flat(extended_descriptors(lang, text))) == text,
{
    law_text_chunks_join(text);
    let chunks = text_chunks(text);
    let parts = extended_descriptors(lang, text);
    let n = parts.len() as int;
    let sent = chunks.take(n);
    assert forall|i: int| 0 <= i < n implies is_part(#[trigger] parts[i], sent[i]) by {
        law_part_is_carried(lang, i, n - 1, chunks[i]);
    }
    lemma_parts_read(parts, sent);
    lemma_joined_first(chunks, n);
    if text.len() <= 3920 {
        assert(sent =~= chunks);
    }
}

proof fn lemma_joined_first(chunks: Seq<Seq<u8>>, n: int)
    requires
        0 <= n <= chunks.len(),
    ensures
        joined(chunks.take(n)).is_prefix_of(joined(chunks)),
    decreases n,
{
    if n > 0 {
        let rest = chunks.drop_first();
        lemma_joined_first(rest, n - 1);
        assert(chunks.take(n).drop_first() =~= rest.take(n - 1));
        assert(chunks.take(n)[0] == chunks[0]);
        let a = joined(rest.take(n - 1));
        let b = joined(rest);
        assert(chunks[0] + a =~= (chunks[0] + b).take((chunks[0] + a).len() as int));
    } else {
        assert(chunks.take(0).len() == 0);
    }
}

/// Whether a descriptor carries a part of a text.
spec fn is_part(d: Seq<u8>, chunk: Seq<u8>) -> bool {
    &&& chunk.len() <= 248
    &&& d.len() == 9 + chunk.len()
    &&& d[1] == 7 + chunk.len()
    &&& d.skip(9) == chunk
}

proof fn lemma_flat_first(parts: Seq<Seq<u8>>)
    requires
        parts.len() > 0,
    ensures
        flat(parts) == parts[0] + flat(parts.drop_first()),
    decreases parts.len(),
{
    if parts.len() == 1 {
        assert(parts.drop_last() =~= Seq::<Seq<u8>>::empty());
        assert(parts.drop_first() =~= Seq::<Seq<u8>>::empty());
        assert(flat(parts.drop_last()) == Seq::<u8>::empty());
        assert(flat(parts) =~= Seq::<u8>::empty() + parts[0]);
        assert(parts[0] + flat(parts.drop_first()) =~= parts[0]);
    } else {
        let rest = parts.drop_first();
        lemma_flat_first(parts.drop_last());
        assert(parts.drop_last().drop_first() =~= rest.drop_last());
        assert(rest.last() == parts.last());
        assert(flat(parts) =~= parts[0] + flat(rest));
    }
}

proof fn lemma_parts_read(parts: Seq<Seq<u8>>, chunks: Seq<Seq<u8>>)
    requires
        parts.len() == chunks.len(),
        forall|i: int| 0 <= i < parts.len() ==> is_part(#[trigger] parts[i], chunks[i]),
    ensures
        flat(parts).len() <= 257 * parts.len(),
        text_in(flat(parts)) == joined(chunks),
    decreases parts.len(),
{
    if parts.len() == 0 {
        assert(text_in(flat(parts)) =~= joined(chunks));
    } else {
        let rest = parts.drop_first();
        let d = flat(parts);
        lemma_flat_first(parts);
        assert forall|i: int| 0 <= i < rest.len() implies is_part(
            #[trigger] rest[i],
            chunks.drop_first()[i],
        ) by {
            assert(is_part(parts[i + 1], chunks[i + 1]));
        }
        lemma_parts_read(rest, chunks.drop_first());
        assert(is_part(parts[0], chunks[0]));
        let n = parts[0].len() as int;
        assert(d[1] == parts[0][1]);
        assert(d.subrange(9, n) =~= parts[0].skip(9));
        assert(d.skip(n) =~= flat(rest));
        assert(joined(chunks) =~= chunks[0] + joined(chunks.drop_first()));
    }
}

proof fn lemma_closed(body: Seq<u8>)
    requires
        3 <= body.len() <= 4300,
    ensures
        ({
            let t = with_crc(with_length(body));
            &&& t.len() == body.len() + 4
            &&& t == with_crc(t.take(t.len() - 4))
            &&& t[0] == body[0]
            &&& forall|i: int| 3 <= i < body.len() ==> #[trigger] t[i] == body[i]
            &&& body.len() <= 4094 ==> section_total(t) == t.len()
        }),
{
    let t = with_crc(with_length(body));
    assert(t.take(t.len() - 4) =~= with_length(body));
    if body.len() <= 4094 {
        law_section_length(body);
    }
}

proof fn lemma_head(key: (u16, u16, u16), version: u8, number: u8)
    ensures
        ({
            let h = eit_head(key.2, version, key.1, key.0, number);
            &&& h.len() == 14
            &&& h[0] == 0x4E
            &&& h[3] * 256 + h[4] == key.2
            &&& (h[5] / 2) % 32 == version % 32 && h[5] % 2 == 1
            &&& h[6] == number && h[7] == 1
            &&& h[8] * 256 + h[9] == key.1
            &&& h[10] * 256 + h[11] == key.0
        }),
{
}

proof fn lemma_event_body(
    head: Seq<u8>,
    event_id: u16,
    time: Seq<u8>,
    duration: u32,
    d: Seq<u8>,
)
    requires
        head.len() == 14,
        time.len() == 5,
    ensures
        ({
            let b = event_body(head, event_id, time, duration, d);
            &&& b.len() == 26 + d.len()
            &&& b[14] * 256 + b[15] == event_id
            &&& b.subrange(16, 21) == time
            &&& b.skip(26) == d
            &&& duration < 360_000 ==> bcd_value(b[21]) * 3600 + bcd_value(b[22]) * 60 + bcd_value(
                b[23],
            ) == duration
            &&& forall|i: int| 0 <= i < 14 ==> b[i] == head[i]
        }),
{
    let b = event_body(head, event_id, time, duration, d);
    let f = duration_field(single_precision(duration as int));
    assert(f.len() == 3);
    assert(b[21] == f[0] && b[22] == f[1] && b[23] == f[2]);
    if duration < 360_000 {
        assert(single_precision(duration as int) == duration);
        law_duration_digits(duration as int);
    }
    assert(b.subrange(16, 21) =~= time);
    assert(b.skip(26) =~= d);
}

/// The section on an event tells of that event, and belongs to its service.
pub proof fn law_section_tells_of_event(
    key: (u16, u16, u16),
    version: u8,
    number: u8,
    e: EpgEvent,
    language: Seq<char>,
)
    requires
        fits_section(e, language),
    ensures
        ({
            let s = event_sections(key, version, number, e, language);
            &&& s.len() == 1
            &&& is_of_service(s[0], key.0, key.1, key.2, version, number)
            &&& tells_of(s[0], e, language)
        }),
{
    let lang = lang_code(encode_utf8(language));
    let title = encode_utf8(e.title@);
    let text = encode_utf8(event_text(e));
    let d = event_descriptors(lang, title, text);
    let head = eit_head(key.2, version, key.1, key.0, number);
    let time = dvb_time_bytes(e.start_time_utc.secs as int);
    lemma_dvb_time_len(e.start_time_utc.secs as int);
    vstd::utf8::encode_utf8_valid_utf8(e.title@);
    vstd::utf8::encode_utf8_valid_utf8(event_text(e));
    lemma_head(key, version, number);
    lemma_short_event(lang, title, text);
    lemma_event_body(head, e.event_id, time, e.duration_seconds, d);
    let body = event_body(head, e.event_id, time, e.duration_seconds, d);
    lemma_closed(body);
    let s = with_crc(with_length(body));
    assert(s == event_sections(key, version, number, e, language)[0]);
    if text.len() > 160 {
        lemma_parts_len(lang, text);
    }
    lemma_body_tells(s, body, d, e, language);
}

proof fn lemma_body_tells(
    s: Seq<u8>,
    body: Seq<u8>,
    d: Seq<u8>,
    e: EpgEvent,
    language: Seq<char>,
)
    requires
        s.len() == body.len() + 4,
        body.len() == 26 + d.len(),
        body.skip(26) == d,
        forall|i: int| 3 <= i < body.len() ==> #[trigger] s[i] == body[i],
        body[14] * 256 + body[15] == e.event_id,
        body.subrange(16, 21) == dvb_time_bytes(e.start_time_utc.secs as int),
        e.duration_seconds < 360_000 ==> bcd_value(body[21]) * 3600 + bcd_value(body[22]) * 60
            + bcd_value(body[23]) == e.duration_seconds,
        ({
            let title = encode_utf8(e.title@);
            let text = encode_utf8(event_text(e));
            let n = d[5] as int;
            &&& d.len() >= 8
            &&& d[0] == 0x4D
            &&& d.subrange(2, 5) == lang_code(encode_utf8(language))
            &&& 1 <= n && 7 + n <= d.len()
            &&& d[6] == 0x15
            &&& d.subrange(7, 6 + n) == title.take(n - 1)
            &&& if title.len() <= 79 {
                n - 1 == title.len()
            } else {
                76 <= n - 1 <= 79
            }
            &&& text.len() < 160 ==> d[6 + n] == text.len() + 1 && d[7 + n] == 0x15 && d.len() == 8
                + n + text.len() && d.subrange(8 + n, 8 + n + text.len() as int) == text
            &&& text.len() > 160 ==> d[6 + n] == 0
            &&& text.len() > 160 ==> text_in(d.skip(7 + n)).is_prefix_of(text)
            &&& 160 < text.len() <= 3920 ==> text_in(d.skip(7 + n)) == text
        }),
    ensures
        tells_of(s, e, language),
{
    let text = encode_utf8(event_text(e));
    let n = d[5] as int;
    assert forall|i: int| 0 <= i < d.len() implies #[trigger] s[26 + i] == d[i] by {
        assert(body.skip(26)[i] == body[26 + i]);
    }
    assert(s[26] == d[0] && s[31] == s[26 + 5int] && s[32] == s[26 + 6int]);
    assert(s.subrange(16, 21) =~= body.subrange(16, 21));
    assert(s.subrange(28, 31) =~= d.subrange(2, 5)) by {
        assert(s[28] == s[26 + 2int] && s[29] == s[26 + 3int] && s[30] == s[26
            + 4int]);
    }
    assert forall|i: int| 0 <= i < n - 1 implies #[trigger] s.subrange(33, 32 + n)[i]
        == d.subrange(7, 6 + n)[i] by {
        assert(s[26 + (7 + i)] == d[7 + i]);
    }
    assert(s.subrange(33, 32 + n) =~= d.subrange(7, 6 + n));
    assert(s[26 + (6 + n)] == d[6 + n]);
    if text.len() < 160 {
        assert(s[26 + (7 + n)] == d[7 + n]);
        assert forall|i: int| 0 <= i < text.len() implies #[trigger] s.subrange(
            34 + n,
            34 + n + text.len() as int,
        )[i] == text[i] by {
            assert(s[26 + (8 + n + i)] == d[8 + n + i]);
            assert(d.subrange(8 + n, 8 + n + text.len() as int)[i] == d[8 + n + i]);
        }
        assert(s.subrange(34 + n, 34 + n + text.len() as int) =~= text);
    }
    assert forall|i: int| 0 <= i < d.len() - 7 - n implies #[trigger] s.subrange(
        33 + n,
        s.len() - 4,
    )[i] == d.skip(7 + n)[i] by {
        assert(s[26 + (7 + n + i)] == d[7 + n + i]);
    }
    assert(s.subrange(33 + n, s.len() - 4) =~= d.skip(7 + n));
}

/// A service is told by two sections: the first, with number 0, tells of the present event,
/// and the second, with number 1, of the following one, both in the language of the present
/// one; where no event follows, the second tells of none. This holds where the events fit
/// into a section.
pub proof fn law_service_is_told(
    key: (u16, u16, u16),
    events: Seq<EpgEvent>,
    version: u8,
    now: UtcTime,
)
    requires
        events.len() > 0,
        forall|i: int|
            0 <= i < events.len() ==> fits_section(
                #[trigger] events[i],
                events[(present_following(events, now)->0).0].language@,
            ),
    ensures
        ({
            let s = service_sections(key, events, version, now);
            let (i, f) = present_following(events, now)->0;
            &&& s.len() == 2
            &&& is_of_service(s[0], key.0, key.1, key.2, version, 0)
            &&& tells_of(s[0], events[i], events[i].language@)
            &&& is_of_service(s[1], key.0, key.1, key.2, version, 1)
            &&& match f {
                Some(k) => tells_of(s[1], events[k], events[i].language@),
                None => s[1].len() == 18,
            }
        }),
{
    law_present_and_following(events, now);
    let (i, f) = present_following(events, now)->0;
    let language = events[i].language@;
    law_section_tells_of_event(key, version, 0, events[i], language);
    match f {
        Some(k) => {
            law_section_tells_of_event(key, version, 1, events[k], language);
        },
        None => {
            lemma_head(key, version, 1);
            let head = eit_head(key.2, version, key.1, key.0, 1);
            lemma_closed(head);
        },
    }
}

/// Whether what is told of an event has no more bytes than a section can announce.
pub open spec fn fits_section(e: EpgEvent, language: Seq<char>) -> bool {
    event_descriptors(
        lang_code(encode_utf8(language)),
        encode_utf8(e.title@),
        encode_utf8(event_text(e)),
    ).len() <= 0xFFF
}

/// An event whose text has no more than 3675 bytes fits into a section, whatever its title.
/// One that does not fit is left out.
pub proof fn law_event_fits(
    key: (u16, u16, u16),
    version: u8,
    number: u8,
    e: EpgEvent,
    language: Seq<char>,
)
    ensures
        encode_utf8(event_text(e)).len() <= 3675 ==> fits_section(e, language),
        !fits_section(e, language) ==> event_sections(key, version, number, e, language).len() == 0,
{
    vstd::utf8::encode_utf8_valid_utf8(e.title@);
    vstd::utf8::encode_utf8_valid_utf8(event_text(e));
    lemma_short_event(
        lang_code(encode_utf8(language)),
        encode_utf8(e.title@),
        encode_utf8(event_text(e)),
    );
}

/// The sections of every service of a guide stand in it, those of one service together and
/// the services in their order.
pub proof fn law_guide_tells_every_service(
    g: Seq<ServiceEvents>,
    version: u8,
    now: UtcTime,
    k: int,
)
    requires
        0 <= k < g.len(),
    ensures
        ({
            let before = guide_sections(g.take(k), version, now);
            let here = service_sections(g[k].key, g[k].events@, version, now);
            (before + here).is_prefix_of(guide_sections(g, version, now))
        }),
    decreases g.len(),
{
    let all = guide_sections(g, version, now);
    if k == g.len() - 1 {
        assert(g.take(k) =~= g.drop_last());
    } else {
        law_guide_tells_every_service(g.drop_last(), version, now, k);
        assert(g.drop_last().take(k) =~= g.take(k));
        assert(g.drop_last()[k] == g[k]);
        let before = guide_sections(g.drop_last(), version, now);
        assert(before.is_prefix_of(all));
    }
}

// ---- Long texts ----

/// The descriptor of a part of a long text carries that part, with its number and that of
/// the last one.
pub proof fn law_part_is_carried(lang: Seq<u8>, i: int, last: int, chunk: Seq<u8>)
    requires
        lang.len() == 3,
        0 <= i <= last < 16,
        chunk.len() <= 248,
    ensures
        ({
            let d = extended_descriptor(lang, i, last, chunk);
            &&& d[0] == 0x4E && d[1] + 2 == d.len()
            &&& d[2] / 16 == i && d[2] % 16 == last
            &&& d.subrange(3, 6) == lang
            &&& d[6] == 0 && d[7] == chunk.len() + 1 && d[8] == 0x15
            &&& d.skip(9) == chunk
        }),
{
    let d = extended_descriptor(lang, i, last, chunk);
    assert(d.subrange(3, 6) =~= lang);
    assert(d.skip(9) =~= chunk);
}

// ---- Packets ----

/// Every packet of sections is numbered one behind the one before, the first with the
/// number that comes next, in a circle of 16.
pub proof fn law_guide_packets_are_numbered(sections: Seq<Seq<u8>>, pid: u16, cc: u8)
    requires
        pid < 0x2000,
    ensures
        ({
            let (packets, next) = packed(sections, pid, cc);
            &&& forall|k: int|
                0 <= k < packets.len() ==> is_numbered(#[trigger] packets[k], pid, cc + k)
            &&& next as int % 16 == (cc + packets.len()) % 16
        }),
    decreases sections.len(),
{
    if sections.len() > 0 {
        law_guide_packets_are_numbered(sections.drop_last(), pid, cc);
        let (before, next) = packed(sections.drop_last(), pid, cc);
        lemma_section_numbered(sections.last(), pid, next, cc + before.len());
        let more = section_packets(sections.last(), pid, next);
        lemma_numbered_join(before, more, pid, cc as int);
        assert(packed(sections, pid, cc).0 == before + more);
    }
}

proof fn lemma_numbered_join(before: Seq<Seq<u8>>, more: Seq<Seq<u8>>, pid: u16, number: int)
    requires
        forall|k: int|
            0 <= k < before.len() ==> is_numbered(#[trigger] before[k], pid, number + k),
        forall|k: int|
            0 <= k < more.len() ==> is_numbered(
                #[trigger] more[k],
                pid,
                number + before.len() + k,
            ),
    ensures
        forall|k: int|
            0 <= k < (before + more).len() ==> is_numbered(
                #[trigger] (before + more)[k],
                pid,
                number + k,
            ),
{
    assert forall|k: int| 0 <= k < (before + more).len() implies is_numbered(
        #[trigger] (before + more)[k],
        pid,
        number + k,
    ) by {
        if k >= before.len() {
            assert((before + more)[k] == more[k - before.len()]);
        }
    }
}

proof fn lemma_section_numbered(section: Seq<u8>, pid: u16, cc: u8, number: int)
    requires
        pid < 0x2000,
        cc % 16 == number % 16,
    ensures
        ({
            let p = section_packets(section, pid, cc);
            &&& forall|k: int|
                0 <= k < p.len() ==> is_numbered(#[trigger] p[k], pid, number + k)
            &&& ((cc + packet_count(section.len() as int)) % 16) as u8 == (number + p.len()) % 16
        }),
{
    let p = section_packets(section, pid, cc);
    assert forall|k: int| 0 <= k < p.len() implies is_numbered(
        #[trigger] p[k],
        pid,
        number + k,
    ) by {
        lemma_packet_header(section, pid, cc, k);
        lemma_same_rest(cc as int, number, k);
    }
    lemma_same_rest(cc as int, number, packet_count(section.len() as int));
}

proof fn lemma_same_rest(a: int, b: int, k: int)
    requires
        a % 16 == b % 16,
    ensures
        (a + k) % 16 == (b + k) % 16,
{
}

/// Whether a packet belongs to a stream and bears a number, in a circle of 16.
pub open spec fn is_numbered(pkt: Seq<u8>, pid: u16, number: int) -> bool {
    &&& pkt.len() == 188
    &&& pkt[0] == 0x47
    &&& (pkt[1] as int % 32) * 256 + pkt[2] == pid
    &&& pkt[3] % 16 == number % 16
}

proof fn lemma_packet_header(section: Seq<u8>, pid: u16, cc: u8, k: int)
    requires
        pid < 0x2000,
        0 <= k < packet_count(section.len() as int),
    ensures
        is_numbered(section_packet(section, pid, cc, k), pid, cc + k),
{
    let head = crate::psi::section::part_header(pid, cc, k);
    let p = section_packet(section, pid, cc, k);
    assert(p[0] == head[0] && p[1] == head[1] && p[2] == head[2] && p[3] == head[3]);
}

/// The packets of every section stand in the order of the sections, those of one section
/// together, and from them the section is put together again.
pub proof fn law_guide_packets_carry_sections(
    sections: Seq<Seq<u8>>,
    pid: u16,
    cc: u8,
    k: int,
    pending: Seq<u8>,
)
    requires
        pid < 0x2000,
        0 <= k < sections.len(),
        sections[k].len() >= 3,
        section_total(sections[k]) == sections[k].len(),
    ensures
        ({
            let before = packed(sections.take(k), pid, cc).0;
            let here = section_packets(sections[k], pid, packed(sections.take(k), pid, cc).1);
            &&& (before + here).is_prefix_of(packed(sections, pid, cc).0)
            &&& crate::psi::section::fed(pid as int, pending, here) == (
                Seq::<u8>::empty(),
                Some(sections[k]),
            )
        }),
    decreases sections.len(),
{
    law_pack_reassemble(sections[k], pid, packed(sections.take(k), pid, cc).1, pending);
    if k == sections.len() - 1 {
        assert(sections.take(k) =~= sections.drop_last());
    } else {
        let head = sections.drop_last();
        law_guide_packets_carry_sections(head, pid, cc, k, pending);
        assert(head.take(k) =~= sections.take(k));
        assert(head[k] == sections[k]);
        assert(packed(head, pid, cc).0.is_prefix_of(packed(sections, pid, cc).0));
    }
}

/// In a round the time is told where ten seconds have passed since it was told last, and
/// only then; it is told before the events, in a packet that carries the present time. All
/// that waits stays before what is added, and the events are those of the guide, under its
/// version.
pub proof fn law_round_tells_time_and_events(
    s: GuideState,
    now: UtcTime,
    clock: UtcTime,
    clock_ms: u64,
    new: EpgState,
    country: Seq<char>,
    timezone: Seq<char>,
    g: Seq<ServiceEvents>,
)
    requires
        clock_ms >= s.last_tdt_ms,
        now.wf(),
        now.secs >= -62_162_035_200,
    ensures
        ({
            let t = round_added(s, now, clock, clock_ms, new, country, timezone, g);
            let n = s.packets.len() as int;
            let due = clock_ms - s.last_tdt_ms >= 10_000;
            let version = t.state.current_version;
            &&& s.packets.is_prefix_of(t.packets)
            &&& t.last_tdt_ms == if due {
                clock_ms
            } else {
                s.last_tdt_ms
            }
            &&& t.state.last_hash == new.last_hash
            &&& t.state.generated_at_utc == new.generated_at_utc
            &&& due ==> n < t.packets.len() && tells_time(t.packets[n], now.secs as int)
                && t.packets[n][3] % 16 == s.tdt_cc % 16
            &&& due ==> {
                let told = packed(time_sections(now, clock, country, timezone), 0x14, s.tdt_cc).0;
                t.packets.skip(n) == told + packed(
                    guide_sections(g, version, now),
                    0x12,
                    s.eit_cc,
                ).0
            }
            &&& !due ==> t.packets.skip(n) == packed(
                guide_sections(g, version, now),
                0x12,
                s.eit_cc,
            ).0 && t.tdt_cc == s.tdt_cc
        }),
{
    let t = round_added(s, now, clock, clock_ms, new, country, timezone, g);
    let n = s.packets.len() as int;
    let sections = time_sections(now, clock, country, timezone);
    let events = packed(guide_sections(g, t.state.current_version, now), 0x12, s.eit_cc).0;
    if clock_ms - s.last_tdt_ms >= 10_000 {
        let told = packed(sections, 0x14, s.tdt_cc).0;
        assert(t.packets.skip(n) =~= told + events);
        lemma_first_packet(sections, 0x14, s.tdt_cc);
        lemma_time_is_told(now, s.tdt_cc);
        assert(t.packets[n] == told[0]);
    } else {
        assert(t.packets.skip(n) =~= events);
    }
}

/// Whether a packet carries the table of the time, and the time is this one.
pub open spec fn tells_time(pkt: Seq<u8>, secs: int) -> bool {
    exists|section: Seq<u8>|
        {
            &&& #[trigger] carries(pkt, 0x14, section)
            &&& section.len() == 8 && section[0] == 0x70
            &&& section[3] * 256 + section[4] == (40587 + secs / 86400) % 65536
            &&& bcd_value(section[5]) * 3600 + bcd_value(section[6]) * 60 + bcd_value(section[7])
                == secs % 86400
        }
}

proof fn lemma_time_is_told(now: UtcTime, cc: u8)
    requires
        now.wf(),
        now.secs >= -62_162_035_200,
    ensures
        tells_time(section_packet(tdt_bytes(now.secs as int), 0x14, cc, 0), now.secs as int),
        section_packet(tdt_bytes(now.secs as int), 0x14, cc, 0)[3] % 16 == cc % 16,
{
    law_dvb_time_tells(now.secs as int);
    let section = tdt_bytes(now.secs as int);
    let time = dvb_time_bytes(now.secs as int);
    assert(section[3] == time[0] && section[4] == time[1] && section[5] == time[2] && section[6]
        == time[3] && section[7] == time[4]);
    lemma_packet_carries(section, 0x14, cc);
    assert(carries(section_packet(section, 0x14, cc, 0), 0x14, section));
}

proof fn lemma_first_packet(sections: Seq<Seq<u8>>, pid: u16, cc: u8)
    requires
        sections.len() > 0,
    ensures
        packed(sections, pid, cc).0.len() > 0,
        packed(sections, pid, cc).0[0] == section_packet(sections[0], pid, cc, 0),
    decreases sections.len(),
{
    if sections.len() > 1 {
        lemma_first_packet(sections.drop_last(), pid, cc);
    } else {
        assert(sections.drop_last() =~= Seq::<Seq<u8>>::empty());
        let more = section_packets(sections[0], pid, cc);
        assert(packed(sections.drop_last(), pid, cc) == (Seq::<Seq<u8>>::empty(), cc));
        assert(packed(sections, pid, cc).0 =~= Seq::<Seq<u8>>::empty() + more);
    }
}

/// The table of the local time tells the time, the country, and the offset of its zone, now
/// and after a change that has no date.
pub proof fn law_local_time_is_told(secs: int, country: Seq<char>, offset: int)
    requires
        encode_utf8(country).len() >= 3,
    ensures
        ({
            let s = tot_bytes(secs, country, offset);
            &&& s.len() == 29
            &&& s[0] == 0x73
            &&& s.subrange(3, 8) == dvb_time_bytes(secs)
            &&& s[10] == 0x58
            &&& s.subrange(12, 15) == encode_utf8(country).take(3)
            &&& s[15] == 0
            &&& s.subrange(16, 18) == offset_field(offset)
            &&& forall|i: int| 18 <= i < 23 ==> s[i] == 0xFF
            &&& s.subrange(23, 25) == offset_field(offset)
            &&& s == with_crc(s.take(25))
            &&& section_total(s) == 29
        }),
{
    lemma_dvb_time_len(secs);
    let time = dvb_time_bytes(secs);
    let c = encode_utf8(country).take(3);
    let o = offset_field(offset);
    let body = seq![0x73u8, 0x70, 0x00] + time + seq![0xF0u8, 15]
        + crate::psi::tot::offset_descriptor(c, o);
    lemma_closed(body);
    let s = tot_bytes(secs, country, offset);
    assert(s == with_crc(with_length(body)));
    assert(s.subrange(3, 8) =~= time);
    assert(s.subrange(12, 15) =~= c);
    assert(s.subrange(16, 18) =~= o);
    assert(s.subrange(23, 25) =~= o);
    assert(s[10] == body[10]);
}

/// The time is told first in UTC and then, where the zone is known, for the country with the
/// offset that the zone has at the reading of the clock.
pub proof fn law_both_times_are_told(
    now: UtcTime,
    clock: UtcTime,
    country: Seq<char>,
    timezone: Seq<char>,
)
    requires
        encode_utf8(country).len() >= 3,
    ensures
        ({
            let s = time_sections(now, clock, country, timezone);
            let offset = zone_offset_of(timezone, clock.secs);
            &&& s.len() == if offset is Some {
                2int
            } else {
                1
            }
            &&& s[0].len() == 8 && s[0][0] == 0x70 && s[0].skip(3) == dvb_time_bytes(
                now.secs as int,
            )
            &&& offset matches Some(o) ==> s[1].len() == 29 && s[1][0] == 0x73 && s[1].subrange(
                3,
                8,
            ) == dvb_time_bytes(now.secs as int) && s[1].subrange(12, 15) == encode_utf8(
                country,
            ).take(3) && s[1].subrange(16, 18) == offset_field(o as int)
        }),
{
    lemma_dvb_time_len(now.secs as int);
    let s = time_sections(now, clock, country, timezone);
    assert(s[0].skip(3) =~= dvb_time_bytes(now.secs as int));
    if let Some(o) = zone_offset_of(timezone, clock.secs) {
        law_local_time_is_told(now.secs as int, country, o as int);
    }
}

} // verus!
