//! The event information table: what is on, and what comes next.

use crate::psi::crc::with_crc;
use crate::psi::header::{
    char_cut, dvb_text, dvb_text_of, section_with_crc, set_section_length, with_length,
};
use crate::psi::section::Section;
use crate::psi::time::{
    duration_field, dvb_time_bytes, encode_duration, encode_dvb_time, high, low, UtcTime,
};
use vstd::prelude::*;
use vstd::utf8::{encode_utf8, is_char_boundary, valid_utf8};

verus! {

pub const PID: u16 = 0x0012;

/// The longest part of a text in one descriptor.
pub const MAX_TEXT_CHUNK: usize = 248;

/// A text in parts of at most 248 bytes, each cut between two characters.
pub open spec fn text_chunks(text: Seq<u8>) -> Seq<Seq<u8>>
    decreases text.len(),
{
    if text.len() == 0 {
        Seq::empty()
    } else if text.len() <= 248 {
        seq![text]
    } else {
        let cut = char_cut(text, 248);
        if cut <= 0 || cut > text.len() {
            Seq::empty()
        } else {
            seq![text.take(cut)] + text_chunks(text.skip(cut))
        }
    }
}

/// The descriptor of part `i` of a text, `last` being the number of the last
/// part.
pub open spec fn extended_descriptor(lang: Seq<u8>, i: int, last: int, chunk: Seq<u8>) -> Seq<u8> {
    seq![0x4Eu8, (7 + chunk.len()) as u8, (i * 16 + last) as u8] + lang + seq![
        0x00u8,
        (1 + chunk.len()) as u8,
        0x15u8,
    ] + chunk
}

/// How many parts of a text are sent.
pub open spec fn sent_chunks(n: int) -> int {
    if n < 16 {
        n
    } else {
        16
    }
}

/// The descriptors of a text: one for each part, at most sixteen.
pub open spec fn extended_descriptors(lang: Seq<u8>, text: Seq<u8>) -> Seq<Seq<u8>> {
    let chunks = text_chunks(text);
    let n = sent_chunks(chunks.len() as int);
    Seq::new(n as nat, |i: int| extended_descriptor(lang, i, n - 1, chunks[i]))
}

/// The last place up to 248 where a text can be cut.
fn chunk_len(text: &str) -> (r: usize)
    requires
        encode_utf8(text@).len() > 248,
    ensures
        r == char_cut(encode_utf8(text@), 248),
        r <= 248,
        r > 0 ==> is_char_boundary(encode_utf8(text@), r as int),
{
    let mut end: usize = MAX_TEXT_CHUNK;
    while end > 0 && !text.is_char_boundary(end)
        invariant
            end <= 248,
            char_cut(encode_utf8(text@), end as int) == char_cut(encode_utf8(text@), 248),
        decreases end,
    {
        end = end - 1;
    }
    end
}

/// The parts of a text.
fn split_text(text: &str) -> (r: Vec<Vec<u8>>)
    ensures
        r@.map_values(|v: Vec<u8>| v@) == text_chunks(encode_utf8(text@)),
        forall|i: int| 0 <= i < r@.len() ==> (#[trigger] r@[i])@.len() <= 248,
{
    let mut chunks: Vec<Vec<u8>> = Vec::new();
    let mut remaining: &str = text;
    let ghost whole = text_chunks(encode_utf8(text@));
    assert(chunks@.map_values(|v: Vec<u8>| v@) + whole =~= whole);
    while remaining.as_bytes().len() > MAX_TEXT_CHUNK
        invariant
            chunks@.map_values(|v: Vec<u8>| v@) + text_chunks(encode_utf8(remaining@)) == whole,
            whole == text_chunks(encode_utf8(text@)),
            forall|i: int| 0 <= i < chunks@.len() ==> (#[trigger] chunks@[i])@.len() <= 248,
        decreases encode_utf8(remaining@).len(),
    {
        let ghost bytes = encode_utf8(remaining@);
        let cut = chunk_len(remaining);
        if cut == 0 {
            assert(chunks@.map_values(|v: Vec<u8>| v@) + Seq::<Seq<u8>>::empty()
                =~= chunks@.map_values(|v: Vec<u8>| v@));
            return chunks;
        }
        let (head, tail) = remaining.split_at(cut);
        let ghost before = chunks@;
        chunks.push(vstd::slice::slice_to_vec(head.as_bytes()));
        proof {
            let more = text_chunks(bytes.skip(cut as int));
            assert(bytes.skip(cut as int) =~= encode_utf8(tail@));
            assert(bytes.take(cut as int) =~= encode_utf8(head@));
            assert(chunks@.map_values(|v: Vec<u8>| v@) =~= before.map_values(
                |v: Vec<u8>| v@,
            ).push(encode_utf8(head@)));
            assert(before.map_values(|v: Vec<u8>| v@) + (seq![bytes.take(cut as int)] + more)
                =~= chunks@.map_values(|v: Vec<u8>| v@) + more);
        }
        remaining = tail;
    }
    if remaining.as_bytes().len() > 0 {
        let ghost before = chunks@;
        chunks.push(vstd::slice::slice_to_vec(remaining.as_bytes()));
        assert(chunks@.map_values(|v: Vec<u8>| v@) =~= before.map_values(|v: Vec<u8>| v@) + seq![
            encode_utf8(remaining@),
        ]);
    } else {
        assert(chunks@.map_values(|v: Vec<u8>| v@) + Seq::<Seq<u8>>::empty() =~= chunks@.map_values(
            |v: Vec<u8>| v@,
        ));
    }
    chunks
}

/// The descriptors of a text: one for each part of at most 248 bytes, at most
/// sixteen.
pub fn build_extended_event_descriptors(lang: &[u8; 3], text: &str) -> (r: Vec<Vec<u8>>)
    ensures
        r@.map_values(|v: Vec<u8>| v@) == extended_descriptors(lang@, encode_utf8(text@)),
        forall|i: int| 0 <= i < r@.len() ==> (#[trigger] r@[i])@.len() <= 257,
        r@.len() <= 16,
{
    let chunks = split_text(text);
    let ghost parts = text_chunks(encode_utf8(text@));
    let total: usize = if chunks.len() < 16 {
        chunks.len()
    } else {
        16
    };
    let mut descriptors: Vec<Vec<u8>> = Vec::new();
    let mut i: usize = 0;
    while i < total
        invariant
            i <= total,
            total <= 16,
            total <= chunks@.len(),
            total == sent_chunks(parts.len() as int),
            parts == chunks@.map_values(|v: Vec<u8>| v@),
            forall|k: int| 0 <= k < chunks@.len() ==> (#[trigger] chunks@[k])@.len() <= 248,
            descriptors@.len() == i,
            forall|k: int|
                0 <= k < i ==> (#[trigger] descriptors@[k])@ == extended_descriptor(
                    lang@,
                    k,
                    total - 1,
                    parts[k],
                ) && descriptors@[k]@.len() <= 257,
        decreases total - i,
    {
        let chunk = &chunks[i];
        assert(parts[i as int] == chunk@);
        let mut d: Vec<u8> = Vec::new();
        d.push(0x4E);
        d.push((7 + chunk.len()) as u8);
        d.push((i * 16 + (total - 1)) as u8);
        d.extend_from_slice(lang.as_slice());
        d.push(0x00);
        d.push((1 + chunk.len()) as u8);
        d.push(0x15);
        d.extend_from_slice(chunk.as_slice());
        assert(d@ =~= extended_descriptor(lang@, i as int, total - 1, parts[i as int]));
        descriptors.push(d);
        i = i + 1;
    }
    assert(descriptors@.map_values(|v: Vec<u8>| v@) =~= extended_descriptors(
        lang@,
        encode_utf8(text@),
    ));
    descriptors
}

/// A letter of a language code in lower case.
pub open spec fn lower_letter(b: u8, other: u8) -> u8 {
    if 0x61 <= b <= 0x7A {
        b
    } else if 0x41 <= b <= 0x5A {
        (b + 32) as u8
    } else {
        other
    }
}

/// The letter at a place of a language code.
pub open spec fn lang_letter(lang: Seq<u8>, i: int, other: u8) -> u8 {
    if i < lang.len() {
        lower_letter(lang[i], other)
    } else {
        other
    }
}

/// A language code of three letters in lower case; the letters of `eng` stand
/// where there are none.
pub open spec fn lang_code(lang: Seq<u8>) -> Seq<u8> {
    seq![lang_letter(lang, 0, 0x65), lang_letter(lang, 1, 0x6E), lang_letter(lang, 2, 0x67)]
}

fn letter_of(lang: &[u8], i: usize, other: u8) -> (r: u8)
    ensures
        r == lang_letter(lang@, i as int, other),
{
    if i >= lang.len() {
        return other;
    }
    let b: u8 = lang[i];
    if 0x61 <= b && b <= 0x7A {
        b
    } else if 0x41 <= b && b <= 0x5A {
        b + 32
    } else {
        other
    }
}

/// A language code of three letters in lower case.
pub fn parse_iso_639_2(lang: &str) -> (r: [u8; 3])
    ensures
        r@ == lang_code(encode_utf8(lang@)),
{
    let bytes = lang.as_bytes();
    let r = [letter_of(bytes, 0, 0x65), letter_of(bytes, 1, 0x6E), letter_of(bytes, 2, 0x67)];
    assert(r@ =~= lang_code(encode_utf8(lang@)));
    r
}

/// Parts put one after the other.
pub open spec fn flat(parts: Seq<Seq<u8>>) -> Seq<u8>
    decreases parts.len(),
{
    if parts.len() == 0 {
        Seq::empty()
    } else {
        flat(parts.drop_last()) + parts.last()
    }
}

/// The short text of an event: none where the text needs descriptors of its own.
pub open spec fn short_text(description: Seq<u8>) -> Seq<u8> {
    if description.len() > 160 {
        Seq::empty()
    } else {
        dvb_text_of(description, 160)
    }
}

/// Language, title and short text.
pub open spec fn short_event(lang: Seq<u8>, title: Seq<u8>, description: Seq<u8>) -> Seq<u8> {
    let name = dvb_text_of(title, 80);
    let text = short_text(description);
    lang + seq![name.len() as u8] + name + seq![text.len() as u8] + text
}

/// The descriptors of an event.
pub open spec fn event_descriptors(lang: Seq<u8>, title: Seq<u8>, description: Seq<u8>) -> Seq<u8> {
    let short = short_event(lang, title, description);
    seq![0x4Du8, short.len() as u8] + short + if description.len() > 160 {
        flat(extended_descriptors(lang, description))
    } else {
        Seq::empty()
    }
}

/// The head of a section on the present or the following event.
pub open spec fn eit_head(
    service_id: u16,
    version: u8,
    transport_stream_id: u16,
    original_network_id: u16,
    section_number: u8,
) -> Seq<u8> {
    seq![
        0x4Eu8,
        0xF0,
        0x00,
        (service_id / 256) as u8,
        (service_id % 256) as u8,
        (0xC1 + (version % 32) * 2) as u8,
        section_number,
        0x01,
        (transport_stream_id / 256) as u8,
        (transport_stream_id % 256) as u8,
        (original_network_id / 256) as u8,
        (original_network_id % 256) as u8,
        0x01,
        0x4E,
    ]
}

fn push_head(
    service_id: u16,
    version: u8,
    transport_stream_id: u16,
    original_network_id: u16,
    section_number: u8,
) -> (r: Vec<u8>)
    ensures
        r@ == eit_head(
            service_id,
            version,
            transport_stream_id,
            original_network_id,
            section_number,
        ),
{
    let mut s: Vec<u8> = Vec::new();
    s.push(0x4E);
    s.push(0xF0);
    s.push(0x00);
    s.push(high(service_id));
    s.push(low(service_id));
    s.push(0xC1 + (version % 32) * 2);
    s.push(section_number);
    s.push(0x01);
    s.push(high(transport_stream_id));
    s.push(low(transport_stream_id));
    s.push(high(original_network_id));
    s.push(low(original_network_id));
    s.push(0x01);
    s.push(0x4E);
    assert(s@ =~= eit_head(
        service_id,
        version,
        transport_stream_id,
        original_network_id,
        section_number,
    ));
    s
}

/// A number of seconds in single precision: 24 significant bits, to the nearest
/// and to the even one in the middle; the largest number where it does not fit.
pub open spec fn single_precision(n: int) -> int {
    let unit: int = if n < 0x100_0000 {
        1
    } else if n < 0x200_0000 {
        2
    } else if n < 0x400_0000 {
        4
    } else if n < 0x800_0000 {
        8
    } else if n < 0x1000_0000 {
        16
    } else if n < 0x2000_0000 {
        32
    } else if n < 0x4000_0000 {
        64
    } else if n < 0x8000_0000 {
        128
    } else {
        256
    };
    let q = n / unit;
    let twice = 2 * (n % unit);
    let rounded = (if twice > unit || (twice == unit && q % 2 == 1) {
        q + 1
    } else {
        q
    }) * unit;
    if rounded > u32::MAX {
        u32::MAX as int
    } else {
        rounded
    }
}

fn to_single_precision(n: u32) -> (r: u32)
    ensures
        r == single_precision(n as int),
{
    let unit: u64 = if n < 0x100_0000 {
        1
    } else if n < 0x200_0000 {
        2
    } else if n < 0x400_0000 {
        4
    } else if n < 0x800_0000 {
        8
    } else if n < 0x1000_0000 {
        16
    } else if n < 0x2000_0000 {
        32
    } else if n < 0x4000_0000 {
        64
    } else if n < 0x8000_0000 {
        128
    } else {
        256
    };
    let q: u64 = n as u64 / unit;
    let twice: u64 = 2 * (n as u64 % unit);
    let up: u64 = if twice > unit || (twice == unit && q % 2 == 1) {
        q + 1
    } else {
        q
    };
    assert(up <= 0x1_0000_0000);
    assert(up * unit <= 0x1_0000_0000 * 256) by (nonlinear_arith)
        requires
            up <= 0x1_0000_0000,
            unit <= 256,
    ;
    let rounded: u64 = up * unit;
    if rounded > u32::MAX as u64 {
        u32::MAX
    } else {
        rounded as u32
    }
}

/// A section on an event without its length and checksum.
pub open spec fn event_body(
    head: Seq<u8>,
    event_id: u16,
    time: Seq<u8>,
    duration_seconds: u32,
    descriptors: Seq<u8>,
) -> Seq<u8> {
    let n = descriptors.len() as int;
    head + seq![(event_id / 256) as u8, (event_id % 256) as u8] + time + duration_field(
        single_precision(duration_seconds as int),
    ) + seq![(0x80 + n / 256) as u8, (n % 256) as u8] + descriptors
}

/// The section on an event.
pub open spec fn event_section(
    head: Seq<u8>,
    event_id: u16,
    start: int,
    duration_seconds: u32,
    descriptors: Seq<u8>,
) -> Seq<u8> {
    with_crc(
        with_length(
            event_body(head, event_id, dvb_time_bytes(start), duration_seconds, descriptors),
        ),
    )
}

/// Appends the descriptors of an event.
fn build_descriptors(lang: &[u8; 3], title: &str, description: &str) -> (r: Vec<u8>)
    ensures
        r@ == event_descriptors(lang@, encode_utf8(title@), encode_utf8(description@)),
{
    let name = dvb_text(title, 80);
    let long = description.as_bytes().len() > 160;
    let text = if long {
        Vec::new()
    } else {
        dvb_text(description, 160)
    };
    proof {
        vstd::utf8::encode_utf8_valid_utf8(title@);
        vstd::utf8::encode_utf8_valid_utf8(description@);
        lemma_text_len(encode_utf8(title@), 80);
        lemma_text_len(encode_utf8(description@), 160);
        assert(text@ =~= short_text(encode_utf8(description@)));
    }
    let mut short: Vec<u8> = Vec::new();
    short.extend_from_slice(lang.as_slice());
    short.push(name.len() as u8);
    short.extend_from_slice(name.as_slice());
    short.push(text.len() as u8);
    short.extend_from_slice(text.as_slice());
    assert(short@ =~= short_event(lang@, encode_utf8(title@), encode_utf8(description@)));
    let mut out: Vec<u8> = Vec::new();
    out.push(0x4D);
    out.push(short.len() as u8);
    out.extend_from_slice(short.as_slice());
    let ghost head = out@;
    assert(head =~= seq![0x4Du8, short@.len() as u8] + short@);
    if long {
        let extended = build_extended_event_descriptors(lang, description);
        let ghost parts = extended@.map_values(|v: Vec<u8>| v@);
        let mut i: usize = 0;
        assert(parts.take(0) =~= Seq::<Seq<u8>>::empty());
        assert(head + Seq::<u8>::empty() =~= head);
        while i < extended.len()
            invariant
                i <= extended@.len(),
                parts == extended@.map_values(|v: Vec<u8>| v@),
                out@ == head + flat(parts.take(i as int)),
            decreases extended@.len() - i,
        {
            let ghost before = out@;
            out.extend_from_slice(extended[i].as_slice());
            proof {
                assert(parts.take(i + 1).drop_last() =~= parts.take(i as int));
                assert(parts.take(i + 1).last() == extended@[i as int]@);
                assert(out@ =~= before + extended@[i as int]@);
                assert(head + (flat(parts.take(i as int)) + extended@[i as int]@) =~= out@);
            }
            i = i + 1;
        }
        assert(parts.take(parts.len() as int) =~= parts);
    } else {
        assert(head + Seq::<u8>::empty() =~= head);
    }
    out
}

proof fn lemma_text_len(text: Seq<u8>, max_len: int)
    requires
        valid_utf8(text),
        max_len >= 1,
    ensures
        dvb_text_of(text, max_len).len() <= max_len,
{
    crate::psi::header::law_dvb_text_is_text(text, max_len);
}

/// Writes the section on the present (0) or the following (1) event of a
/// service; none where the descriptors are longer than a section can hold.
pub fn try_present_following_section(
    service_id: u16,
    version: u8,
    transport_stream_id: u16,
    original_network_id: u16,
    section_number: u8,
    event_id: u16,
    start: &UtcTime,
    duration_seconds: u32,
    title: &str,
    description: &str,
    language: &str,
) -> (r: Option<Section>)
    requires
        start.wf(),
    ensures
        ({
            let d = event_descriptors(
                lang_code(encode_utf8(language@)),
                encode_utf8(title@),
                encode_utf8(description@),
            );
            &&& r is Some == (d.len() <= 0x0FFF)
            &&& r matches Some(s) ==> s.pid == PID && s.bytes@ == event_section(
                eit_head(
                    service_id,
                    version,
                    transport_stream_id,
                    original_network_id,
                    section_number,
                ),
                event_id,
                start.secs as int,
                duration_seconds,
                d,
            )
        }),
{
    let lang = parse_iso_639_2(language);
    let descriptors = build_descriptors(&lang, title, description);
    if descriptors.len() > 0x0FFF {
        return None;
    }
    let n: u16 = descriptors.len() as u16;
    let time = encode_dvb_time(start);
    let duration = encode_duration(to_single_precision(duration_seconds));
    let mut s = push_head(
        service_id,
        version,
        transport_stream_id,
        original_network_id,
        section_number,
    );
    let ghost head = s@;
    s.push(high(event_id));
    s.push(low(event_id));
    s.extend_from_slice(time.as_slice());
    s.extend_from_slice(duration.as_slice());
    s.push(0x80 + high(n));
    s.push(low(n));
    s.extend_from_slice(descriptors.as_slice());
    assert(s@ =~= event_body(head, event_id, time@, duration_seconds, descriptors@));
    set_section_length(&mut s);
    Some(section_with_crc(PID, s))
}

/// Writes the section on the present (0) or the following (1) event of a
/// service.
pub fn present_following_section(
    service_id: u16,
    version: u8,
    transport_stream_id: u16,
    original_network_id: u16,
    section_number: u8,
    event_id: u16,
    start: &UtcTime,
    duration_seconds: u32,
    title: &str,
    description: &str,
    language: &str,
) -> (r: Section)
    requires
        start.wf(),
        event_descriptors(
            lang_code(encode_utf8(language@)),
            encode_utf8(title@),
            encode_utf8(description@),
        ).len() <= 0x0FFF,
    ensures
        r.pid == PID,
        r.bytes@ == event_section(
            eit_head(
                service_id,
                version,
                transport_stream_id,
                original_network_id,
                section_number,
            ),
            event_id,
            start.secs as int,
            duration_seconds,
            event_descriptors(
                lang_code(encode_utf8(language@)),
                encode_utf8(title@),
                encode_utf8(description@),
            ),
        ),
{
    match try_present_following_section(
        service_id,
        version,
        transport_stream_id,
        original_network_id,
        section_number,
        event_id,
        start,
        duration_seconds,
        title,
        description,
        language,
    ) {
        Some(s) => s,
        None => Section { pid: PID, bytes: Vec::new() },
    }
}

/// Writes a section that says that there is no present (0) or following (1)
/// event.
pub fn empty_present_following_section(
    service_id: u16,
    version: u8,
    transport_stream_id: u16,
    original_network_id: u16,
    section_number: u8,
) -> (r: Section)
    ensures
        r.pid == PID,
        r.bytes@ == with_crc(
            with_length(
                eit_head(
                    service_id,
                    version,
                    transport_stream_id,
                    original_network_id,
                    section_number,
                ),
            ),
        ),
{
    let mut s = push_head(
        service_id,
        version,
        transport_stream_id,
        original_network_id,
        section_number,
    );
    set_section_length(&mut s);
    section_with_crc(PID, s)
}

proof fn lemma_chunk_cut(text: Seq<u8>)
    requires
        valid_utf8(text),
        text.len() > 248,
    ensures
        245 <= char_cut(text, 248) <= 248,
        is_char_boundary(text, char_cut(text, 248)),
{
    vstd::utf8::is_char_boundary_start_end_of_seq(text);
    lemma_cut_near(text, 248);
}

/// A character has at most four bytes, so a cut loses at most three.
pub proof fn lemma_cut_near(text: Seq<u8>, n: int)
    requires
        valid_utf8(text),
        4 <= n < text.len(),
    ensures
        n - 3 <= char_cut(text, n) <= n,
        is_char_boundary(text, char_cut(text, n)),
{
    lemma_boundary_within(text, n);
    if !is_char_boundary(text, n) {
        if !is_char_boundary(text, n - 1) {
            if !is_char_boundary(text, n - 2) {
                assert(is_char_boundary(text, n - 3));
                assert(char_cut(text, n - 3) == n - 3);
            } else {
                assert(char_cut(text, n - 2) == n - 2);
            }
            assert(char_cut(text, n - 1) == char_cut(text, n - 2));
        } else {
            assert(char_cut(text, n - 1) == n - 1);
        }
        assert(char_cut(text, n) == char_cut(text, n - 1));
    }
}

/// Of four neighbouring places in a text one lies between two characters.
proof fn lemma_boundary_within(text: Seq<u8>, n: int)
    requires
        valid_utf8(text),
        3 <= n <= text.len(),
    ensures
        is_char_boundary(text, n) || is_char_boundary(text, n - 1) || is_char_boundary(text, n - 2)
            || is_char_boundary(text, n - 3),
    decreases text.len(),
{
    let first = vstd::utf8::length_of_first_scalar(text);
    let rest = vstd::utf8::pop_first_scalar(text);
    vstd::utf8::is_char_boundary_start_end_of_seq(text);
    assert(1 <= first <= 4);
    if n < first + 3 {
        assert(is_char_boundary(rest, 0));
        assert(is_char_boundary(text, first as int) == is_char_boundary(rest, 0));
    } else {
        lemma_boundary_within(rest, n - first);
    }
}

/// The parts of a text are the text: put together they give it back. Each is cut
/// between two characters, and each but the last loses at most three bytes by that, so
/// that a text of up to 3920 bytes fits sixteen parts.
pub proof fn law_text_chunks_join(text: Seq<u8>)
    requires
        valid_utf8(text),
    ensures
        crate::mux::laws::joined(text_chunks(text)) == text,
        forall|i: int|
            0 <= i < text_chunks(text).len() ==> 0 < (#[trigger] text_chunks(text)[i]).len() <= 248
                && valid_utf8(text_chunks(text)[i]),
        forall|i: int|
            0 <= i < text_chunks(text).len() - 1 ==> (#[trigger] text_chunks(text)[i]).len() >= 245,
        text_chunks(text).len() > 0 ==> text.len() > 245 * (text_chunks(text).len() - 1),
        text.len() <= 3920 ==> text_chunks(text).len() <= 16,
    decreases text.len(),
{
    let chunks = text_chunks(text);
    if text.len() == 0 {
        assert(crate::mux::laws::joined(chunks) =~= text);
    } else if text.len() <= 248 {
        assert(chunks.drop_first() =~= Seq::<Seq<u8>>::empty());
        assert(crate::mux::laws::joined(chunks.drop_first()) =~= Seq::<u8>::empty());
        assert(crate::mux::laws::joined(chunks) =~= text);
    } else {
        lemma_chunk_cut(text);
        let cut = char_cut(text, 248);
        vstd::utf8::valid_utf8_split(text, cut);
        assert(text.skip(cut) =~= text.subrange(cut, text.len() as int));
        assert(text.take(cut) =~= text.subrange(0, cut));
        law_text_chunks_join(text.skip(cut));
        let rest = text_chunks(text.skip(cut));
        assert(chunks.drop_first() =~= rest);
        assert(text.take(cut) + text.skip(cut) =~= text);
        assert forall|i: int| 0 <= i < chunks.len() implies 0 < (#[trigger] chunks[i]).len() <= 248
            && valid_utf8(chunks[i]) by {
            if i > 0 {
                assert(chunks[i] == rest[i - 1]);
            }
        }
        assert forall|i: int| 0 <= i < chunks.len() - 1 implies (#[trigger] chunks[i]).len()
            >= 245 by {
            if i > 0 {
                assert(chunks[i] == rest[i - 1]);
            }
        }
    }
}

} // verus!
