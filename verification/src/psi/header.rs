//! What the tables share: lengths, checksums, texts and the header by which a
//! new version of a table is recognised.

use crate::bits::{be16, join16, lemma_byte_fields};
use crate::packet::{counter_of, payload_start, unit_start, TS_PACKET_SIZE, TS_SYNC_BYTE};
use crate::psi::crc::{push_crc, with_crc};
use crate::psi::section::{section_total, Section};
use crate::psi::time::{high, low};
use vstd::prelude::*;
use vstd::utf8::{encode_utf8, is_char_boundary};

verus! {

/// A section under construction with its length field filled in. The length
/// counts what follows the field and the checksum that is still to come.
pub open spec fn with_length(s: Seq<u8>) -> Seq<u8> {
    let n = (s.len() + 1) % 65536;
    s.update(1, (s[1] & 0xF0) | ((n / 256) as u8)).update(2, (n % 256) as u8)
}

/// The same with the length cut to the twelve bits of its field.
pub open spec fn with_length12(s: Seq<u8>) -> Seq<u8> {
    let n = (s.len() + 1) % 4096;
    s.update(1, (s[1] as int - s[1] as int % 16 + n / 256) as u8).update(2, (n % 256) as u8)
}

proof fn lemma_length_nibble(b: u8, h: u8)
    by (bit_vector)
    requires
        h < 16,
    ensures
        ((b & 0xF0) | h) == b - b % 16 + h,
{
}

/// Up to the longest section both forms agree, and the field then tells how
/// long the section is with its checksum.
pub proof fn law_section_length(s: Seq<u8>)
    requires
        3 <= s.len() <= 4094,
    ensures
        with_length(s) == with_length12(s),
        section_total(with_length(s)) == s.len() + 4,
        section_total(with_crc(with_length(s))) == with_crc(with_length(s)).len(),
{
    let n = s.len() + 1;
    assert(n % 65536 == n && n % 4096 == n);
    lemma_length_nibble(s[1], (n / 256) as u8);
    let l = with_length(s);
    assert(l =~= with_length12(s));
    assert(l[1] == s[1] - s[1] % 16 + n / 256);
    assert(l[2] == n % 256);
    assert(l[1] % 16 == n / 256);
    assert(with_crc(l)[1] == l[1]);
    assert(with_crc(l)[2] == l[2]);
}

/// Filling in the length and adding the checksum leaves what follows the
/// length field as it was, with four bytes behind it.
pub proof fn lemma_finished_tail(s: Seq<u8>, k: int) -> (tail: Seq<u8>)
    requires
        3 <= k <= s.len(),
    ensures
        tail.len() == 4,
        with_crc(with_length12(s)).len() == s.len() + 4,
        with_crc(with_length12(s)).skip(k) == s.skip(k) + tail,
        forall|i: int| 3 <= i < s.len() ==> #[trigger] with_crc(with_length12(s))[i] == s[i],
{
    let t = with_crc(with_length12(s));
    let tail = t.skip(s.len() as int);
    assert(t.skip(k) =~= s.skip(k) + tail);
    tail
}

/// Fills in the length of a section that still lacks its checksum.
pub fn set_section_length(section: &mut [u8])
    requires
        old(section)@.len() >= 3,
    ensures
        final(section)@ == with_length(old(section)@),
{
    let len: u16 = ((section.len() % 65536 + 1) % 65536) as u16;
    section[1] = (section[1] & 0xF0) | high(len);
    section[2] = low(len);
}

/// Fills in the length of a section, cut to the twelve bits of its field.
pub fn set_section_length12(section: &mut Vec<u8>)
    requires
        old(section)@.len() >= 3,
    ensures
        final(section)@ == with_length12(old(section)@),
{
    let short: u16 = (section.len() % 4096) as u16;
    let len: u16 = if short == 4095 {
        0
    } else {
        short + 1
    };
    proof {
        lemma_length_cut(section@.len() as int);
    }
    let top: u8 = section[1];
    let above: u8 = top - top % 16;
    assert(len / 256 <= 15 && above <= 240);
    section.set(1, above + high(len));
    section.set(2, low(len));
}

proof fn lemma_length_cut(n: int)
    requires
        n >= 0,
    ensures
        (n + 1) % 4096 == if n % 4096 == 4095 {
            0
        } else {
            n % 4096 + 1
        },
{
}

/// A section with its checksum at the end.
pub fn section_with_crc(pid: u16, bytes: Vec<u8>) -> (r: Section)
    ensures
        r.pid == pid,
        r.bytes@ == with_crc(bytes@),
{
    let mut bytes = bytes;
    push_crc(&mut bytes);
    Section { pid, bytes }
}

/// The longest prefix of at most `n` bytes that ends between two characters.
pub open spec fn char_cut(text: Seq<u8>, n: int) -> int
    decreases n,
{
    if n <= 0 || is_char_boundary(text, n) {
        n
    } else {
        char_cut(text, n - 1)
    }
}

/// A text in UTF-8 behind the byte that says so, in at most `max_len` bytes.
pub open spec fn dvb_text_of(text: Seq<u8>, max_len: int) -> Seq<u8> {
    let budget = if max_len > 0 {
        max_len - 1
    } else {
        0
    };
    let end = if text.len() < budget {
        text.len() as int
    } else {
        budget
    };
    seq![0x15u8] + text.take(char_cut(text, end))
}

/// A text as tables carry it, cut between two characters to at most `max_len`
/// bytes (and at least the leading one).
pub fn dvb_text(text: &str, max_len: usize) -> (r: Vec<u8>)
    ensures
        r@ == dvb_text_of(encode_utf8(text@), max_len as int),
{
    let bytes = text.as_bytes();
    let budget: usize = if max_len > 0 {
        max_len - 1
    } else {
        0
    };
    let mut end: usize = if bytes.len() < budget {
        bytes.len()
    } else {
        budget
    };
    let ghost first = end as int;
    while end > 0 && !text.is_char_boundary(end)
        invariant
            bytes@ == encode_utf8(text@),
            end <= bytes@.len(),
            char_cut(bytes@, end as int) == char_cut(bytes@, first),
        decreases end,
    {
        end = end - 1;
    }
    let mut out: Vec<u8> = Vec::new();
    out.push(0x15);
    out.extend_from_slice(vstd::slice::slice_subrange(bytes, 0, end));
    assert(out@ =~= dvb_text_of(encode_utf8(text@), max_len as int));
    out
}

proof fn lemma_char_cut(text: Seq<u8>, n: int)
    requires
        vstd::utf8::valid_utf8(text),
        0 <= n <= text.len(),
    ensures
        0 <= char_cut(text, n) <= n,
        is_char_boundary(text, char_cut(text, n)),
    decreases n,
{
    if n > 0 && !is_char_boundary(text, n) {
        lemma_char_cut(text, n - 1);
    }
}

/// A cut text is still a text: what follows the leading byte is valid UTF-8, a
/// prefix of the text, and all of it where there is room.
pub proof fn law_dvb_text_is_text(text: Seq<u8>, max_len: int)
    requires
        vstd::utf8::valid_utf8(text),
    ensures
        vstd::utf8::valid_utf8(dvb_text_of(text, max_len).skip(1)),
        dvb_text_of(text, max_len).skip(1).is_prefix_of(text),
        max_len >= 1 ==> dvb_text_of(text, max_len).len() <= max_len,
        text.len() < max_len ==> dvb_text_of(text, max_len).skip(1) == text,
{
    let budget = if max_len > 0 {
        max_len - 1
    } else {
        0
    };
    let end = if text.len() < budget {
        text.len() as int
    } else {
        budget
    };
    lemma_char_cut(text, end);
    let cut = char_cut(text, end);
    assert(dvb_text_of(text, max_len).skip(1) =~= text.take(cut));
    vstd::utf8::valid_utf8_split(text, cut);
    assert(text.take(cut) =~= text.subrange(0, cut));
    if text.len() < max_len {
        vstd::utf8::is_char_boundary_start_end_of_seq(text);
        assert(text.take(text.len() as int) =~= text);
    }
}

/// The continuity counter of a cached packet, 0 where nothing is cached.
pub open spec fn cached_counter(cached: Seq<u8>) -> int {
    if cached[0] == TS_SYNC_BYTE {
        counter_of(cached)
    } else {
        0
    }
}

/// The continuity counter of a cached packet, 0 where nothing is cached.
pub fn cached_cc(cached_pkt: &[u8; TS_PACKET_SIZE]) -> (r: u8)
    ensures
        r == cached_counter(cached_pkt@),
{
    if cached_pkt[0] == TS_SYNC_BYTE {
        cached_pkt[3] % 16
    } else {
        0
    }
}

/// Table, its extension, its version, and whether it is current.
pub open spec fn header_of(section: Seq<u8>) -> Option<(u8, u16, u8, bool)> {
    if section.len() < 8 {
        None
    } else {
        Some(
            (
                section[0],
                be16(section[3], section[4]) as u16,
                (section[5] / 2) % 32,
                section[5] % 2 == 1,
            ),
        )
    }
}

/// Table, its extension, its version, and whether it is current.
pub fn psi_header(section: &[u8]) -> (r: Option<(u8, u16, u8, bool)>)
    ensures
        r == header_of(section@),
{
    if section.len() < 8 {
        return None;
    }
    Some((section[0], join16(section[3], section[4]), (section[5] / 2) % 32, section[5] % 2 == 1))
}

/// Where the section that starts in a cached packet begins, if its header lies
/// in the packet.
pub open spec fn cached_section_at(cached: Seq<u8>) -> Option<int> {
    if cached[0] != TS_SYNC_BYTE || !unit_start(cached) {
        None
    } else {
        match payload_start(cached) {
            Some(at) => if at < 188 && at + 1 + cached[at] + 8 <= 188 {
                Some(at + 1 + cached[at])
            } else {
                None
            },
            None => None,
        }
    }
}

/// The header of the section that starts in a cached packet.
pub open spec fn cached_header_of(cached: Seq<u8>) -> Option<(u8, u16, u8, bool)> {
    match cached_section_at(cached) {
        Some(at) => header_of(cached.subrange(at, at + 8)),
        None => None,
    }
}

/// The header of the section that starts in a cached packet.
pub fn cached_psi_header(cached_pkt: &[u8; TS_PACKET_SIZE]) -> (r: Option<(u8, u16, u8, bool)>)
    ensures
        r == cached_header_of(cached_pkt@),
{
    proof {
        lemma_byte_fields();
    }
    if cached_pkt[0] != TS_SYNC_BYTE || (cached_pkt[1] & 0x40) == 0 {
        return None;
    }
    let control: u8 = (cached_pkt[3] >> 4u8) & 0x03;
    let at: usize = match control {
        1 => 4,
        3 => 5 + cached_pkt[4] as usize,
        _ => return None,
    };
    if at >= TS_PACKET_SIZE {
        return None;
    }
    let start: usize = at + 1 + cached_pkt[at] as usize;
    if start + 8 > TS_PACKET_SIZE {
        return None;
    }
    psi_header(vstd::slice::slice_subrange(cached_pkt.as_slice(), start, start + 8))
}

/// Whether a section that is current differs from the cached one in its table,
/// extension or version, or the cached one is not current.
pub open spec fn section_changed(cached: Seq<u8>, section: Seq<u8>) -> bool {
    match (header_of(section), cached_header_of(cached)) {
        (Some(new), Some(old_header)) => new.3 && new != old_header,
        _ => false,
    }
}

/// Whether a section that is current differs from the cached one in its table,
/// extension or version, or the cached one is not current.
pub fn psi_section_changed(cached_pkt: &[u8; TS_PACKET_SIZE], section: &[u8]) -> (r: bool)
    ensures
        r == section_changed(cached_pkt@, section@),
{
    match psi_header(section) {
        Some((table, extension, version, current)) => {
            if !current {
                return false;
            }
            match cached_psi_header(cached_pkt) {
                Some((cached_table, cached_extension, cached_version, cached_current)) => {
                    table != cached_table || extension != cached_extension || version
                        != cached_version || !cached_current
                },
                None => false,
            }
        },
        None => false,
    }
}

} // verus!
