//! The program map table: the elementary streams of a program.

use crate::bits::join16;
use crate::psi::crc::{push_crc, with_crc};
use crate::psi::header::{lemma_finished_tail, set_section_length12, with_length12};
use crate::psi::pairs::{is_same_pairs, same_pairs};
use crate::psi::time::{high, low};
use crate::text::{lossy_text, utf8_lossy};
use vstd::prelude::*;

verus! {

/// An elementary stream of a program: its type, its packet identifier, the
/// language that its descriptors name, and what was found out about it.
#[derive(Debug, Clone)]
pub struct StreamInfo {
    pub stream_type: u8,
    pub pid: u16,
    pub lang: Option<String>,
    pub description: String,
}

/// What an elementary stream is.
pub struct StreamModel {
    pub stream_type: u8,
    pub pid: u16,
    pub lang: Option<Seq<char>>,
    pub description: Seq<char>,
}

/// The text that an optional string holds.
pub open spec fn text_of(s: Option<String>) -> Option<Seq<char>> {
    match s {
        Some(t) => Some(t@),
        None => None,
    }
}

impl View for StreamInfo {
    type V = StreamModel;

    open spec fn view(&self) -> StreamModel {
        StreamModel {
            stream_type: self.stream_type,
            pid: self.pid,
            lang: text_of(self.lang),
            description: self.description@,
        }
    }
}

/// A program's clock and its elementary streams.
#[derive(Debug, Clone)]
pub struct PmtInfo {
    pub pcr_pid: u16,
    pub streams: Vec<StreamInfo>,
}

/// What a program map says.
pub struct PmtModel {
    pub pcr_pid: u16,
    pub streams: Seq<StreamModel>,
}

/// What the elementary streams of a list are.
pub open spec fn streams_view(s: Seq<StreamInfo>) -> Seq<StreamModel> {
    s.map_values(|i: StreamInfo| i@)
}

impl View for PmtInfo {
    type V = PmtModel;

    open spec fn view(&self) -> PmtModel {
        PmtModel { pcr_pid: self.pcr_pid, streams: streams_view(self.streams@) }
    }
}

/// A packet identifier of thirteen bits.
pub open spec fn pid13(hi: u8, lo: u8) -> u16 {
    ((hi as int % 32) * 256 + lo) as u16
}

/// A length of twelve bits.
pub open spec fn len12(hi: u8, lo: u8) -> int {
    (hi as int % 16) * 256 + lo
}

/// The language that the last language descriptor names, `found` where there
/// is none. Descriptors are read up to the first that lies behind the end.
pub open spec fn lang_from(d: Seq<u8>, found: Option<Seq<char>>) -> Option<Seq<char>>
    decreases d.len(),
{
    if d.len() < 2 || 2 + d[1] > d.len() {
        found
    } else {
        lang_from(
            d.skip(2 + d[1] as int),
            if d[0] == 0x0A && d[1] >= 3 {
                Some(lossy_text(d.subrange(2, 5)))
            } else {
                found
            },
        )
    }
}

/// The language that descriptors name.
pub open spec fn lang_of(d: Seq<u8>) -> Option<Seq<char>> {
    lang_from(d, None)
}

/// The elementary streams that the rest of a map lists, the checksum at its
/// end left aside; none where descriptors lie behind the end.
pub open spec fn streams_of(rest: Seq<u8>) -> Option<Seq<StreamModel>>
    decreases rest.len(),
{
    if rest.len() < 9 {
        Some(Seq::empty())
    } else {
        let end = 5 + len12(rest[3], rest[4]);
        if end > rest.len() {
            None
        } else {
            match streams_of(rest.skip(end)) {
                Some(more) => Some(
                    seq![
                        StreamModel {
                            stream_type: rest[0],
                            pid: pid13(rest[1], rest[2]),
                            lang: lang_of(rest.subrange(5, end)),
                            description: Seq::empty(),
                        },
                    ] + more,
                ),
                None => None,
            }
        }
    }
}

/// What a section says as a program map, if it holds all that its lengths
/// announce.
pub open spec fn pmt_of(section: Seq<u8>) -> Option<PmtModel> {
    if section.len() < 12 {
        None
    } else {
        let at = 12 + len12(section[10], section[11]);
        let listed = if at > section.len() {
            Some(Seq::empty())
        } else {
            streams_of(section.skip(at))
        };
        match listed {
            Some(streams) => Some(PmtModel { pcr_pid: pid13(section[8], section[9]), streams }),
            None => None,
        }
    }
}

fn read_len12(hi: u8, lo: u8) -> (r: usize)
    ensures
        r == len12(hi, lo),
        r <= 4095,
{
    join16(hi % 16, lo) as usize
}

/// The language that descriptors name.
pub fn descriptors_lang(data: &[u8]) -> (r: Option<String>)
    ensures
        text_of(r) == lang_of(data@),
{
    let mut lang: Option<String> = None;
    let mut i: usize = 0;
    assert(data@.skip(0) =~= data@);
    while i < data.len() && data.len() - i >= 2
        invariant_except_break
            i <= data@.len(),
            data@.len() == data.len(),
            lang_from(data@.skip(i as int), text_of(lang)) == lang_of(data@),
        ensures
            text_of(lang) == lang_of(data@),
        decreases data@.len() - i,
    {
        let ghost rest = data@.skip(i as int);
        let len: usize = data[i + 1] as usize;
        assert(rest[0] == data@[i as int] && rest[1] == len);
        if len > data.len() - i - 2 {
            break;
        }
        if data[i] == 0x0A && len >= 3 {
            lang = Some(utf8_lossy(vstd::slice::slice_subrange(data, i + 2, i + 5)));
            assert(rest.subrange(2, 5) =~= data@.subrange(i + 2, i + 5));
        }
        assert(rest.skip(2 + len as int) =~= data@.skip(i + 2 + len));
        i = i + 2 + len;
    }
    lang
}

/// Reads a program map; none where its lengths announce more than it holds.
pub fn try_analyze_pmt(section: &[u8]) -> (r: Option<PmtInfo>)
    ensures
        r is Some == pmt_of(section@) is Some,
        r matches Some(info) ==> pmt_of(section@) == Some(info@),
{
    if section.len() < 12 {
        return None;
    }
    let pcr_pid = join16(section[8] % 32, section[9]);
    let mut pos: usize = 12 + read_len12(section[10], section[11]);
    let mut streams: Vec<StreamInfo> = Vec::new();
    if pos > section.len() {
        assert(streams_view(streams@) =~= Seq::<StreamModel>::empty());
        return Some(PmtInfo { pcr_pid, streams });
    }
    let ghost whole = streams_of(section@.skip(pos as int));
    assert(streams_view(streams@) =~= Seq::<StreamModel>::empty());
    while section.len() - pos >= 9
        invariant
            pos <= section@.len(),
            section@.len() == section.len(),
            pmt_of(section@) is Some == whole is Some,
            whole is Some ==> pmt_of(section@) == Some(PmtModel { pcr_pid, streams: whole->0 }),
            whole is Some == streams_of(section@.skip(pos as int)) is Some,
            whole is Some ==> whole->0 == streams_view(streams@) + streams_of(
                section@.skip(pos as int),
            )->0,
        decreases section@.len() - pos,
    {
        let ghost rest = section@.skip(pos as int);
        let es_info_len = read_len12(section[pos + 3], section[pos + 4]);
        assert(rest[0] == section@[pos as int] && rest[1] == section@[pos + 1] && rest[2]
            == section@[pos + 2] && rest[3] == section@[pos + 3] && rest[4] == section@[pos + 4]);
        if es_info_len > section.len() - pos - 5 {
            return None;
        }
        let end: usize = pos + 5 + es_info_len;
        let lang = descriptors_lang(vstd::slice::slice_subrange(section, pos + 5, end));
        assert(rest.subrange(5, 5 + es_info_len as int) =~= section@.subrange(pos + 5, end as int));
        let stream = StreamInfo {
            stream_type: section[pos],
            pid: join16(section[pos + 1] % 32, section[pos + 2]),
            lang,
            description: String::new(),
        };
        let ghost before = streams@;
        streams.push(stream);
        proof {
            assert(rest.skip(5 + es_info_len as int) =~= section@.skip(end as int));
            assert(stream@.description =~= Seq::<char>::empty());
            assert(streams_view(streams@) =~= streams_view(before).push(stream@));
            if whole is Some {
                let more = streams_of(section@.skip(end as int))->0;
                assert(streams_view(before) + (seq![stream@] + more) =~= streams_view(streams@)
                    + more);
            }
        }
        pos = end;
    }
    assert(streams_view(streams@) + Seq::<StreamModel>::empty() =~= streams_view(streams@));
    Some(PmtInfo { pcr_pid, streams })
}

/// Reads a program map.
pub fn analyze_pmt(section: &[u8]) -> (r: PmtInfo)
    requires
        pmt_of(section@) is Some,
    ensures
        pmt_of(section@) == Some(r@),
{
    match try_analyze_pmt(section) {
        Some(info) => info,
        None => PmtInfo { pcr_pid: 0, streams: Vec::new() },
    }
}

/// Descriptors without those of conditional access. They are read up to the
/// first that lies behind the end.
pub open spec fn without_ca(d: Seq<u8>) -> Seq<u8>
    decreases d.len(),
{
    if d.len() < 2 || 2 + d[1] > d.len() {
        Seq::empty()
    } else {
        let rest = without_ca(d.skip(2 + d[1] as int));
        if d[0] != 0x09 {
            d.take(2 + d[1] as int) + rest
        } else {
            rest
        }
    }
}

/// Descriptors as they are passed on.
pub open spec fn patched_descriptors(d: Seq<u8>, strip_ca: bool) -> Seq<u8> {
    if strip_ca {
        without_ca(d)
    } else {
        d
    }
}

/// Descriptors as they are passed on: all of them, or those that are not of
/// conditional access.
pub fn patch_descriptors(descriptors: &[u8], strip_ca_descriptors: bool) -> (r: Vec<u8>)
    ensures
        r@ == patched_descriptors(descriptors@, strip_ca_descriptors),
        r@.len() <= descriptors@.len(),
{
    if !strip_ca_descriptors {
        return vstd::slice::slice_to_vec(descriptors);
    }
    let mut patched: Vec<u8> = Vec::new();
    let mut pos: usize = 0;
    assert(descriptors@.skip(0) =~= descriptors@);
    while pos < descriptors.len() && descriptors.len() - pos >= 2
        invariant_except_break
            pos <= descriptors@.len(),
            descriptors@.len() == descriptors.len(),
            patched@.len() <= pos,
            patched@ + without_ca(descriptors@.skip(pos as int)) == without_ca(descriptors@),
        ensures
            patched@ == without_ca(descriptors@),
            patched@.len() <= descriptors@.len(),
        decreases descriptors@.len() - pos,
    {
        let ghost rest = descriptors@.skip(pos as int);
        let len: usize = descriptors[pos + 1] as usize;
        assert(rest[0] == descriptors@[pos as int] && rest[1] == len);
        if len > descriptors.len() - pos - 2 {
            assert(patched@ + Seq::<u8>::empty() =~= patched@);
            break;
        }
        let end: usize = pos + 2 + len;
        let ghost before = patched@;
        assert(rest.skip(2 + len as int) =~= descriptors@.skip(end as int));
        if descriptors[pos] != 0x09 {
            patched.extend_from_slice(vstd::slice::slice_subrange(descriptors, pos, end));
            proof {
                let more = without_ca(descriptors@.skip(end as int));
                assert(patched@ =~= before + rest.take(2 + len as int));
                assert(before + (rest.take(2 + len as int) + more) =~= patched@ + more);
            }
        }
        pos = end;
        assert(pos + 2 > descriptors@.len() ==> patched@ + without_ca(
            descriptors@.skip(pos as int),
        ) =~= patched@);
    }
    patched
}

/// The identifier that a list gives in place of another: that of the first
/// entry for it.
pub open spec fn mapped_pid(mappings: Seq<(u16, u16)>, pid: u16) -> Option<u16>
    decreases mappings.len(),
{
    if mappings.len() == 0 {
        None
    } else if mappings[0].0 == pid {
        Some(mappings[0].1)
    } else {
        mapped_pid(mappings.drop_first(), pid)
    }
}

fn find_mapping(mappings: &[(u16, u16)], pid: u16) -> (r: Option<u16>)
    ensures
        r == mapped_pid(mappings@, pid),
{
    let mut i: usize = 0;
    assert(mappings@.skip(0) =~= mappings@);
    while i < mappings.len()
        invariant
            i <= mappings@.len(),
            mapped_pid(mappings@.skip(i as int), pid) == mapped_pid(mappings@, pid),
        decreases mappings@.len() - i,
    {
        assert(mappings@.skip(i as int)[0] == mappings@[i as int]);
        assert(mappings@.skip(i as int).drop_first() =~= mappings@.skip(i + 1));
        if mappings[i].0 == pid {
            return Some(mappings[i].1);
        }
        i = i + 1;
    }
    None
}

/// An elementary stream's entry.
pub open spec fn stream_entry(stream_type: u8, pid: u16, descriptors: Seq<u8>) -> Seq<u8> {
    let n = descriptors.len() as int;
    seq![
        stream_type,
        ((pid / 256) % 32 + 0xE0) as u8,
        (pid % 256) as u8,
        ((n / 256) % 16 + 0xF0) as u8,
        (n % 256) as u8,
    ] + descriptors
}

/// The entries that are passed on from the rest of a map: those of the streams
/// that the list names, under the identifiers that it gives. None where the
/// descriptors of such a stream lie behind the end.
pub open spec fn patched_streams(
    rest: Seq<u8>,
    mappings: Seq<(u16, u16)>,
    strip_ca: bool,
) -> Option<Seq<u8>>
    decreases rest.len(),
{
    if rest.len() < 9 {
        Some(Seq::empty())
    } else {
        let end = 5 + len12(rest[3], rest[4]);
        let more = if end > rest.len() {
            Some(Seq::empty())
        } else {
            patched_streams(rest.skip(end), mappings, strip_ca)
        };
        match (mapped_pid(mappings, pid13(rest[1], rest[2])), more) {
            (None, _) => more,
            (Some(pid), Some(entries)) => if end > rest.len() {
                None
            } else {
                Some(
                    stream_entry(
                        rest[0],
                        pid,
                        patched_descriptors(rest.subrange(5, end), strip_ca),
                    ) + entries,
                )
            },
            (Some(_), None) => None,
        }
    }
}

/// The map that is passed on, up to the list of streams.
pub open spec fn patched_pmt_head(original: Seq<u8>, pcr_pid: u16, strip_ca: bool) -> Seq<u8> {
    let d = patched_descriptors(
        original.subrange(12, 12 + len12(original[10], original[11])),
        strip_ca,
    );
    let n = d.len() as int;
    original.take(8) + seq![
        ((pcr_pid / 256) % 32 + 0xE0) as u8,
        (pcr_pid % 256) as u8,
        ((n / 256) % 16 + 0xF0) as u8,
        (n % 256) as u8,
    ] + d
}

/// The map that is passed on; none where the lengths announce more than there
/// is.
pub open spec fn patched_pmt(
    original: Seq<u8>,
    pcr_pid: u16,
    mappings: Seq<(u16, u16)>,
    strip_ca: bool,
) -> Option<Seq<u8>> {
    if original.len() < 12 || 12 + len12(original[10], original[11]) > original.len() {
        None
    } else {
        match patched_streams(
            original.skip(12 + len12(original[10], original[11])),
            mappings,
            strip_ca,
        ) {
            Some(entries) => Some(
                with_crc(with_length12(patched_pmt_head(original, pcr_pid, strip_ca) + entries)),
            ),
            None => None,
        }
    }
}

/// Appends the entry of an elementary stream.
fn push_stream_entry(out: &mut Vec<u8>, stream_type: u8, pid: u16, descriptors: &Vec<u8>)
    requires
        descriptors@.len() <= 4095,
    ensures
        final(out)@ == old(out)@ + stream_entry(stream_type, pid, descriptors@),
{
    let n: u16 = descriptors.len() as u16;
    out.push(stream_type);
    out.push(high(pid) % 32 + 0xE0);
    out.push(low(pid));
    out.push(high(n) % 16 + 0xF0);
    out.push(low(n));
    out.extend_from_slice(descriptors.as_slice());
    assert(out@ =~= old(out)@ + stream_entry(stream_type, pid, descriptors@));
}

/// The entries that are passed on from a place of a map on; none where the
/// descriptors of such a stream lie behind the end.
fn patch_streams(s: &[u8], start: usize, mappings: &[(u16, u16)], strip_ca: bool) -> (r: Option<
    Vec<u8>,
>)
    requires
        start <= s@.len(),
    ensures
        r is Some == patched_streams(s@.skip(start as int), mappings@, strip_ca) is Some,
        r matches Some(out) ==> patched_streams(s@.skip(start as int), mappings@, strip_ca)
            == Some(out@),
{
    let mut out: Vec<u8> = Vec::new();
    let mut pos: usize = start;
    let ghost whole = patched_streams(s@.skip(start as int), mappings@, strip_ca);
    assert(whole is Some ==> whole->0 =~= out@ + whole->0);
    while s.len() - pos >= 9
        invariant
            pos <= s@.len(),
            s@.len() == s.len(),
            whole == patched_streams(s@.skip(start as int), mappings@, strip_ca),
            whole is Some == patched_streams(s@.skip(pos as int), mappings@, strip_ca) is Some,
            whole is Some ==> whole->0 == out@ + patched_streams(
                s@.skip(pos as int),
                mappings@,
                strip_ca,
            )->0,
        decreases s@.len() - pos,
    {
        let ghost rest = s@.skip(pos as int);
        let ghost before = out@;
        let es_info_len = read_len12(s[pos + 3], s[pos + 4]);
        let old_es_pid = join16(s[pos + 1] % 32, s[pos + 2]);
        assert(rest[0] == s@[pos as int] && rest[1] == s@[pos + 1] && rest[2] == s@[pos + 2]
            && rest[3] == s@[pos + 3] && rest[4] == s@[pos + 4]);
        let mapped = find_mapping(mappings, old_es_pid);
        if es_info_len > s.len() - pos - 5 {
            if mapped.is_some() {
                return None;
            }
            assert(before + Seq::<u8>::empty() =~= out@);
            return Some(out);
        }
        let end: usize = pos + 5 + es_info_len;
        let ghost more = patched_streams(rest.skip(5 + es_info_len as int), mappings@, strip_ca);
        assert(rest.skip(5 + es_info_len as int) =~= s@.skip(end as int));
        if let Some(new_es_pid) = mapped {
            let descriptors = patch_descriptors(
                vstd::slice::slice_subrange(s, pos + 5, end),
                strip_ca,
            );
            assert(rest.subrange(5, 5 + es_info_len as int) =~= s@.subrange(pos + 5, end as int));
            push_stream_entry(&mut out, s[pos], new_es_pid, &descriptors);
            proof {
                if more is Some {
                    let entry = stream_entry(rest[0], new_es_pid, descriptors@);
                    assert(before + (entry + more->0) =~= out@ + more->0);
                }
            }
        }
        pos = end;
    }
    assert(out@ + Seq::<u8>::empty() =~= out@);
    Some(out)
}

/// Writes the map that is passed on: another clock, and of the elementary
/// streams those that `es_mappings` names, under the identifiers that it gives,
/// with or without their descriptors of conditional access. None where the
/// lengths announce more than there is.
pub fn try_patch_pmt_section(
    original_section: &[u8],
    new_pcr_pid: u16,
    es_mappings: &[(u16, u16)],
    strip_ca_descriptors: bool,
) -> (r: Option<Vec<u8>>)
    ensures
        r is Some == patched_pmt(
            original_section@,
            new_pcr_pid,
            es_mappings@,
            strip_ca_descriptors,
        ) is Some,
        r matches Some(out) ==> patched_pmt(
            original_section@,
            new_pcr_pid,
            es_mappings@,
            strip_ca_descriptors,
        ) == Some(out@),
{
    let s = original_section;
    if s.len() < 12 {
        return None;
    }
    let prog_info_len = read_len12(s[10], s[11]);
    if prog_info_len > s.len() - 12 {
        return None;
    }
    let pos: usize = 12 + prog_info_len;
    let program_descriptors = patch_descriptors(
        vstd::slice::slice_subrange(s, 12, pos),
        strip_ca_descriptors,
    );
    let entries = match patch_streams(s, pos, es_mappings, strip_ca_descriptors) {
        Some(entries) => entries,
        None => return None,
    };
    let n: u16 = program_descriptors.len() as u16;
    let mut out: Vec<u8> = Vec::new();
    out.extend_from_slice(vstd::slice::slice_subrange(s, 0, 8));
    out.push(high(new_pcr_pid) % 32 + 0xE0);
    out.push(low(new_pcr_pid));
    out.push(high(n) % 16 + 0xF0);
    out.push(low(n));
    out.extend_from_slice(program_descriptors.as_slice());
    assert(out@ =~= patched_pmt_head(s@, new_pcr_pid, strip_ca_descriptors));
    out.extend_from_slice(entries.as_slice());
    assert(out@ =~= patched_pmt_head(s@, new_pcr_pid, strip_ca_descriptors) + entries@);
    set_section_length12(&mut out);
    push_crc(&mut out);
    Some(out)
}

/// Writes the map that is passed on: another clock, and of the elementary
/// streams those that `es_mappings` names, under the identifiers that it gives,
/// with or without their descriptors of conditional access.
pub fn patch_pmt_section(
    original_section: &[u8],
    new_pcr_pid: u16,
    es_mappings: &[(u16, u16)],
    strip_ca_descriptors: bool,
) -> (r: Vec<u8>)
    requires
        patched_pmt(original_section@, new_pcr_pid, es_mappings@, strip_ca_descriptors) is Some,
    ensures
        patched_pmt(original_section@, new_pcr_pid, es_mappings@, strip_ca_descriptors) == Some(r@),
{
    match try_patch_pmt_section(original_section, new_pcr_pid, es_mappings, strip_ca_descriptors) {
        Some(out) => out,
        None => Vec::new(),
    }
}

/// Type and packet identifier of each stream.
pub open spec fn stream_pairs(s: Seq<StreamModel>) -> Seq<(u16, u16)> {
    s.map_values(|i: StreamModel| (i.stream_type as u16, i.pid))
}

/// Whether two maps differ in their clock or their streams. The order of the
/// streams does not count, nor do their descriptors.
pub open spec fn pmt_changed(a: PmtModel, b: PmtModel) -> bool {
    a.pcr_pid != b.pcr_pid || !same_pairs(stream_pairs(a.streams), stream_pairs(b.streams))
}

fn to_pairs(s: &Vec<StreamInfo>) -> (r: Vec<(u16, u16)>)
    ensures
        r@ == stream_pairs(streams_view(s@)),
{
    let mut pairs: Vec<(u16, u16)> = Vec::new();
    let mut i: usize = 0;
    while i < s.len()
        invariant
            i <= s@.len(),
            pairs@ == stream_pairs(streams_view(s@.take(i as int))),
        decreases s@.len() - i,
    {
        pairs.push((s[i].stream_type as u16, s[i].pid));
        i = i + 1;
        assert(pairs@ =~= stream_pairs(streams_view(s@.take(i as int))));
    }
    assert(s@.take(s@.len() as int) =~= s@);
    pairs
}

/// Whether two maps differ in their clock or their streams. The order of the
/// streams does not count, nor do their descriptors.
pub fn is_pmt_changed(a: &PmtInfo, b: &PmtInfo) -> (r: bool)
    ensures
        r == pmt_changed(a@, b@),
{
    if a.pcr_pid != b.pcr_pid {
        return true;
    }
    let pa = to_pairs(&a.streams);
    let pb = to_pairs(&b.streams);
    !is_same_pairs(&pa, &pb)
}

/// What a receiver finds in the list of streams that is passed on.
pub open spec fn passed_streams(
    rest: Seq<u8>,
    mappings: Seq<(u16, u16)>,
    strip_ca: bool,
) -> Seq<StreamModel>
    decreases rest.len(),
{
    if rest.len() < 9 || 5 + len12(rest[3], rest[4]) > rest.len() {
        Seq::empty()
    } else {
        let end = 5 + len12(rest[3], rest[4]);
        let more = passed_streams(rest.skip(end), mappings, strip_ca);
        match mapped_pid(mappings, pid13(rest[1], rest[2])) {
            None => more,
            Some(pid) => seq![
                StreamModel {
                    stream_type: rest[0],
                    pid: pid % 0x2000,
                    lang: lang_of(rest.subrange(5, end)),
                    description: Seq::empty(),
                },
            ] + more,
        }
    }
}

proof fn lemma_lang_without_ca(d: Seq<u8>, found: Option<Seq<char>>)
    ensures
        lang_from(without_ca(d), found) == lang_from(d, found),
        without_ca(d).len() <= d.len(),
    decreases d.len(),
{
    if d.len() < 2 || 2 + d[1] > d.len() {
    } else {
        let end = 2 + d[1] as int;
        let rest = d.skip(end);
        let next = if d[0] == 0x0A && d[1] >= 3 {
            Some(lossy_text(d.subrange(2, 5)))
        } else {
            found
        };
        lemma_lang_without_ca(rest, next);
        if d[0] != 0x09 {
            let w = without_ca(d);
            assert(w =~= d.take(end) + without_ca(rest));
            assert(w[0] == d[0] && w[1] == d[1]);
            assert(w.skip(end) =~= without_ca(rest));
            if d[0] == 0x0A && d[1] >= 3 {
                assert(w.subrange(2, 5) =~= d.subrange(2, 5));
            }
        }
    }
}

proof fn lemma_field_bytes(pid: u16, n: int)
    requires
        0 <= n <= 4095,
    ensures
        pid13(((pid / 256) % 32 + 0xE0) as u8, (pid % 256) as u8) == pid % 0x2000,
        len12(((n / 256) % 16 + 0xF0) as u8, (n % 256) as u8) == n,
{
}

/// Reading what was written gives the streams that are passed on, whatever
/// four bytes follow.
proof fn lemma_patched_streams_read(
    rest: Seq<u8>,
    mappings: Seq<(u16, u16)>,
    strip_ca: bool,
    tail: Seq<u8>,
)
    requires
        patched_streams(rest, mappings, strip_ca) is Some,
        tail.len() == 4,
    ensures
        streams_of(patched_streams(rest, mappings, strip_ca)->0 + tail) == Some(
            passed_streams(rest, mappings, strip_ca),
        ),
    decreases rest.len(),
{
    let written = patched_streams(rest, mappings, strip_ca)->0;
    if rest.len() < 9 {
    } else {
        let end = 5 + len12(rest[3], rest[4]);
        if end > rest.len() {
        } else {
            lemma_patched_streams_read(rest.skip(end), mappings, strip_ca, tail);
            let more = patched_streams(rest.skip(end), mappings, strip_ca)->0;
            match mapped_pid(mappings, pid13(rest[1], rest[2])) {
                None => {},
                Some(pid) => {
                    let original = rest.subrange(5, end);
                    let d = patched_descriptors(original, strip_ca);
                    lemma_lang_without_ca(original, None);
                    assert(d.len() <= 4095);
                    let entry = stream_entry(rest[0], pid, d);
                    let all = entry + more + tail;
                    let n = d.len() as int;
                    assert(written + tail =~= all);
                    assert(all[0] == entry[0] && all[1] == entry[1] && all[2] == entry[2]
                        && all[3] == entry[3] && all[4] == entry[4]);
                    lemma_field_bytes(pid, n);
                    assert(all.subrange(5, 5 + n) =~= d);
                    assert(all.skip(5 + n) =~= more + tail);
                },
            }
        }
    }
}

/// A map that is passed on says what it was told to say: the new clock, and the
/// streams of the list under their new identifiers with their languages.
pub proof fn law_patched_pmt_lists(
    original: Seq<u8>,
    pcr_pid: u16,
    mappings: Seq<(u16, u16)>,
    strip_ca: bool,
)
    requires
        patched_pmt(original, pcr_pid, mappings, strip_ca) is Some,
    ensures
        pmt_of(patched_pmt(original, pcr_pid, mappings, strip_ca)->0) == Some(
            PmtModel {
                pcr_pid: pcr_pid % 0x2000,
                streams: passed_streams(
                    original.skip(12 + len12(original[10], original[11])),
                    mappings,
                    strip_ca,
                ),
            },
        ),
{
    let at = 12 + len12(original[10], original[11]);
    let rest = original.skip(at);
    let entries = patched_streams(rest, mappings, strip_ca)->0;
    let head = patched_pmt_head(original, pcr_pid, strip_ca);
    let d = patched_descriptors(original.subrange(12, at), strip_ca);
    lemma_lang_without_ca(original.subrange(12, at), None);
    let n = d.len() as int;
    let body = head + entries;
    let tail = lemma_finished_tail(body, 12 + n);
    let t = with_crc(with_length12(body));
    assert(body.skip(12 + n) =~= entries);
    assert(t[8] == head[8] && t[9] == head[9] && t[10] == head[10] && t[11] == head[11]);
    lemma_field_bytes(pcr_pid, n);
    lemma_patched_streams_read(rest, mappings, strip_ca, tail);
}

/// The streams of a list that the mappings name, in their order, each under the
/// identifier that the first mapping of it gives.
pub open spec fn mapped_streams(
    streams: Seq<StreamModel>,
    mappings: Seq<(u16, u16)>,
) -> Seq<StreamModel>
    decreases streams.len(),
{
    if streams.len() == 0 {
        Seq::empty()
    } else {
        let more = mapped_streams(streams.drop_first(), mappings);
        match mapped_pid(mappings, streams[0].pid) {
            None => more,
            Some(pid) => seq![StreamModel { pid, ..streams[0] }] + more,
        }
    }
}

/// Whether every identifier that the mappings give fits its field.
pub open spec fn pids_fit(mappings: Seq<(u16, u16)>) -> bool {
    forall|i: int| 0 <= i < mappings.len() ==> (#[trigger] mappings[i]).1 < 0x2000
}

proof fn lemma_mapped_pid_fits(mappings: Seq<(u16, u16)>, pid: u16)
    requires
        pids_fit(mappings),
    ensures
        mapped_pid(mappings, pid) matches Some(n) ==> n < 0x2000,
    decreases mappings.len(),
{
    if mappings.len() > 0 && mappings[0].0 != pid {
        let rest = mappings.drop_first();
        assert forall|i: int| 0 <= i < rest.len() implies (#[trigger] rest[i]).1 < 0x2000 by {
            assert(rest[i] == mappings[i + 1]);
        }
        lemma_mapped_pid_fits(rest, pid);
    }
}

proof fn lemma_passed_is_mapped(rest: Seq<u8>, mappings: Seq<(u16, u16)>, strip_ca: bool)
    requires
        streams_of(rest) is Some,
        pids_fit(mappings),
    ensures
        patched_streams(rest, mappings, strip_ca) is Some,
        passed_streams(rest, mappings, strip_ca) == mapped_streams(streams_of(rest)->0, mappings),
    decreases rest.len(),
{
    if rest.len() >= 9 {
        let end = 5 + len12(rest[3], rest[4]);
        let streams = streams_of(rest)->0;
        lemma_passed_is_mapped(rest.skip(end), mappings, strip_ca);
        lemma_mapped_pid_fits(mappings, streams[0].pid);
        assert(streams.drop_first() =~= streams_of(rest.skip(end))->0);
    }
}

/// Whether no descriptor of conditional access is among these.
pub open spec fn ca_free(d: Seq<u8>) -> bool
    decreases d.len(),
{
    if d.len() < 2 || 2 + d[1] > d.len() {
        true
    } else {
        d[0] != 0x09 && ca_free(d.skip(2 + d[1] as int))
    }
}

proof fn lemma_without_ca_is_free(d: Seq<u8>)
    ensures
        ca_free(without_ca(d)),
        without_ca(d).len() <= d.len(),
    decreases d.len(),
{
    if d.len() < 2 || 2 + d[1] > d.len() {
    } else {
        let end = 2 + d[1] as int;
        lemma_without_ca_is_free(d.skip(end));
        if d[0] != 0x09 {
            let w = without_ca(d);
            assert(w[0] == d[0] && w[1] == d[1]);
            assert(w.skip(end) =~= without_ca(d.skip(end)));
        }
    }
}

/// Whether no stream that the rest of a map lists has a descriptor of conditional
/// access.
pub open spec fn streams_ca_free(rest: Seq<u8>) -> bool
    decreases rest.len(),
{
    if rest.len() < 9 || 5 + len12(rest[3], rest[4]) > rest.len() {
        true
    } else {
        let end = 5 + len12(rest[3], rest[4]);
        ca_free(rest.subrange(5, end)) && streams_ca_free(rest.skip(end))
    }
}

proof fn lemma_patched_streams_free(rest: Seq<u8>, mappings: Seq<(u16, u16)>, tail: Seq<u8>)
    requires
        patched_streams(rest, mappings, true) is Some,
        tail.len() == 4,
    ensures
        streams_ca_free(patched_streams(rest, mappings, true)->0 + tail),
    decreases rest.len(),
{
    let written = patched_streams(rest, mappings, true)->0;
    if rest.len() >= 9 {
        let end = 5 + len12(rest[3], rest[4]);
        if end <= rest.len() {
            lemma_patched_streams_free(rest.skip(end), mappings, tail);
            let more = patched_streams(rest.skip(end), mappings, true)->0;
            if let Some(pid) = mapped_pid(mappings, pid13(rest[1], rest[2])) {
                let d = without_ca(rest.subrange(5, end));
                lemma_without_ca_is_free(rest.subrange(5, end));
                let entry = stream_entry(rest[0], pid, d);
                let all = entry + more + tail;
                let n = d.len() as int;
                assert(written + tail =~= all);
                assert(all[3] == entry[3] && all[4] == entry[4]);
                lemma_field_bytes(pid, n);
                assert(all.subrange(5, 5 + n) =~= d);
                assert(all.skip(5 + n) =~= more + tail);
            }
        }
    }
}

/// A map that is passed on says the same as the one that came in, with the new clock
/// and with the streams that the mappings name, each under its new identifier, in the
/// same order and of the same type and language.
pub proof fn law_patched_pmt_is_mapped(
    original: Seq<u8>,
    pcr_pid: u16,
    mappings: Seq<(u16, u16)>,
    strip_ca: bool,
)
    requires
        pmt_of(original) is Some,
        12 + len12(original[10], original[11]) <= original.len(),
        pcr_pid < 0x2000,
        pids_fit(mappings),
    ensures
        patched_pmt(original, pcr_pid, mappings, strip_ca) is Some,
        pmt_of(patched_pmt(original, pcr_pid, mappings, strip_ca)->0) == Some(
            PmtModel {
                pcr_pid,
                streams: mapped_streams((pmt_of(original)->0).streams, mappings),
            },
        ),
{
    lemma_patched_pmt_is_some(original, pcr_pid, mappings, strip_ca);
    law_patched_pmt_lists(original, pcr_pid, mappings, strip_ca);
    lemma_same_map(
        pmt_of(patched_pmt(original, pcr_pid, mappings, strip_ca)->0),
        pcr_pid,
        passed_streams(
            original.skip(12 + len12(original[10], original[11])),
            mappings,
            strip_ca,
        ),
        mapped_streams((pmt_of(original)->0).streams, mappings),
    );
}

/// A map is known by its clock and its streams.
pub proof fn lemma_same_map(
    map: Option<PmtModel>,
    pcr_pid: u16,
    streams: Seq<StreamModel>,
    same: Seq<StreamModel>,
)
    requires
        map == Some(PmtModel { pcr_pid: pcr_pid % 0x2000, streams }),
        pcr_pid < 0x2000,
        streams == same,
    ensures
        map == Some(PmtModel { pcr_pid, streams: same }),
{
}

proof fn lemma_patched_pmt_is_some(
    original: Seq<u8>,
    pcr_pid: u16,
    mappings: Seq<(u16, u16)>,
    strip_ca: bool,
)
    requires
        pmt_of(original) is Some,
        12 + len12(original[10], original[11]) <= original.len(),
        pids_fit(mappings),
    ensures
        patched_pmt(original, pcr_pid, mappings, strip_ca) is Some,
        passed_streams(
            original.skip(12 + len12(original[10], original[11])),
            mappings,
            strip_ca,
        ) == mapped_streams((pmt_of(original)->0).streams, mappings),
{
    let rest = original.skip(12 + len12(original[10], original[11]));
    lemma_passed_is_mapped(rest, mappings, strip_ca);
}

/// A map that is passed on ends with its checksum.
pub proof fn law_patched_pmt_is_checked(
    original: Seq<u8>,
    pcr_pid: u16,
    mappings: Seq<(u16, u16)>,
    strip_ca: bool,
)
    requires
        patched_pmt(original, pcr_pid, mappings, strip_ca) is Some,
    ensures
        ({
            let p = patched_pmt(original, pcr_pid, mappings, strip_ca)->0;
            p.len() >= 16 && p == with_crc(p.take(p.len() - 4))
        }),
{
    let rest = original.skip(12 + len12(original[10], original[11]));
    let entries = patched_streams(rest, mappings, strip_ca)->0;
    let body = patched_pmt_head(original, pcr_pid, strip_ca) + entries;
    lemma_checked(body);
}

proof fn lemma_checked(body: Seq<u8>)
    requires
        body.len() >= 12,
    ensures
        ({
            let p = with_crc(with_length12(body));
            p.len() == body.len() + 4 && p == with_crc(p.take(p.len() - 4))
        }),
{
    let p = with_crc(with_length12(body));
    assert(p.take(p.len() - 4) =~= with_length12(body));
}

/// Where conditional access is stripped, no descriptor of it is left in a map that is
/// passed on, neither of the program nor of a stream.
pub proof fn law_patched_pmt_is_free(
    original: Seq<u8>,
    pcr_pid: u16,
    mappings: Seq<(u16, u16)>,
)
    requires
        patched_pmt(original, pcr_pid, mappings, true) is Some,
    ensures
        ({
            let p = patched_pmt(original, pcr_pid, mappings, true)->0;
            let at = 12 + len12(p[10], p[11]);
            at <= p.len() && ca_free(p.subrange(12, at)) && streams_ca_free(p.skip(at))
        }),
{
    let at = 12 + len12(original[10], original[11]);
    let rest = original.skip(at);
    let entries = patched_streams(rest, mappings, true)->0;
    let head = patched_pmt_head(original, pcr_pid, true);
    let d = without_ca(original.subrange(12, at));
    lemma_without_ca_is_free(original.subrange(12, at));
    let n = d.len() as int;
    let body = head + entries;
    let p = with_crc(with_length12(body));
    let tail = lemma_finished_tail(body, 12 + n);
    assert(body.skip(12 + n) =~= entries);
    assert(p[10] == head[10] && p[11] == head[11]);
    lemma_field_bytes(pcr_pid, n);
    lemma_patched_streams_free(rest, mappings, tail);
    assert(p.subrange(12, 12 + n) =~= d);
}

} // verus!
