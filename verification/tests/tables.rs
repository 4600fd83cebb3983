//! Sections, the packets that carry them, and the tables that they hold.

use mymuxer::psi::eit::{
    build_extended_event_descriptors, empty_present_following_section, parse_iso_639_2,
    present_following_section, try_present_following_section,
};
use mymuxer::psi::header::{
    cached_cc, cached_psi_header, dvb_text, psi_header, psi_section_changed, section_with_crc,
    set_section_length, set_section_length12,
};
use mymuxer::psi::pat::{analyze_pat, is_pat_changed, patch_pat_section, PatInfo};
use mymuxer::psi::pmt::{
    analyze_pmt, is_pmt_changed, patch_pmt_section, try_analyze_pmt, try_patch_pmt_section,
    PmtInfo, StreamInfo,
};
use mymuxer::psi::sdt::{
    analyze_sdt, parse_dvb_string, patch_sdt_section, prepare_sdt, try_analyze_sdt,
};
use mymuxer::psi::time::{
    encode_duration, encode_dvb_time, get_local_offset_bcd, offset_bcd, UtcTime,
};
use mymuxer::psi::{pack, pack_multi, tdt, tot, SectionReassembler, SectionReassemblerMap};

fn at(secs: i64) -> UtcTime {
    UtcTime { secs, nanos: 0 }
}

/// What the four bytes at the end of a section have to be.
fn crc(bytes: &[u8]) -> [u8; 4] {
    let mut c: u32 = 0xFFFF_FFFF;
    for b in bytes {
        c ^= (*b as u32) << 24;
        for _ in 0..8 {
            c = if c & 0x8000_0000 != 0 { (c << 1) ^ 0x04C1_1DB7 } else { c << 1 };
        }
    }
    c.to_be_bytes()
}

fn finished(section: &[u8]) -> bool {
    let n = section.len();
    let len = ((section[1] as usize & 0x0F) << 8) | section[2] as usize;
    len + 3 == n && section[n - 4..] == crc(&section[..n - 4])
}

// ---- Checksums and lengths ----

#[test]
fn checksum_of_the_check_string() {
    let s = section_with_crc(7, b"123456789".to_vec());
    assert_eq!(s.pid, 7);
    assert_eq!(&s.bytes[9..], &[0x03, 0x76, 0xE6, 0xE7]);
}

#[test]
fn checksum_over_a_checked_section_is_zero() {
    let s = section_with_crc(0, vec![0x00, 0xB0, 0x0D, 0x00, 0x01, 0xC1, 0x00, 0x00]);
    let again = section_with_crc(0, s.bytes.clone());
    assert_eq!(&again.bytes[s.bytes.len()..], &[0, 0, 0, 0]);
}

#[test]
fn section_length_counts_the_checksum() {
    let mut s = vec![0x4E, 0xF0, 0x00];
    s.extend(vec![0u8; 300]);
    set_section_length(&mut s);
    assert_eq!((s[1], s[2]), (0xF1, 0x30));
    let mut t = vec![0x4E, 0xF0, 0x00];
    t.extend(vec![0u8; 300]);
    set_section_length12(&mut t);
    assert_eq!(s, t);
}

// ---- Packets ----

#[test]
fn long_section_is_taken_apart_and_put_together() {
    let section: Vec<u8> = {
        let mut s = vec![0x4E, 0xF0, 0x00];
        s.extend((0..600).map(|i| i as u8));
        set_section_length(&mut s);
        section_with_crc(0x12, s).bytes
    };
    let mut cc = 14u8;
    let packets = pack_multi(&section, 0x12, &mut cc);
    assert_eq!(packets.len(), 4);
    assert_eq!(cc, 2);
    let counters: Vec<u8> = packets.iter().map(|p| p[3] & 0x0F).collect();
    assert_eq!(counters, vec![14, 15, 0, 1]);
    let mut one = SectionReassembler::new(0x12);
    let mut all = SectionReassemblerMap::new();
    for (i, p) in packets.iter().enumerate() {
        let last = i + 1 == packets.len();
        let (a, b) = (one.push(p), all.push(p));
        assert_eq!(a, b);
        assert_eq!(a, if last { Some(section.clone()) } else { None });
    }
}

#[test]
fn short_section_fits_into_one_packet() {
    let p = pack(&[0x00, 0xB0, 0x01, 0x42], 0x1FFF, 0x1F);
    assert_eq!(&p[..9], &[0x47, 0x5F, 0xFF, 0x1F, 0x00, 0x00, 0xB0, 0x01, 0x42]);
    assert!(p[9..].iter().all(|b| *b == 0xFF));
    let empty = pack(&[], 0, 0);
    assert_eq!(&empty[..6], &[0x47, 0x40, 0x00, 0x10, 0x00, 0xFF]);
}

#[test]
fn reassembler_passes_over_what_is_not_its_own() {
    let p = pack(&[0x00, 0xB0, 0x01, 0x42], 0x21, 0);
    let mut r = SectionReassembler::new(0x20);
    assert_eq!(r.push(&p), None);
    let mut r = SectionReassembler::new(0x21);
    assert_eq!(r.push(&p[..187]), None);
    let mut bad = p;
    bad[0] = 0;
    assert_eq!(r.push(&bad), None);
    assert_eq!(r.push(&p), Some(vec![0x00, 0xB0, 0x01, 0x42]));
}

#[test]
fn section_ends_before_the_pointer() {
    let mut s = vec![0x42, 0xF0, 0x00];
    s.extend(vec![9u8; 190]);
    set_section_length(&mut s);
    let s = section_with_crc(0x11, s).bytes;
    let first = pack(&s[..183], 0x11, 0);
    let mut second = [0xFFu8; 188];
    second[..4].copy_from_slice(&[0x47, 0x40, 0x11, 0x11]);
    let rest = &s[183..];
    second[4] = rest.len() as u8;
    second[5..5 + rest.len()].copy_from_slice(rest);
    let mut r = SectionReassembler::new(0x11);
    assert_eq!(r.push(&first), None);
    assert_eq!(r.push(&second), Some(s));
}

#[test]
fn new_version_is_seen() {
    let cached = pack(&[0x02, 0xB0, 0x05, 0x00, 0x07, 0xC3, 0x00, 0x00, 0x01], 0x30, 9);
    assert_eq!(cached_cc(&cached), 9);
    assert_eq!(cached_cc(&[0u8; 188]), 0);
    assert_eq!(cached_psi_header(&cached), Some((0x02, 7, 1, true)));
    assert_eq!(psi_header(&[0x02, 0xB0, 0x05, 0x00, 0x07, 0xC3, 0x00]), None);
    let same = [0x02, 0xB0, 0x05, 0x00, 0x07, 0xC3, 0x00, 0x00, 0xFF];
    let next = [0x02, 0xB0, 0x05, 0x00, 0x07, 0xC5, 0x00, 0x00, 0xFF];
    let later = [0x02, 0xB0, 0x05, 0x00, 0x07, 0xC4, 0x00, 0x00, 0xFF];
    assert!(!psi_section_changed(&cached, &same));
    assert!(psi_section_changed(&cached, &next));
    assert!(!psi_section_changed(&cached, &later));
    assert!(!psi_section_changed(&[0u8; 188], &next));
}

// ---- Times ----

#[test]
fn times_of_the_standard() {
    // 13 October 1993, 12:45:00.
    assert_eq!(encode_dvb_time(&at(750_516_300)), [0xC0, 0x79, 0x12, 0x45, 0x00]);
    assert_eq!(encode_dvb_time(&at(0)), [0x9E, 0x8B, 0x00, 0x00, 0x00]);
    // 29 February 2024, 23:59:59, and the second behind it.
    assert_eq!(encode_dvb_time(&at(1_709_251_199)), [0xEB, 0xD1, 0x23, 0x59, 0x59]);
    assert_eq!(encode_dvb_time(&at(1_709_251_200)), [0xEB, 0xD2, 0x00, 0x00, 0x00]);
}

#[test]
fn durations_are_digits() {
    assert_eq!(encode_duration(6330), [0x01, 0x45, 0x30]);
    assert_eq!(encode_duration(0), [0, 0, 0]);
    assert_eq!(encode_duration(100 * 3600 + 61), [0x99, 0x01, 0x01]);
}

#[test]
fn offsets_of_time_zones() {
    assert_eq!(get_local_offset_bcd("Europe/Kyiv", &at(1_704_067_200)), Some([0x02, 0x00]));
    assert_eq!(get_local_offset_bcd("Europe/Kyiv", &at(1_719_792_000)), Some([0x03, 0x00]));
    assert_eq!(get_local_offset_bcd("Asia/Kolkata", &at(0)), Some([0x05, 0x30]));
    assert_eq!(get_local_offset_bcd("America/New_York", &at(1_704_067_200)), Some([0x05, 0x00]));
    assert_eq!(get_local_offset_bcd("Nowhere/Land", &at(0)), None);
    assert_eq!(offset_bcd(-12_600), [0x03, 0x30]);
}

#[test]
fn time_table() {
    let s = tdt::section(&at(750_516_300));
    assert_eq!(s.pid, 0x14);
    assert_eq!(s.bytes, vec![0x70, 0x70, 0x05, 0xC0, 0x79, 0x12, 0x45, 0x00]);
}

#[test]
fn time_offset_table() {
    let s = tot::section(&at(750_516_300), "UKR", "Europe/Kyiv", &at(1_704_067_200)).unwrap();
    assert_eq!(s.pid, 0x14);
    assert!(finished(&s.bytes));
    assert_eq!(
        &s.bytes[..s.bytes.len() - 4],
        &[
            0x73, 0x70, 0x1A, 0xC0, 0x79, 0x12, 0x45, 0x00, 0xF0, 0x0F, 0x58, 13, b'U', b'K',
            b'R', 0x00, 0x02, 0x00, 0xFF, 0xFF, 0xFF, 0xFF, 0xFF, 0x02, 0x00,
        ]
    );
    assert!(tot::section(&at(0), "UKR", "Nowhere/Land", &at(0)).is_none());
}

// ---- Programs ----

fn pat() -> Vec<u8> {
    let mut s = vec![0x00, 0xB0, 0x00, 0x00, 0x01, 0xC1, 0x00, 0x00];
    s.extend_from_slice(&[0x00, 0x00, 0xE0, 0x10]);
    s.extend_from_slice(&[0x00, 0x01, 0xE1, 0x00]);
    s.extend_from_slice(&[0x02, 0x03, 0xFF, 0xFE]);
    set_section_length(&mut s);
    section_with_crc(0, s).bytes
}

#[test]
fn programs_are_listed() {
    assert_eq!(
        analyze_pat(&pat()),
        vec![
            PatInfo { prog_num: 1, pmt_pid: 0x100 },
            PatInfo { prog_num: 0x203, pmt_pid: 0x1FFE },
        ]
    );
}

#[test]
fn patched_programs_are_read_back() {
    let s = patch_pat_section(&pat(), &[(5, 0x123), (9, 0x1000)]);
    assert!(finished(&s));
    assert_eq!(&s[..8], &[0x00, 0xB0, 0x11, 0x00, 0x01, 0xC1, 0x00, 0x00]);
    assert_eq!(&s[8..16], &[0x00, 0x05, 0xE1, 0x23, 0x00, 0x09, 0xF0, 0x00]);
    assert_eq!(
        analyze_pat(&s),
        vec![PatInfo { prog_num: 5, pmt_pid: 0x123 }, PatInfo { prog_num: 9, pmt_pid: 0x1000 }]
    );
}

#[test]
fn order_of_programs_does_not_count() {
    let a = PatInfo { prog_num: 1, pmt_pid: 10 };
    let b = PatInfo { prog_num: 2, pmt_pid: 20 };
    let c = PatInfo { prog_num: 2, pmt_pid: 21 };
    assert!(!is_pat_changed(&[a, b], &[b, a]));
    assert!(is_pat_changed(&[a, b], &[a, c]));
    assert!(is_pat_changed(&[a, b], &[a]));
    assert!(is_pat_changed(&[b, c], &[c, b]));
    assert!(!is_pat_changed(&[b, a, c], &[b, c, a]));
    assert!(!is_pat_changed(&[], &[]));
}

fn pmt() -> Vec<u8> {
    let mut s = vec![0x02, 0xB0, 0x00, 0x00, 0x01, 0xC1, 0x00, 0x00, 0xE1, 0x01];
    // Conditional access for the program.
    s.extend_from_slice(&[0xF0, 0x06, 0x09, 0x04, 0x0B, 0x00, 0xE1, 0x23]);
    s.extend_from_slice(&[0x1B, 0xE1, 0x01, 0xF0, 0x00]);
    s.extend_from_slice(&[0x04, 0xE1, 0x02, 0xF0, 0x0C]);
    s.extend_from_slice(&[0x0A, 0x04, b'u', b'k', b'r', 0x00]);
    s.extend_from_slice(&[0x09, 0x04, 0x0B, 0x00, 0xE1, 0x24]);
    set_section_length(&mut s);
    section_with_crc(0, s).bytes
}

#[test]
fn streams_are_listed() {
    let info = analyze_pmt(&pmt());
    assert_eq!(info.pcr_pid, 0x101);
    assert_eq!(info.streams.len(), 2);
    assert_eq!((info.streams[0].stream_type, info.streams[0].pid), (0x1B, 0x101));
    assert_eq!(info.streams[0].lang, None);
    assert_eq!((info.streams[1].stream_type, info.streams[1].pid), (0x04, 0x102));
    assert_eq!(info.streams[1].lang.as_deref(), Some("ukr"));
    assert_eq!(info.streams[1].description, "");
}

#[test]
fn malformed_map_is_told() {
    assert!(try_analyze_pmt(&pmt()).is_some());
    assert!(try_analyze_pmt(&pmt()[..11]).is_none());
    let mut s = pmt();
    s[27] = 0xFF;
    assert!(try_analyze_pmt(&s).is_none());
    assert!(try_patch_pmt_section(&pmt()[..11], 1, &[], false).is_none());
}

#[test]
fn patched_map_is_read_back() {
    let s = patch_pmt_section(&pmt(), 0x55, &[(0x102, 0x200)], true);
    assert!(finished(&s));
    assert_eq!(
        &s[..s.len() - 4],
        &[
            0x02, 0xB0, 0x18, 0x00, 0x01, 0xC1, 0x00, 0x00, 0xE0, 0x55, 0xF0, 0x00, 0x04, 0xE2,
            0x00, 0xF0, 0x06, 0x0A, 0x04, b'u', b'k', b'r', 0x00,
        ]
    );
    let info = analyze_pmt(&s);
    assert_eq!(info.pcr_pid, 0x55);
    assert_eq!(info.streams.len(), 1);
    assert_eq!((info.streams[0].stream_type, info.streams[0].pid), (4, 0x200));
    let kept = patch_pmt_section(&pmt(), 0x101, &[(0x101, 0x101), (0x102, 0x102)], false);
    assert_eq!(kept, pmt());
}

fn map(pcr_pid: u16, streams: &[(u8, u16)]) -> PmtInfo {
    PmtInfo {
        pcr_pid,
        streams: streams
            .iter()
            .map(|(t, p)| StreamInfo {
                stream_type: *t,
                pid: *p,
                lang: None,
                description: String::new(),
            })
            .collect(),
    }
}

#[test]
fn order_of_streams_does_not_count() {
    let a = map(1, &[(2, 10), (4, 11)]);
    assert!(!is_pmt_changed(&a, &map(1, &[(4, 11), (2, 10)])));
    assert!(is_pmt_changed(&a, &map(2, &[(2, 10), (4, 11)])));
    assert!(is_pmt_changed(&a, &map(1, &[(2, 10), (3, 11)])));
    assert!(is_pmt_changed(&a, &map(1, &[(2, 10)])));
    assert!(is_pmt_changed(&map(1, &[(2, 10), (2, 10)]), &map(1, &[(2, 10), (2, 11)])));
}

// ---- Services ----

#[test]
fn strings_in_their_encodings() {
    assert_eq!(parse_dvb_string(&[]), "");
    assert_eq!(parse_dvb_string(&[0x01, 0xB0, 0xD0]), "\u{410}\u{430}");
    assert_eq!(parse_dvb_string(b"\x15caf\xC3\xA9"), "caf\u{e9}");
    assert_eq!(parse_dvb_string(b"\x15a\xFFb"), "a\u{FFFD}b");
    assert_eq!(parse_dvb_string(&[0x11, 0x04, 0x10, 0x00, 0x41]), "\u{410}A");
    assert_eq!(parse_dvb_string(&[0x11, 0x41, 0x42, 0x43]), "ABC");
    assert_eq!(parse_dvb_string(b"plain"), "plain");
    assert_eq!(parse_dvb_string(b"\x05next"), "next");
    assert_eq!(parse_dvb_string(&[0x05]), "");
}

#[test]
fn patched_service_is_read_back() {
    let header = [0x42, 0xF0, 0x00, 0x12, 0x34, 0xC1, 0x00, 0x00, 0x00, 0x01, 0xFF];
    let s = patch_sdt_section(&header, 0x0102, 1, "Prov", "\u{41a}\u{438}\u{457}\u{432}");
    assert!(finished(&s));
    assert_eq!(
        &s[11..24],
        &[0x01, 0x02, 0x81, 0xF0, 0x13, 0x48, 17, 1, 5, 0x15, b'P', b'r', b'o']
    );
    let services = analyze_sdt(&s);
    assert_eq!(services.len(), 1);
    assert_eq!(services[0].service_id, 0x0102);
    assert_eq!(services[0].service_type, 1);
    assert_eq!(services[0].running_status, 4);
    assert_eq!(services[0].provider_name, "Prov");
    assert_eq!(services[0].service_name, "\u{41a}\u{438}\u{457}\u{432}");
}

#[test]
fn prepared_service_table() {
    let p = prepare_sdt(0x1234, 7, 2, "P", "N");
    assert_eq!(&p[..5], &[0x47, 0x40, 0x11, 0x10, 0x00]);
    assert_eq!(&p[5..16], &[0x42, 0xF0, 26, 0x12, 0x34, 0xC1, 0x00, 0x00, 0x00, 0x01, 0xFF]);
    let mut r = SectionReassembler::new(0x11);
    let s = r.push(&p).unwrap();
    assert!(finished(&s));
    assert_eq!(analyze_sdt(&s)[0].service_name, "N");
}

#[test]
fn other_tables_describe_no_service() {
    assert_eq!(analyze_sdt(&[0x46, 0, 0, 0, 0, 0, 0, 0, 0, 0, 0, 0, 0, 0, 0, 0]).len(), 0);
    assert_eq!(analyze_sdt(&[0x42; 10]).len(), 0);
    let mut s = vec![0x42, 0xF0, 0x00, 0, 1, 0xC1, 0, 0, 0, 1, 0xFF];
    s.extend_from_slice(&[0, 7, 0x80, 0xFF, 0xFF, 0, 0, 0, 0]);
    assert!(try_analyze_sdt(&s).is_none());
}

// ---- Events ----

#[test]
fn texts_are_cut_between_characters() {
    assert_eq!(dvb_text("abc", 80), b"\x15abc".to_vec());
    assert_eq!(dvb_text("abc", 3), b"\x15ab".to_vec());
    assert_eq!(dvb_text("\u{457}\u{457}", 4), b"\x15\xD1\x97".to_vec());
    assert_eq!(dvb_text("abc", 0), vec![0x15]);
}

#[test]
fn language_codes() {
    assert_eq!(&parse_iso_639_2("UKR"), b"ukr");
    assert_eq!(&parse_iso_639_2("u1"), b"ung");
    assert_eq!(&parse_iso_639_2(""), b"eng");
    assert_eq!(&parse_iso_639_2("rusx"), b"rus");
}

#[test]
fn long_text_goes_into_several_descriptors() {
    assert_eq!(build_extended_event_descriptors(b"eng", "").len(), 0);
    let text = "x".repeat(247) + "\u{457}" + "rest";
    let d = build_extended_event_descriptors(b"ukr", &text);
    assert_eq!(d.len(), 2);
    assert_eq!(&d[0][..9], &[0x4E, 254, 0x01, b'u', b'k', b'r', 0, 248, 0x15]);
    assert_eq!(d[0].len(), 256);
    assert_eq!(&d[1][..9], &[0x4E, 13, 0x11, b'u', b'k', b'r', 0, 7, 0x15]);
    let mut joined = d[0][9..].to_vec();
    joined.extend_from_slice(&d[1][9..]);
    assert_eq!(joined, text.as_bytes());
    assert_eq!(build_extended_event_descriptors(b"eng", &"y".repeat(248 * 20)).len(), 16);
    // Three bytes are lost at each cut at most.
    let text = format!("y{}", "\u{1F600}".repeat(979));
    assert_eq!(text.len(), 3917);
    let d = build_extended_event_descriptors(b"eng", &text);
    assert_eq!(d.len(), 16);
    assert!(d[..15].iter().all(|p| p.len() - 9 >= 245));
    let joined: Vec<u8> = d.iter().flat_map(|p| p[9..].to_vec()).collect();
    assert_eq!(joined, text.as_bytes());
}

#[test]
fn present_event() {
    let s = present_following_section(
        0x0102, 3, 0x0304, 0x0506, 0, 0x0708, &at(750_516_300), 6330, "T", "d", "ukr",
    );
    assert_eq!(s.pid, 0x12);
    assert!(finished(&s.bytes));
    assert_eq!(
        &s.bytes[3..s.bytes.len() - 4],
        &[
            0x01, 0x02, 0xC7, 0x00, 0x01, 0x03, 0x04, 0x05, 0x06, 0x01, 0x4E, 0x07, 0x08, 0xC0,
            0x79, 0x12, 0x45, 0x00, 0x01, 0x45, 0x30, 0x80, 0x0B, 0x4D, 9, b'u', b'k', b'r', 2,
            0x15, b'T', 2, 0x15, b'd',
        ]
    );
}

#[test]
fn long_description_is_extended() {
    let s = present_following_section(
        1, 0, 1, 1, 1, 1, &at(0), 60, "T", &"x".repeat(161), "eng",
    );
    assert!(finished(&s.bytes));
    assert_eq!(&s.bytes[26..36], &[0x4D, 7, b'e', b'n', b'g', 2, 0x15, b'T', 0, 0x4E]);
    assert!(try_present_following_section(
        1, 0, 1, 1, 1, 1, &at(0), 60, "T", &"x".repeat(248 * 16), "eng",
    )
    .is_none());
}

#[test]
fn empty_event() {
    let s = empty_present_following_section(0x0102, 31, 0x0304, 0x0506, 1);
    assert!(finished(&s.bytes));
    assert_eq!(
        &s.bytes[..14],
        &[
            0x4E, 0xF0, 15, 0x01, 0x02, 0xFF, 0x01, 0x01, 0x03, 0x04, 0x05, 0x06, 0x01, 0x4E,
        ]
    );
    assert_eq!(s.bytes.len(), 18);
}
