//! Elementary streams and the probe that looks for them.

use bytes::Bytes;
use mymuxer::packet::ts_null_packet;
use mymuxer::pes::es::{Es, Es15, Es2, Es27, Es3, Es4, EsUnknown};
use mymuxer::pes::es_parsers::{
    find_mpeg_audio_header, parse_es, EsParser, EsParser15, EsParser2, EsParser27, EsParser3,
    EsParserUnknown,
};
use mymuxer::pes::golomb::BitReader;
use mymuxer::pes::parser::{Parser, PesReassembler, PesReassemblerMap};
use mymuxer::pes::sps::{find_sps, parse_sps, unescape};
use mymuxer::probe::{Probe, ProbeSession};
use mymuxer::psi::time::UtcTime;
use mymuxer::psi::{pack, section_with_crc, set_section_length};
use std::collections::HashMap;

// ---- Bits ----

struct BitWriter {
    bits: Vec<u8>,
}

impl BitWriter {
    fn put(&mut self, n: u32, v: u64) {
        for i in (0..n).rev() {
            self.bits.push((v >> i) as u8 & 1);
        }
    }

    fn ue(&mut self, v: u64) {
        let n = 64 - (v + 1).leading_zeros();
        self.put(n - 1, 0);
        self.put(n, v + 1);
    }

    fn bytes(&self) -> Vec<u8> {
        self.bits
            .chunks(8)
            .map(|c| c.iter().enumerate().fold(0u8, |a, (i, b)| a | (b << (7 - i))))
            .collect()
    }
}

#[test]
fn bits_in_order() {
    let data = [0b1010_0101, 0xFF, 0x00, 0x12, 0x34, 0x56, 0x78, 0x9A, 0xBC];
    let mut r = BitReader::new(&data);
    assert_eq!(r.remaining(), 72);
    assert_eq!(r.read_bit(), 1);
    assert_eq!(r.read_bits(3), 0b010);
    assert_eq!(r.read_bits(4), 0b0101);
    assert_eq!(r.read_bits(16), 0xFF00);
    assert_eq!(r.read_bits(32), 0x1234_5678);
    assert_eq!(r.read_bits(0), 0);
    assert_eq!(r.remaining(), 16);
    assert_eq!(r.try_read_bits(17), None);
    assert_eq!(r.try_read_bits(16), Some(0x9ABC));
    assert_eq!(r.try_read_bit(), None);
    assert_eq!(r.try_read_ue(), None);
}

#[test]
fn codes_of_varying_length() {
    let mut w = BitWriter { bits: vec![] };
    for v in [0, 1, 2, 3, 254, 255, 65_534, 0x7FFF_FFFE] {
        w.ue(v);
    }
    for v in [0, 1, 2, 3, 4] {
        w.ue(v);
    }
    let data = w.bytes();
    let mut r = BitReader::new(&data);
    for v in [0, 1, 2, 3, 254, 255, 65_534, 0x7FFF_FFFE] {
        assert_eq!(r.read_ue(), v);
    }
    for v in [0, 1, -1, 2, -2] {
        assert_eq!(r.read_se(), v);
    }
}

// ---- H.264 ----

fn sps(profile: u64, frames_only: u64, timing: Option<(u64, u64)>) -> Vec<u8> {
    let mut w = BitWriter { bits: vec![] };
    w.put(8, profile);
    w.put(8, 0);
    w.put(8, 40);
    w.ue(0);
    if profile == 100 {
        w.ue(1);
        w.ue(0);
        w.ue(0);
        w.put(2, 0);
    }
    w.ue(0);
    w.ue(0);
    w.ue(2);
    w.ue(4);
    w.put(1, 0);
    w.ue(119);
    w.ue(if frames_only == 1 { 67 } else { 33 });
    w.put(1, frames_only);
    if frames_only == 0 {
        w.put(1, 0);
    }
    w.put(1, 1);
    w.put(1, 1);
    w.ue(0);
    w.ue(0);
    w.ue(0);
    w.ue(if frames_only == 1 { 4 } else { 2 });
    match timing {
        Some((units, scale)) => {
            w.put(1, 1);
            w.put(4, 0);
            w.put(1, 1);
            w.put(32, units);
            w.put(32, scale);
            w.put(1, 1);
        }
        None => w.put(1, 0),
    }
    w.put(1, 1);
    w.bytes()
}

fn escape(rbsp: &[u8]) -> Vec<u8> {
    let mut out = Vec::new();
    let mut zeros = 0;
    for b in rbsp {
        if zeros == 2 && *b <= 3 {
            out.push(3);
            zeros = 0;
        }
        out.push(*b);
        zeros = if *b == 0 { zeros + 1 } else { 0 };
    }
    out
}

fn h264(rbsp: &[u8]) -> Vec<u8> {
    let mut out = vec![0, 0, 0, 1, 0x09, 0xF0, 0, 0, 0, 1, 0x67];
    out.extend(escape(rbsp));
    out.extend_from_slice(&[0, 0, 0, 1, 0x68, 0xEE]);
    out
}

#[test]
fn escaped_bytes_are_restored() {
    let rbsp = sps(100, 1, Some((1, 50)));
    let ebsp = escape(&rbsp);
    assert!(ebsp.len() > rbsp.len());
    assert_eq!(unescape(&ebsp), rbsp);
    assert_eq!(unescape(&[0, 0, 3, 0, 0, 3, 1]), vec![0, 0, 0, 0, 1]);
    assert_eq!(find_sps(&h264(&rbsp)), Some(ebsp));
    assert_eq!(find_sps(&[0, 0, 1, 0x68, 1, 2, 3]), None);
}

#[test]
fn picture_of_a_stream() {
    let es = parse_sps(&sps(100, 1, Some((1, 50)))).unwrap();
    assert_eq!((es.profile_idc, es.level_idc), (Some(100), Some(40)));
    assert_eq!((es.horizontal_size, es.vertical_size), (Some(1920), Some(1080)));
    assert_eq!(es.frame_rate, Some(25));
    assert_eq!(es.description(), "Video: h264 (High), 1920x1080, level 4.0, 25 fps");
    let es = parse_sps(&sps(77, 0, None)).unwrap();
    assert_eq!((es.horizontal_size, es.vertical_size), (Some(1920), Some(1080)));
    assert_eq!(es.frame_rate, None);
    assert_eq!(es.description(), "Video: h264 (Main), 1920x1080, level 4.0, 0 fps");
    let es = parse_sps(&sps(100, 1, Some((1001, 60_000)))).unwrap();
    assert_eq!(es.frame_rate, Some(30));
}

#[test]
fn short_parameter_set() {
    assert_eq!(parse_sps(&[]).unwrap().profile_idc, None);
    let whole = sps(100, 1, None);
    assert!(parse_sps(&whole[..4]).is_none());
    let parser = EsParser27::new();
    match parser.parse(&h264(&whole)) {
        Some(Es::Es27(es)) => assert_eq!(es.horizontal_size, Some(1920)),
        _ => panic!("no parameter set"),
    }
}

// ---- Other streams ----

#[test]
fn mpeg2_video() {
    let data = [
        9, 0, 0, 1, 0xB3, 0x2D, 0x02, 0x40, 0x33, 0x0E, 0xA6, 0x00, 0x00, 0x00,
    ];
    let parser = EsParser2::new();
    assert_eq!(parser.find_data(&data), Some(1));
    match parser.parse(&data) {
        Some(Es::Es2(es)) => {
            assert_eq!((es.horizontal_size, es.vertical_size), (Some(720), Some(576)));
            assert_eq!((es.aspect_ratio, es.frame_rate), (Some(3), Some(3)));
            assert_eq!(es.bitrate, Some(15_000));
            assert_eq!(
                es.description(),
                "Video: mpeg2video 720x576, 16:9, 25 fps, 6000 kbit/s"
            );
        }
        _ => panic!("no sequence header"),
    }
    assert!(parser.parse(&data[..9]).is_none());
    assert_eq!(Es2::new().description(), "Video: mpeg2video 0x0, None, None fps, -");
}

#[test]
fn mpeg_audio() {
    let data = [0x00, 0xFF, 0x00, 0xFF, 0xFD, 0x84, 0x04, 0x00];
    assert_eq!(find_mpeg_audio_header(&data), Some(0xFFFD_8404));
    assert_eq!(find_mpeg_audio_header(&[0xFF, 0xFF, 0xF0]), None);
    match EsParser3::new().parse(&data) {
        Some(Es::Es3(es)) => {
            assert_eq!((es.id, es.layer), (Some(1), Some(2)));
            assert_eq!((es.bit_rate_index, es.sampling_frequency), (Some(8), Some(1)));
            assert_eq!(es.original, Some(1));
            assert_eq!(
                es.description(),
                "Audio: mp2 (Layer II) stereo, 48kHz, 128 kbit/s"
            );
        }
        _ => panic!("no header"),
    }
    assert_eq!(Es3::new().description(), "Audio: mp2 (None) None, None, 0");
    assert_eq!(Es4::new().stream_type, 4);
    assert_eq!(Es3::new().bit_rate_es3(15, 3), None);
    assert_eq!(Es3::new().bit_rate_es3(14, 3).as_deref(), Some("448 kbit/s"));
    assert_eq!(Es3::new().bit_rate_es3(1, 0), None);
}

#[test]
fn aac_audio() {
    let data = [0xFF, 0xF1, 0x50, 0x80, 0x00, 0x00];
    match EsParser15::new().parse(&data) {
        Some(Es::Es15(es)) => {
            assert_eq!((es.id, es.profile), (Some(0), Some(1)));
            assert_eq!((es.sampling_frequency, es.channel_configuration), (Some(5), Some(0)));
        }
        _ => panic!("no header"),
    }
    let mut es = Es15::new();
    es.profile = Some(1);
    es.sampling_frequency = Some(3);
    es.channel_configuration = Some(6);
    assert_eq!(es.description(), "Audio aac (LC), 5.1 Surround, 48KHz");
}

#[test]
fn streams_by_their_type() {
    assert!(matches!(parse_es(6, &[]), Some(Es::Unknown(_))));
    assert!(parse_es(3, &[]).is_none());
    assert!(matches!(EsParserUnknown::new().parse(&[1]), Some(Es::Unknown(_))));
    assert_eq!(EsUnknown::new().description(), "Unknown: 0");
    assert_eq!(Es::Es27(Es27::new()).description(), "Video: h264 (None), 0x0, level 0.0, 0 fps");
}

// ---- Packets ----

fn pes(es: &[u8]) -> Vec<u8> {
    let mut out = vec![0, 0, 1, 0xC0, 0, 0, 0b1001_1010, 0b1010_0101, 5, 0x21, 0, 1, 0, 1];
    out.extend_from_slice(es);
    out
}

fn in_packet(pid: u16, start: bool, payload: &[u8]) -> [u8; 188] {
    let mut p = [0xFFu8; 188];
    let stuffing = 184 - payload.len();
    p[0] = 0x47;
    p[1] = (pid >> 8) as u8 | if start { 0x40 } else { 0 };
    p[2] = pid as u8;
    p[3] = 0x30;
    p[4] = (stuffing - 1) as u8;
    p[5] = 0;
    p[188 - payload.len()..].copy_from_slice(payload);
    p
}

#[test]
fn flags_of_a_packet() {
    let p = Parser::parse(&pes(&[0xFF, 0xFD, 0x84, 0x04]), 0x102, Some(3)).unwrap();
    assert_eq!(p.pid, 0x102);
    assert_eq!(p.stream_id, 0b1001_1010);
    assert_eq!((p.scrabling, p.priority, p.alignment_indicator), (1, 1, 0));
    assert_eq!((p.copyright, p.original_or_copy, p.flags_pts_dts), (1, 0, 2));
    assert_eq!((p.flag_escr, p.flag_es_rate, p.flag_dsm_trick_mode), (1, 0, 0));
    assert_eq!((p.flag_additional_copy_info, p.flag_crc, p.flag_extension), (1, 0, 1));
    assert_eq!((p.pts, p.dts), (None, None));
    assert!(matches!(p.es, Some(Es::Es3(_))));
    assert!(Parser::parse(&pes(&[]), 1, None).unwrap().es.is_none());
    assert!(Parser::parse(&pes(&[])[..9], 1, None).is_none());
    assert!(Parser::parse(&[0, 0, 2, 0xC0, 0, 0, 0x80, 0, 0], 1, None).is_none());
    assert!(Parser::parse(&[0, 0, 1, 0xC0, 0, 0, 0x40, 0, 0], 1, None).is_none());
}

#[test]
fn packet_ends_where_the_next_begins() {
    let data = pes(&[0xFF, 0xFD, 0x84, 0x04]);
    let first = in_packet(0x102, true, &data[..16]);
    let second = in_packet(0x102, false, &data[16..]);
    let mut r = PesReassembler::new(0x102, 3);
    assert!(r.push(&second).is_none());
    assert!(r.push(&first).is_none());
    assert!(r.push(&second).is_none());
    assert!(matches!(r.push(&first).unwrap().es, Some(Es::Es3(_))));
    let mut types = HashMap::new();
    types.insert(0x102u16, 3u8);
    let mut all = PesReassemblerMap::new();
    assert!(all.push(&first, &HashMap::new()).is_none());
    assert!(all.push(&first, &types).is_none());
    assert!(all.push(&second, &types).is_none());
    assert!(all.push(&first, &types).is_some());
}

// ---- Probe ----

fn section(mut s: Vec<u8>) -> Vec<u8> {
    set_section_length(&mut s);
    section_with_crc(0, s).bytes
}

fn stream() -> Vec<u8> {
    let pat = section(vec![0x00, 0xB0, 0, 0, 1, 0xC1, 0, 0, 0, 7, 0xE1, 0x00]);
    let mut pmt = vec![0x02, 0xB0, 0, 0, 7, 0xC1, 0, 0, 0xE1, 0x01, 0xF0, 0x00];
    pmt.extend_from_slice(&[0x1B, 0xE1, 0x01, 0xF0, 0x00, 0x03, 0xE1, 0x02, 0xF0, 0x00]);
    let pmt = section(pmt);
    let mut out = pack(&pat, 0, 0).to_vec();
    out.extend_from_slice(&pack(&pmt, 0x100, 0));
    out.extend_from_slice(&mymuxer::psi::sdt::prepare_sdt(1, 7, 1, "Prov", "Serv"));
    let audio = pes(&[0xFF, 0xFD, 0x84, 0x04]);
    let video = pes(&h264(&sps(100, 1, Some((1, 50)))));
    for _ in 0..2 {
        out.extend_from_slice(&ts_null_packet());
        out.extend_from_slice(&in_packet(0x102, true, &audio));
        out.extend_from_slice(&in_packet(0x101, true, &video));
    }
    out
}

#[test]
fn probe_describes_the_streams() {
    let now = UtcTime { secs: 5, nanos: 0 };
    let mut s = ProbeSession::new(9, now);
    let data = stream();
    assert!(!s.on_chunk(&Bytes::copy_from_slice(&data[..1000])));
    assert!(!s.on_chunk(&Bytes::copy_from_slice(&data[1000..])));
    let r = s.finish();
    assert_eq!((r.id, r.timestamp, r.status, r.error_msg.as_str()), (9, now, true, ""));
    assert_eq!(r.programs.len(), 1);
    let p = &r.programs[0];
    assert_eq!((p.pat.prog_num, p.pat.pmt_pid), (7, 0x100));
    assert_eq!(p.sdt.as_ref().unwrap().service_name, "Serv");
    let streams = &p.pmt.as_ref().unwrap().streams;
    assert_eq!(
        streams[0].description,
        "Video: h264 (High), 1920x1080, level 4.0, 25 fps"
    );
    assert_eq!(streams[1].description, "Audio: mp2 (Layer II) stereo, 48kHz, 128 kbit/s");
}

#[test]
fn probe_without_a_stream_fails() {
    let now = UtcTime { secs: 5, nanos: 0 };
    let mut s = ProbeSession::new(9, now);
    s.on_chunk(&Bytes::from(vec![0u8; 2000]));
    s.on_closed("Closed");
    let r = s.finish();
    assert!(!r.status);
    assert_eq!(r.error_msg, "Probe process failed");
    let mut s = ProbeSession::new(9, now);
    s.on_chunk(&Bytes::from(stream()));
    s.on_closed("Closed");
    let r = s.finish();
    assert!(!r.status);
    assert_eq!(r.error_msg, "Received failed:Closed");
    assert_eq!(r.programs.len(), 1);
}

#[test]
fn probe_loses_a_stream_out_of_step() {
    let mut p = Probe::new();
    let mut data = stream();
    data.insert(188 * 5, 0);
    p.write(&Bytes::from(data));
    assert!(p.process().is_none());
}
