//! The handler of an output, its buffers, its clock and its cipher.

use bytes::{Bytes, BytesMut};
use mymuxer::biss::{Biss1Descrambler, BissError, Scrambled};
use mymuxer::config::{Output, Program};
use mymuxer::mux::state::{Cmd, FrameRate, Step};
use mymuxer::mux::reports::ReportLevel;
use mymuxer::mux::{MuxReport, OutBuffer, PacketHandler, PcrRestamper, TsPacket};
use mymuxer::packet::{pkt_extract_pcr, pkt_pid, pkt_write_pcr, ts_null_packet};
use mymuxer::psi::pat::{analyze_pat, PatInfo};
use mymuxer::psi::pmt::analyze_pmt;
use mymuxer::psi::sdt::{analyze_sdt, prepare_sdt};
use mymuxer::psi::time::UtcTime;
use mymuxer::psi::{pack, section_with_crc, set_section_length, SectionReassembler};
use mymuxer::status::OutputStats;

const NOW: UtcTime = UtcTime { secs: 1_700_000_000, nanos: 0 };

const START: u64 = 900_000;

fn output(pkt_size: u16, cbr: u32, proxy: bool) -> Output {
    Output {
        id: 3,
        name: String::new(),
        output_url: String::new(),
        task_type: "udp".to_string(),
        biss_key: String::new(),
        ca_flag: 1,
        pkt_size,
        cbr,
        proxy,
        allow: vec![],
        programs: vec![Program {
            program_id: 7,
            audio_pids: vec![0x102],
            video_pids: vec![0x101],
            pmt_pid: 0x100,
            pcr_pid: 0x101,
            service_name: " Name ".to_string(),
            service_provider_name: String::new(),
            service_type: 0,
            buffer_duration: 1000,
            jitter: 0,
            adjust_buf: 0,
        }],
        err_count: 0,
    }
}

fn handler(o: Output) -> PacketHandler {
    PacketHandler::new(o, OutputStats::new(&NOW)).unwrap()
}

fn section(mut s: Vec<u8>) -> Vec<u8> {
    set_section_length(&mut s);
    section_with_crc(0, s).bytes
}

fn pat(program: u8) -> [u8; 188] {
    let s = vec![0x00, 0xB0, 0, 0x12, 0x34, 0xC1, 0, 0, 0, program, 0xE1, 0x00];
    pack(&section(s), 0, 0)
}

fn pmt() -> [u8; 188] {
    let mut s = vec![0x02, 0xB0, 0, 0x00, 0x07, 0xC1, 0, 0, 0xE1, 0x01, 0xF0, 0x00];
    s.extend_from_slice(&[0x1B, 0xE1, 0x01, 0xF0, 0x00]);
    s.extend_from_slice(&[0x04, 0xE1, 0x02, 0xF0, 0x00]);
    s.extend_from_slice(&[0x06, 0xE1, 0x03, 0xF0, 0x00]);
    pack(&section(s), 0x100, 0)
}

fn put_timestamp(p: &mut [u8], at: usize, t: u64) {
    p[at] = 0x21 | (((t >> 30) as u8 & 7) << 1);
    p[at + 1] = (t >> 22) as u8;
    p[at + 2] = ((t >> 15) as u8) << 1 | 1;
    p[at + 3] = (t >> 7) as u8;
    p[at + 4] = (t as u8) << 1 | 1;
}

/// The packet in which a frame starts, with a clock reference before it.
fn frame(pid: u16, cc: u8, dts: u64) -> [u8; 188] {
    let mut p = [0x55u8; 188];
    p[..6].copy_from_slice(&[0x47, 0x40 | (pid >> 8) as u8, pid as u8, 0x30 | (cc & 15), 7, 0x10]);
    pkt_write_pcr(&mut p, (dts - 45_000) * 300);
    p[12..21].copy_from_slice(&[0, 0, 1, 0xE0, 0, 0, 0x80, 0x80, 5]);
    put_timestamp(&mut p, 21, dts);
    p
}

fn frames(n: u64) -> Vec<u8> {
    let mut out = Vec::new();
    for k in 0..n {
        out.extend_from_slice(&frame(0x101, k as u8, START + k * 3600));
    }
    out
}

fn tables() -> Vec<u8> {
    let mut out = pat(1).to_vec();
    out.extend_from_slice(&pmt());
    out
}

fn stream() -> Bytes {
    let mut out = tables();
    out.extend(frames(26));
    Bytes::from(out)
}

fn packets(data: &[u8]) -> Vec<[u8; 188]> {
    assert_eq!(data.len() % 188, 0);
    data.chunks(188).map(|p| p.try_into().unwrap()).collect()
}

fn section_of(p: &[u8; 188]) -> Vec<u8> {
    SectionReassembler::new(pkt_pid(p)).push(p).unwrap()
}

// ---- Sending ----

#[test]
fn buffer_fills_before_anything_is_sent() {
    let mut h = handler(output(1316, 0, false));
    let mut early = tables();
    early.extend(frames(25));
    assert_eq!(h.write(&Bytes::from(early), &NOW), Step::Idle);
    assert!(h.flush_packet_for_vbr().is_none());
    assert!(h.flush_packet_for_cbr().is_none());
    assert!(h.flush_frame().is_none());
    let last = frame(0x101, 25, START + 25 * 3600);
    assert_eq!(h.write(&Bytes::copy_from_slice(&last), &NOW), Step::Idle);
    assert!(h.flush_packet_for_vbr().is_some());
    assert_eq!(h.stats().last_ready_timestamp, NOW.secs);
}

#[test]
fn tables_are_passed_on_with_the_configured_program() {
    let mut h = handler(output(376, 0, false));
    h.write(&stream(), &NOW);
    let first = packets(&h.flush_packet_for_vbr().unwrap());
    assert_eq!(first.len(), 2);
    assert_eq!(pkt_pid(&first[0]), 0);
    assert_eq!(first[0][3] & 15, 1);
    assert_eq!(analyze_pat(&section_of(&first[0])), vec![PatInfo { prog_num: 7, pmt_pid: 0x100 }]);
    assert!(first[1..].iter().all(|p| pkt_pid(p) == 0x101));
    let second = packets(&h.flush_packet_for_vbr().unwrap());
    assert_eq!(pkt_pid(&second[0]), 0x100);
    let map = analyze_pmt(&section_of(&second[0]));
    assert_eq!(map.pcr_pid, 0x101);
    let pids: Vec<u16> = map.streams.iter().map(|s| s.pid).collect();
    assert_eq!(pids, vec![0x101, 0x102]);
    let third = packets(&h.flush_packet_for_vbr().unwrap());
    assert_eq!(pkt_pid(&third[0]), 0x11);
    let service = section_of(&third[0]);
    assert_eq!(&service[3..5], &[0x12, 0x34]);
    let services = analyze_sdt(&service);
    assert_eq!(services.len(), 1);
    assert_eq!(services[0].service_id, 7);
    assert_eq!(services[0].service_type, 1);
    assert_eq!(services[0].service_name, "Name");
    assert_eq!(services[0].provider_name, "");
}

#[test]
fn bitrate_is_measured() {
    let mut h = handler(output(1316, 0, false));
    assert_eq!(h.get_bitrate(), Some(0));
    h.write(&stream(), &NOW);
    // 26 packets in a second are 39 kbit/s; a fifth more, by 1024.
    assert_eq!(h.get_bitrate(), Some(47_923));
    let h = handler(output(0, 5000, false));
    assert_eq!(h.get_bitrate(), Some(5000));
    assert_eq!(h.get_pkt_size(), 188);
    assert_eq!(handler(output(376, 0, true)).get_bitrate(), None);
    assert_eq!(handler(output(376, 0, true)).get_pkt_size(), 376);
}

#[test]
fn frame_rate_is_measured() {
    let mut h = handler(output(1316, 0, false));
    assert_eq!(h.calculate_fps(), None);
    h.write(&stream(), &NOW);
    assert_eq!(h.calculate_fps(), Some(FrameRate { intervals: 25, ticks: 90_000 }));
    assert_eq!(h.frame_rate(), Some(FrameRate { intervals: 25, ticks: 90_000 }));
    h.update_stats(2500);
    assert_eq!(h.stats().fps, 2500);
    assert_eq!(h.stats().v_buffer_stats.size, 26 * 188);
    assert_eq!(h.stats().v_buffer_stats.duration, 1000);
    assert_eq!(h.stats().buffer_duration_ms, 1000);
    assert_eq!(h.stats().jitter_ms, 30);
}

#[test]
fn constant_bitrate_is_filled_up() {
    // A packet takes a millisecond.
    let mut h = handler(output(1316, 1_504_000, false));
    h.write(&stream(), &NOW);
    let mut sent: Vec<[u8; 188]> = Vec::new();
    while sent.len() < 300 {
        let datagram = h.flush_packet_for_cbr().unwrap();
        assert_eq!(datagram.len(), 1316);
        sent.extend(packets(&datagram));
    }
    let first = sent.iter().position(|p| pkt_pid(p) == 0x101).unwrap();
    // 300 ms behind the decoding time, less the jitter of 30 ms.
    assert_eq!(first, 269);
    assert_eq!(pkt_extract_pcr(&sent[first]), Some((START - 27_000) * 300 + 270 * 27_000));
    assert_eq!(h.stats().dts_drift.get(&0x101), Some(&30));
    let null = ts_null_packet();
    assert!(sent[..first].iter().all(|p| *p == null || [0, 0x11, 0x100].contains(&pkt_pid(p))));
    let pats = sent[..first].iter().filter(|p| pkt_pid(&p[..]) == 0).count();
    assert_eq!(pats, 3);
    h.update_stats(0);
    assert_eq!(h.stats().bitrate_payload, 188 * 8);
}

#[test]
fn frames_of_a_fixed_size() {
    let mut h = handler(output(0, 0, false));
    let mut all = tables();
    all.extend(frames(60));
    h.write(&Bytes::from(all), &NOW);
    let mut sent: Vec<u8> = Vec::new();
    while let Some(f) = h.flush_frame() {
        assert_eq!(f.len(), 8192);
        sent.extend_from_slice(&f);
    }
    assert!(sent.len() >= 8192 * 2);
    assert_eq!(pkt_pid(&sent[..188]), 0);
    assert!(sent.chunks(188).all(|p| p[0] == 0x47));
}

#[test]
fn ready_when_the_clock_comes_near() {
    let mut h = handler(output(1316, 1_504_000, false));
    assert!(!h.ready_send(0));
    h.write(&stream(), &NOW);
    let limit = START - 27_000 + 30 * 90;
    assert!(h.ready_send(limit));
    assert!(!h.ready_send(limit + 1));
}

#[test]
fn null_packets_slow_down_what_runs_low() {
    let mut o = output(1316, 1_504_000, false);
    o.programs[0].adjust_buf = 10;
    let mut h = handler(o);
    let mut out = BytesMut::new();
    assert_eq!(h.flush_adjust_buf_packets(&mut out), 1);
    assert_eq!(&out[..], &ts_null_packet()[..]);
    h.write(&stream(), &NOW);
    assert_eq!(h.flush_adjust_buf_packets(&mut out), 0);
    assert_eq!(handler(output(0, 0, false)).flush_adjust_buf_packets(&mut out), 0);
    assert_eq!(out.len(), 188);
}

#[test]
fn foreign_packets_are_dropped() {
    let mut h = handler(output(188, 1_504_000, false));
    let mut all = tables();
    for k in 0..40u64 {
        all.extend_from_slice(&frame(0x101, k as u8, START + k * 3600));
        all.extend_from_slice(&frame(0x103, k as u8, START + k * 3600));
        all.extend_from_slice(&frame(0x102, k as u8, START + k * 3600));
    }
    h.write(&Bytes::from(all), &NOW);
    let mut seen: Vec<u16> = Vec::new();
    for _ in 0..1500 {
        let p = h.flush_packet_for_cbr().unwrap();
        if !seen.contains(&pkt_pid(&p)) {
            seen.push(pkt_pid(&p));
        }
    }
    seen.sort();
    assert_eq!(seen, vec![0x000, 0x011, 0x100, 0x101, 0x102, 0x1FFF]);
}

#[test]
fn references_are_even() {
    // References that came in 40 ms apart go out by the number of packets.
    let mut h = handler(output(188, 1_504_000, false));
    h.write(&stream(), &NOW);
    let mut last: Option<(usize, u64)> = None;
    for i in 0..1400 {
        let p = h.flush_packet_for_cbr().unwrap();
        if let Some(pcr) = pkt_extract_pcr(&p) {
            if let Some((at, before)) = last {
                assert_eq!(pcr - before, (i - at) as u64 * 27_000);
            }
            last = Some((i, pcr));
        }
    }
    assert!(last.is_some());
}

// ---- Reports ----

/// The words of what a handler reports.
fn texts(h: &mut PacketHandler) -> Vec<String> {
    h.take_reports()
        .iter()
        .map(|r| match r {
            MuxReport::Command(c) => format!("{:?}", c),
            _ => r.text(),
        })
        .collect()
}

#[test]
fn start_is_reported() {
    let mut h = handler(output(1316, 0, false));
    h.write(&stream(), &NOW);
    assert_eq!(
        texts(&mut h)[1..],
        [
            "PAT found: ",
            "Patched PAT: ",
            "PMT found: ",
            "Patched PMT: ",
            "Generated SDT from config",
            "Buffer ready: duration 1000 ms, bitrate 39 kbit/sec, size 4888 bytes, min 2444 bytes",
        ]
    );
}

#[test]
fn found_tables_are_shown() {
    let mut h = handler(output(1316, 0, false));
    let mut all = pat(1).to_vec();
    all.extend_from_slice(&prepare_sdt(1, 9, 1, "P", "N"));
    all.extend_from_slice(&prepare_sdt(1, 7, 1, "P", "N"));
    h.write(&Bytes::from(all), &NOW);
    let r = h.take_reports();
    assert!(matches!(&r[1], MuxReport::PatFound(p) if p[0].prog_num == 1));
    assert!(matches!(&r[2], MuxReport::PatPatched(p) if p[0].prog_num == 7));
    assert!(matches!(&r[3], MuxReport::SdtFound(s) if s[0].service_id == 9));
    assert_eq!(r[4].text(), "SDT found, but service_id 7 is not present");
    assert!(matches!(&r[5], MuxReport::SdtFound(s) if s[0].service_id == 7));
    assert!(matches!(&r[6], MuxReport::SdtPatched(_)));
    assert_eq!(r.len(), 7);
    assert_eq!(r[4].level(), ReportLevel::Line);
}

#[test]
fn losses_and_leaps_are_reported() {
    let mut h = handler(output(1316, 0, false));
    let mut all = tables();
    all.extend_from_slice(&frame(0x101, 14, START));
    all.extend_from_slice(&frame(0x101, 1, START + 180_000));
    h.write(&Bytes::from(all), &NOW);
    let r = h.take_reports();
    let said: Vec<String> = r[5..].iter().map(|r| r.text()).collect();
    assert_eq!(
        said[..2],
        [
            "Wrong cc: pid [0x101] received 1 but expected 15",
            "Discontinuity pid: 0x101, dts jump: 2000 ms, v:188, a:0",
        ]
    );
    assert_eq!(r[5].level(), ReportLevel::Warn);
    assert_eq!(r.last().unwrap().level(), ReportLevel::Info);
}

#[test]
fn wrong_order_is_reported() {
    let mut h = handler(output(1316, 0, false));
    let mut all = tables();
    all.extend_from_slice(&frame(0x101, 0, START + 9000));
    all.extend_from_slice(&frame(0x101, 1, START));
    h.write(&Bytes::from(all), &NOW);
    let said = texts(&mut h);
    assert_eq!(
        said[said.len() - 2..],
        ["Wrong DTS, flushing: 909000 - 900000", "Buffers clear: v:376,  a:0"]
    );
}

#[test]
fn full_and_empty_buffers_are_reported() {
    let mut h = handler(output(188, 1_504_000, false));
    h.set_check_buffer_size();
    h.write(&stream(), &NOW);
    h.take_reports();
    let mut more = Vec::new();
    for k in 26..60u64 {
        more.extend_from_slice(&frame(0x101, k as u8, START + k * 3600));
    }
    h.write(&Bytes::from(more), &NOW);
    let said = texts(&mut h);
    assert_eq!(
        said[..2],
        [
            "Buffer full: v:9776, a:0, max:9776, duration:2040",
            "Buffers clear: v:9776,  a:0",
        ]
    );
    let mut h = handler(output(188, 0, false));
    h.write(&stream(), &NOW);
    h.set_check_buffer_size();
    while h.flush_packet_for_vbr().is_some() {}
    h.take_reports();
    h.write(&Bytes::copy_from_slice(&frame(0x101, 26, START + 26 * 3600)), &NOW);
    assert_eq!(
        texts(&mut h)[..2],
        ["Buffer empty: v:188, a:0, min:2444", "Buffers clear: v:188,  a:0"]
    );
}

#[test]
fn overflow_is_reported() {
    let mut h = handler(output(188, 0, false));
    h.take_reports();
    h.set_buffer_process_async();
    h.write(&Bytes::from(vec![0u8; 1000]), &NOW);
    h.write(&Bytes::from(vec![0u8; 52_428_800]), &NOW);
    assert_eq!(texts(&mut h), ["Input buffer overflow: 1000/52428800"]);
}

// ---- Tables that change ----

#[test]
fn changed_table_stops_and_restored_table_resumes() {
    let mut h = handler(output(1316, 0, false));
    h.set_buffer_process_async();
    let mut all = pat(1).to_vec();
    all.extend_from_slice(&pat(2));
    all.extend_from_slice(&ts_null_packet());
    assert_eq!(h.write(&Bytes::from(all), &NOW), Step::Idle);
    assert!(h.has_work());
    assert_eq!(h.process_input(&NOW), Step::Idle);
    assert!(!h.has_work());
    assert_eq!(
        texts(&mut h)[3..],
        ["PAT changed", "Buffers clear: v:0,  a:0", "MarkDirty"]
    );
    h.update_stats(0);
    assert_eq!(h.stats().dirty, 1);
    assert_eq!(h.write(&Bytes::copy_from_slice(&pat(1)), &NOW), Step::Idle);
    assert!(!h.has_work());
    let mut h = handler(output(1316, 0, false));
    let mut all = pat(1).to_vec();
    all.extend_from_slice(&pat(2));
    all.extend_from_slice(&pat(1));
    h.write(&Bytes::from(all), &NOW);
    assert_eq!(
        texts(&mut h),
        [
            "BISS init failed: BISS key is empty",
            "PAT found: ",
            "Patched PAT: ",
            "PAT changed",
            "Buffers clear: v:0,  a:0",
            "MarkDirty",
            "PAT restored",
            "UnMarkDirty",
        ]
    );
    assert!(h.take_reports().is_empty());
    assert_eq!(Cmd::MarkDirty.as_str(), "mark_dirty");
    assert_eq!(Cmd::UnMarkDirty.as_str(), "unmark_dirty");
}

#[test]
fn malformed_tables_are_passed_over() {
    let mut h = handler(output(1316, 0, false));
    let mut all = pack(&[0x00, 0xB0, 0x00], 0, 0).to_vec();
    all.extend_from_slice(&pack(&[0x02, 0xB0, 0x03, 1, 2, 3], 0x100, 0));
    all.extend_from_slice(&stream());
    assert_eq!(h.write(&Bytes::from(all), &NOW), Step::Idle);
    let first = packets(&h.flush_packet_for_vbr().unwrap());
    assert_eq!(analyze_pat(&section_of(&first[0])), vec![PatInfo { prog_num: 7, pmt_pid: 0x100 }]);
}

#[test]
fn lost_packets_are_counted() {
    let mut h = handler(output(1316, 0, false));
    let mut all = tables();
    all.extend_from_slice(&frame(0x101, 0, START));
    all.extend_from_slice(&frame(0x101, 1, START + 3600));
    all.extend_from_slice(&frame(0x101, 4, START + 7200));
    all.extend_from_slice(&frame(0x101, 5, START + 10_800));
    h.write(&Bytes::from(all), &NOW);
    h.update_stats(0);
    assert_eq!(h.stats().cc.get(&0x101), Some(&1));
    assert_eq!(h.stats().cc.get(&0x102), Some(&0));
}

// ---- Synchronisation ----

#[test]
fn buffer_is_aligned_to_packets() {
    let mut b = BytesMut::new();
    b.extend_from_slice(&[0x47, 1, 2]);
    for _ in 0..3 {
        b.extend_from_slice(&ts_null_packet());
    }
    assert!(PacketHandler::sync_buffer(&mut b));
    assert_eq!(b.len(), 564);
    assert_eq!(&b[..188], &ts_null_packet()[..]);
    let mut b = BytesMut::from(&[0u8; 600][..]);
    assert!(!PacketHandler::sync_buffer(&mut b));
    assert_eq!(b.len(), 0);
    let mut b = BytesMut::from(&[0x47u8; 500][..]);
    assert!(!PacketHandler::sync_buffer(&mut b));
    assert_eq!(b.len(), 500);
}

#[test]
fn proxy_passes_datagrams() {
    let mut h = handler(output(376, 0, true));
    let mut all = vec![1u8, 2, 3];
    for _ in 0..5 {
        all.extend_from_slice(&ts_null_packet());
    }
    let got = h.proxy_packet(Bytes::from(all));
    assert_eq!(got.len(), 2);
    assert!(got.iter().all(|d| d.len() == 376 && d[0] == 0x47 && d[188] == 0x47));
    let got = h.proxy_packet(Bytes::copy_from_slice(&ts_null_packet()));
    assert_eq!(got.len(), 1);
    let mut h = handler(output(0, 0, true));
    let got = h.proxy_packet(Bytes::from_static(b"abc"));
    assert_eq!(got, vec![Bytes::from_static(b"abc")]);
}

// ---- Buffers ----

fn waiting(dts: u64, pusi: bool) -> TsPacket {
    TsPacket::new(frame(0x101, 0, START), 0x101, dts, dts, pusi, false)
}

#[test]
fn buffer_counts_what_it_holds() {
    let mut b = OutBuffer::new(5000);
    assert_eq!((b.len(), b.size(), b.duration()), (0, 0, 0));
    let mut p = waiting(90_000, true);
    assert_eq!(p.pcr, None);
    p.extract_pcr();
    assert_eq!(p.pcr, Some((START - 45_000) * 300));
    b.push_back(p);
    b.push_back(waiting(99_000, false));
    b.push_back(waiting(180_000, true));
    assert_eq!((b.len(), b.size(), b.duration()), (3, 564, 1000));
    assert_eq!((b.frames(), b.pcrs()), (2, 1));
    assert_eq!(b.unit_span(), Some((90_000, 180_000)));
    assert_eq!(b.front().unwrap().dts, 90_000);
    assert_eq!(b.back().unwrap().dts, 180_000);
    assert_eq!(b.pop_front().unwrap().dts, 90_000);
    assert_eq!((b.frames(), b.pcrs()), (1, 0));
    b.clear();
    assert_eq!((b.len(), b.frames(), b.max_size()), (0, 0, 5000));
    assert!(b.pop_front().is_none());
}

#[test]
fn losses_are_counted_from_none() {
    let mut h = handler(output(188, 0, false));
    h.write(&stream(), &NOW);
    // The counts start anew with sending.
    h.update_stats(0);
    let mut more = Vec::new();
    more.extend_from_slice(&frame(0x101, 0, START + 26 * 3600));
    more.extend_from_slice(&frame(0x101, 5, START + 27 * 3600));
    more.extend_from_slice(&frame(0x101, 6, START + 28 * 3600));
    h.write(&Bytes::from(more), &NOW);
    h.update_stats(0);
    assert_eq!(h.stats().cc.get(&0x101), Some(&2));
}

#[test]
fn clock_is_set_within_its_cycle() {
    let mut r = PcrRestamper::new(0);
    r.resync(0x2_0000_0000 + 7);
    assert_eq!(r.get_pcr(), Some(2100));
    r.resync(u64::MAX / 300);
    assert_eq!(r.get_pcr(), Some((u64::MAX / 300 * 300) % (0x2_0000_0000 * 300)));
}

#[test]
fn clock_runs_with_the_packets() {
    let mut r = PcrRestamper::new(1_504_000);
    assert_eq!(r.get_pcr(), None);
    r.resync(1000);
    assert_eq!(r.get_pcr(), Some(300_000));
    r.count_packets(10);
    assert_eq!(r.get_pcr(), Some(300_000 + 270_000));
    let mut p = frame(0x101, 0, START);
    assert_eq!(r.extract_pcr_safe(&p), Some((START - 45_000) * 300));
    assert_eq!(r.process_packet(&mut p), Some(570_000));
    assert_eq!(pkt_extract_pcr(&p), Some(570_000));
    assert_eq!(r.get_pcr(), Some(570_000));
    let mut null = ts_null_packet();
    assert_eq!(r.process_packet(&mut null), None);
    assert_eq!(null, ts_null_packet());
    let mut still = PcrRestamper::new(0);
    still.resync(1);
    still.count_packets(1000);
    assert_eq!(still.get_pcr(), Some(300));
}

// ---- Scrambling ----

#[test]
fn keys() {
    assert_eq!(PacketHandler::init_biss(""), Err(BissError::Empty));
    assert_eq!(PacketHandler::init_biss("1234"), Err(BissError::Length));
    assert_eq!(PacketHandler::init_biss("12345678901g"), Err(BissError::Digit));
    let d = Biss1Descrambler::new_from_hex(" 0x0102030aF0FF \n").unwrap();
    assert_eq!(d.control_word(), [1, 2, 3, 6, 0x0A, 0xF0, 0xFF, 0xF9]);
    let d = Biss1Descrambler::new_from_hex("0102030405060708").unwrap();
    assert_eq!(d.control_word(), [1, 2, 3, 4, 5, 6, 7, 8]);
    assert_eq!(BissError::Length.message(), "BISS-1 key must be 12 or 16 hex digits");
}

#[test]
fn scrambled_packets_are_replaced() {
    let d = Biss1Descrambler::new_from_hex("010203040506").unwrap();
    let mut p = ts_null_packet();
    assert_eq!(Biss1Descrambler::scrambled(&p), None);
    p[3] = 0x9A;
    assert_eq!(Biss1Descrambler::scrambled(&p), Some(Scrambled { offset: 4, odd: false }));
    p[3] = 0xD0;
    assert_eq!(Biss1Descrambler::scrambled(&p), Some(Scrambled { offset: 4, odd: true }));
    p[3] = 0xF0;
    p[4] = 176;
    assert_eq!(Biss1Descrambler::scrambled(&p), None);
    p[4] = 175;
    let mut data = ts_null_packet().to_vec();
    data.extend_from_slice(&p);
    data.extend_from_slice(&[7; 9]);
    let found = d.scrambled_ts_packets(&data);
    assert_eq!(found, vec![(188, Scrambled { offset: 180, odd: true })]);
    let n = d.descramble_ts_packets(&mut data, &vec![vec![1, 2, 3, 4, 5, 6, 7, 8]]);
    assert_eq!(n, 1);
    assert_eq!(data[188 + 3], 0x30);
    assert_eq!(&data[188 + 180..], &[1, 2, 3, 4, 5, 6, 7, 8, 7, 7, 7, 7, 7, 7, 7, 7, 7]);
    assert!(d.descramble_ts_packet(&mut p, &[8; 8]));
    assert_eq!(p[3], 0x30);
    assert!(!d.descramble_ts_packet(&mut p, &[]));
}

#[test]
fn handler_waits_for_the_cipher() {
    let mut o = output(188, 0, false);
    o.biss_key = "010203040506".to_string();
    let mut h = handler(o);
    let plain = frame(0x101, 0, START);
    let mut hidden = plain;
    hidden[3] |= 0x80;
    for b in hidden[12..].iter_mut() {
        *b ^= 0xAA;
    }
    let mut all = tables();
    all.extend_from_slice(&hidden);
    all.extend(frames(26)[188..].to_vec());
    let step = h.write(&Bytes::from(all), &NOW);
    assert_eq!(step, Step::Descramble(Scrambled { offset: 12, odd: false }));
    assert_eq!(h.head_packet().as_deref(), Some(&hidden[..]));
    assert_eq!(h.resume(Some(plain[12..].to_vec()), &NOW), Step::Idle);
    let mut sent = Vec::new();
    while let Some(d) = h.flush_packet_for_vbr() {
        sent.extend(packets(&d));
    }
    let first = sent.iter().find(|p| pkt_pid(&p[..]) == 0x101).unwrap();
    assert_eq!(first, &plain);
}
