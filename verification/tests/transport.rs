//! Clocks and packets.

use mymuxer::clock::{
    dts_after, dts_before_or_equal, dts_forward_delta_ms, dts_signed_delta, pcr_add, pcr_after,
    pcr_normalize, pcr_signed_delta, pcr_sub,
};
use mymuxer::packet::{
    null_pkt, pkt_extract_pcr, pkt_get_discontinuity, pkt_has_payload, pkt_is_pcr_present, pkt_next,
    pkt_pid, pkt_pts_dts, pkt_set_discontinuity, pkt_write_pcr, ts_null_packet,
};

const DTS_TOP: u64 = 0x1_FFFF_FFFF;

const CYCLE: u64 = 0x2_0000_0000 * 300;

fn pcr_packet(pid: u16) -> [u8; 188] {
    let mut p = [0xFFu8; 188];
    p[0] = 0x47;
    p[1] = (pid >> 8) as u8;
    p[2] = pid as u8;
    p[3] = 0x20;
    p[4] = 183;
    p[5] = 0x10;
    p
}

fn put_timestamp(p: &mut [u8], at: usize, mark: u8, t: u64) {
    p[at] = (mark << 4) | (((t >> 30) as u8 & 7) << 1) | 1;
    p[at + 1] = (t >> 22) as u8;
    p[at + 2] = ((t >> 15) as u8) << 1 | 1;
    p[at + 3] = (t >> 7) as u8;
    p[at + 4] = (t as u8) << 1 | 1;
}

fn pes_packet(pid: u16, pts: u64, dts: Option<u64>) -> [u8; 188] {
    let mut p = [0u8; 188];
    p[0] = 0x47;
    p[1] = 0x40 | (pid >> 8) as u8;
    p[2] = pid as u8;
    p[3] = 0x10;
    p[6] = 1;
    p[7] = 0xE0;
    p[10] = 0x80;
    p[11] = if dts.is_some() { 0xC0 } else { 0x80 };
    p[12] = 10;
    put_timestamp(&mut p, 13, 2, pts);
    if let Some(d) = dts {
        put_timestamp(&mut p, 18, 1, d);
    }
    p
}

#[test]
fn dts_order_survives_the_wrap() {
    assert!(dts_after(5, DTS_TOP));
    assert!(!dts_after(DTS_TOP, 5));
    assert!(!dts_after(7, 7));
    assert!(dts_before_or_equal(7, 7));
    assert!(dts_before_or_equal(DTS_TOP, 5));
    assert_eq!(dts_signed_delta(5, DTS_TOP), 6);
    assert_eq!(dts_signed_delta(DTS_TOP, 5), -6);
    assert_eq!(dts_signed_delta(0x1_0000_0000, 0), -0x1_0000_0000);
}

#[test]
fn dts_distance_in_milliseconds() {
    assert_eq!(dts_forward_delta_ms(90_000, 0), Some(1000));
    assert_eq!(dts_forward_delta_ms(89, 0), Some(0));
    assert_eq!(dts_forward_delta_ms(0, 90_000), None);
    assert_eq!(dts_forward_delta_ms(4, 4), None);
    assert_eq!(dts_forward_delta_ms(89, DTS_TOP), Some(1));
}

#[test]
fn pcr_arithmetic_wraps_at_the_cycle() {
    assert_eq!(pcr_normalize(CYCLE + 3), 3);
    assert_eq!(pcr_add(CYCLE - 1, 5), 4);
    assert_eq!(pcr_sub(4, 5), CYCLE - 1);
    assert_eq!(pcr_sub(pcr_add(12, 30), 30), 12);
    assert!(pcr_after(3, CYCLE - 3));
    assert!(!pcr_after(CYCLE - 3, 3));
    assert_eq!(pcr_signed_delta(3, CYCLE - 3), 6);
    assert_eq!(pcr_signed_delta(CYCLE - 3, 3), -6);
    assert_eq!(pcr_signed_delta(CYCLE / 2, 0), -((CYCLE / 2) as i64));
}

#[test]
fn null_packet_carries_nothing() {
    let p = ts_null_packet();
    assert_eq!(&p[..4], &[0x47, 0x1F, 0xFF, 0x10]);
    assert!(p[4..].iter().all(|b| *b == 0xFF));
    assert_eq!(&null_pkt()[..], &p[..]);
    assert_eq!(pkt_pid(&p), 0x1FFF);
    assert!(pkt_has_payload(&p));
}

#[test]
fn pcr_is_read_as_it_was_written() {
    let mut p = pcr_packet(0x100);
    assert!(pkt_is_pcr_present(&p));
    for pcr in [0, 1, 299, 300, 27_000_000, CYCLE - 1] {
        pkt_write_pcr(&mut p, pcr);
        assert_eq!(pkt_extract_pcr(&p), Some(pcr));
    }
    pkt_write_pcr(&mut p, 0x1_2345_6789 * 300 + 0x12B);
    assert_eq!(&p[6..12], &[0x91, 0xA2, 0xB3, 0xC4, 0xFF, 0x2B]);
}

#[test]
fn pcr_is_absent_without_the_field() {
    let mut p = pcr_packet(0x100);
    p[5] = 0;
    assert_eq!(pkt_extract_pcr(&p), None);
    assert!(!pkt_is_pcr_present(&p));
    p[5] = 0x10;
    p[4] = 6;
    assert_eq!(pkt_extract_pcr(&p), None);
    p[4] = 183;
    p[3] = 0x10;
    assert_eq!(pkt_extract_pcr(&p), None);
    assert!(!pkt_is_pcr_present(&p));
}

#[test]
fn timestamps_are_read() {
    let p = pes_packet(0x101, 0x1_2345_6789, Some(0x0_1234_5678));
    assert_eq!(pkt_pts_dts(&p, 0x101), Some((0x1_2345_6789, 0x0_1234_5678)));
    assert_eq!(pkt_pts_dts(&p, 0x102), None);
    let p = pes_packet(0x101, 900, None);
    assert_eq!(pkt_pts_dts(&p, 0x101), Some((900, 900)));
}

#[test]
fn timestamps_are_absent() {
    let good = pes_packet(0x101, 900, None);
    let mut p = good;
    p[0] = 0x46;
    assert_eq!(pkt_pts_dts(&p, 0x101), None);
    p = good;
    p[1] &= !0x40;
    assert_eq!(pkt_pts_dts(&p, 0x101), None);
    p = good;
    p[3] = 0x20;
    assert_eq!(pkt_pts_dts(&p, 0x101), None);
    p = good;
    p[7] = 0xBC;
    assert_eq!(pkt_pts_dts(&p, 0x101), None);
    p = good;
    p[7] = 0xBD;
    assert_eq!(pkt_pts_dts(&p, 0x101), Some((900, 900)));
    p = good;
    p[11] = 0x40;
    assert_eq!(pkt_pts_dts(&p, 0x101), None);
    assert_eq!(pkt_pts_dts(&good[..187], 0x101), None);
}

#[test]
fn discontinuity_is_set_where_there_is_room() {
    let mut p = pcr_packet(0x100);
    assert!(!pkt_get_discontinuity(&p));
    assert!(pkt_set_discontinuity(&mut p));
    assert!(pkt_get_discontinuity(&p));
    assert_eq!(p[5], 0x90);
    p[4] = 0;
    assert!(!pkt_get_discontinuity(&p));
    assert!(!pkt_set_discontinuity(&mut p));
    let mut q = ts_null_packet();
    assert!(!pkt_set_discontinuity(&mut q));
    assert!(!pkt_set_discontinuity(&mut q[..5]));
    assert_eq!(q, ts_null_packet());
}

#[test]
fn counter_goes_round() {
    let mut p = ts_null_packet();
    p[3] = 0x1E;
    pkt_next(&mut p);
    assert_eq!(p[3], 0x1F);
    pkt_next(&mut p);
    assert_eq!(p[3], 0x10);
    let before = p;
    for _ in 0..16 {
        pkt_next(&mut p);
    }
    assert_eq!(p, before);
}

#[test]
fn payload_is_told_by_the_header() {
    let mut p = ts_null_packet();
    p[3] = 0x00;
    assert!(!pkt_has_payload(&p));
    p[3] = 0x20;
    assert!(!pkt_has_payload(&p));
    p[3] = 0x30;
    assert!(pkt_has_payload(&p));
}
