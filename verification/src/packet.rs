//! Transport stream packets: header fields, clock references and the time
//! stamps of a packetised elementary stream that starts in a packet.

use crate::bits::{join16, lemma_byte_fields};
use crate::buffer::{shared_bytes, shared_copy};
use bytes::Bytes;
use vstd::prelude::*;

verus! {

pub const TS_PACKET_SIZE: usize = 188;

pub const TS_SYNC_BYTE: u8 = 0x47;

/// The packet identifier in a packet's header.
pub open spec fn pid_of(packet: Seq<u8>) -> int {
    (packet[1] as int % 32) * 256 + packet[2] as int
}

/// Whether a payload unit starts in the packet.
pub open spec fn unit_start(packet: Seq<u8>) -> bool {
    (packet[1] / 64) % 2 == 1
}

/// The two bits that say whether an adaptation field (2), a payload (1) or
/// both (3) follow the header.
pub open spec fn field_control(packet: Seq<u8>) -> int {
    (packet[3] as int / 16) % 4
}

/// The continuity counter in a packet's header.
pub open spec fn counter_of(packet: Seq<u8>) -> int {
    packet[3] as int % 16
}

/// Where the payload begins, if the packet carries one.
pub open spec fn payload_start(packet: Seq<u8>) -> Option<int> {
    if field_control(packet) == 1 {
        Some(4)
    } else if field_control(packet) == 3 {
        Some(5 + packet[4] as int)
    } else {
        None
    }
}

/// The 33-bit time stamp that is spread over five bytes, with a marker bit at
/// the end of the first, third and fifth.
pub open spec fn timestamp_at(packet: Seq<u8>, at: int) -> int {
    ((packet[at] as int / 2) % 8) * 0x4000_0000 + packet[at + 1] as int * 0x40_0000 + (packet[at
        + 2] as int / 2) * 0x8000 + packet[at + 3] as int * 0x80 + packet[at + 4] as int / 2
}

/// Whether a stream identifier belongs to audio, video or a private stream.
pub open spec fn timed_stream_id(id: u8) -> bool {
    0xC0 <= id <= 0xEF || id == 0xBD
}

/// Whether an elementary stream packet of `pid` that has a presentation time
/// starts in the packet.
pub open spec fn has_timestamps(packet: Seq<u8>, pid: int) -> bool {
    &&& packet.len() >= 188
    &&& packet[0] == TS_SYNC_BYTE
    &&& pid_of(packet) == pid
    &&& unit_start(packet)
    &&& payload_start(packet) matches Some(at) && {
        &&& at + 14 <= 188
        &&& packet[at] == 0 && packet[at + 1] == 0 && packet[at + 2] == 1
        &&& timed_stream_id(packet[at + 3])
        &&& packet[at + 7] >= 0x80
    }
}

/// Presentation and decoding time of the elementary stream packet that starts
/// here. Without a decoding time of its own it is decoded when presented.
pub open spec fn timestamps(packet: Seq<u8>, pid: int) -> Option<(int, int)> {
    if has_timestamps(packet, pid) {
        let at = payload_start(packet)->0;
        let pts = timestamp_at(packet, at + 9);
        if packet[at + 7] >= 0xC0 && at + 18 < 188 {
            Some((pts, timestamp_at(packet, at + 14)))
        } else {
            Some((pts, pts))
        }
    } else {
        None
    }
}

/// Whether a packet is long enough to look for a clock reference in it.
pub open spec fn pcr_readable(packet: Seq<u8>) -> bool {
    &&& packet.len() >= 4
    &&& field_control(packet) >= 2 ==> packet.len() >= 5
    &&& field_control(packet) >= 2 && packet[4] >= 7 ==> packet.len() >= 6
    &&& has_pcr(packet) ==> packet.len() >= 12
}

/// Whether the adaptation field carries a program clock reference.
pub open spec fn has_pcr(packet: Seq<u8>) -> bool {
    &&& field_control(packet) >= 2
    &&& packet[4] >= 7
    &&& (packet[5] / 16) % 2 == 1
}

/// The clock reference in bytes 6 to 11: a 33-bit count of 90 kHz ticks and a
/// 9-bit count of 27 MHz ticks.
pub open spec fn pcr_value(packet: Seq<u8>) -> int {
    (packet[6] as int * 0x200_0000 + packet[7] as int * 0x2_0000 + packet[8] as int * 0x200
        + packet[9] as int * 2 + packet[10] as int / 128) * 300 + (packet[10] as int % 2) * 256
        + packet[11] as int
}

/// The six bytes that hold a clock reference.
pub open spec fn pcr_field(pcr: int) -> Seq<u8> {
    let base = pcr / 300;
    let ext = pcr % 300;
    seq![
        ((base / 0x200_0000) % 256) as u8,
        ((base / 0x2_0000) % 256) as u8,
        ((base / 0x200) % 256) as u8,
        ((base / 2) % 256) as u8,
        ((base % 2) * 128 + 126 + ext / 256) as u8,
        (ext % 256) as u8,
    ]
}

/// A packet with the clock reference in its adaptation field replaced.
pub open spec fn with_pcr(packet: Seq<u8>, pcr: int) -> Seq<u8> {
    packet.subrange(0, 6) + pcr_field(pcr) + packet.subrange(12, packet.len() as int)
}

/// Whether the discontinuity flag of a packet can be read and written.
pub open spec fn has_discontinuity_flag(packet: Seq<u8>) -> bool {
    packet.len() >= 6 && field_control(packet) >= 2 && packet[4] >= 1
}

/// Whether the packet announces a discontinuity.
pub open spec fn discontinuity(packet: Seq<u8>) -> bool {
    has_discontinuity_flag(packet) && packet[5] >= 0x80
}

/// A packet that carries nothing.
pub open spec fn null_packet() -> Seq<u8> {
    seq![0x47u8, 0x1F, 0xFF, 0x10] + Seq::new(184, |i: int| 0xFFu8)
}

/// A packet that carries nothing.
pub fn ts_null_packet() -> (r: [u8; TS_PACKET_SIZE])
    ensures
        r@ == null_packet(),
{
    let mut packet: [u8; TS_PACKET_SIZE] = [0xFF;TS_PACKET_SIZE];
    packet[0] = TS_SYNC_BYTE;
    packet[1] = 0x1F;
    packet[2] = 0xFF;
    packet[3] = 0x10;
    assert(packet@ =~= null_packet());
    packet
}

/// A packet that carries nothing, as a shared buffer.
pub fn null_pkt() -> (r: Bytes)
    ensures
        shared_bytes(r) == null_packet(),
{
    shared_copy(ts_null_packet().as_slice())
}

/// The packet identifier in a packet's header.
pub fn pkt_pid(pkt: &[u8]) -> (r: u16)
    requires
        pkt@.len() >= 3,
    ensures
        r == pid_of(pkt@),
        r < 0x2000,
{
    proof {
        lemma_byte_fields();
    }
    join16(pkt[1] & 0x1F, pkt[2])
}

proof fn lemma_timestamp(a: u8, b: u8, c: u8, d: u8, e: u8)
    by (bit_vector)
    ensures
        (((a as u64 & 0x0E) << 29u64) | ((b as u64) << 22u64) | ((c as u64 & 0xFE) << 14u64) | ((
        d as u64) << 7u64) | ((e as u64 & 0xFE) >> 1u64)) == ((a / 2) % 8) * 0x4000_0000 + b
            * 0x40_0000 + (c / 2) * 0x8000 + d * 0x80 + e / 2,
{
}

/// Reads the time stamp that starts at `at`.
fn read_timestamp(packet: &[u8], at: usize) -> (r: u64)
    requires
        at + 5 <= packet@.len(),
    ensures
        r == timestamp_at(packet@, at as int),
        r < 0x2_0000_0000,
{
    let a = packet[at];
    let b = packet[at + 1];
    let c = packet[at + 2];
    let d = packet[at + 3];
    let e = packet[at + 4];
    proof {
        lemma_timestamp(a, b, c, d, e);
    }
    ((a as u64 & 0x0E) << 29u64) | ((b as u64) << 22u64) | ((c as u64 & 0xFE) << 14u64) | ((
    d as u64) << 7u64) | ((e as u64 & 0xFE) >> 1u64)
}

/// Presentation and decoding time of the elementary stream packet of
/// `check_pid` that starts in this packet.
pub fn pkt_pts_dts(packet: &[u8], check_pid: u16) -> (r: Option<(u64, u64)>)
    ensures
        r is Some == timestamps(packet@, check_pid as int) is Some,
        r matches Some(t) ==> timestamps(packet@, check_pid as int) == Some(
            (t.0 as int, t.1 as int),
        ) && t.0 < 0x2_0000_0000 && t.1 < 0x2_0000_0000,
{
    if packet.len() < TS_PACKET_SIZE || packet[0] != TS_SYNC_BYTE {
        return None;
    }
    if pkt_pid(packet) != check_pid {
        return None;
    }
    proof {
        lemma_byte_fields();
    }
    if (packet[1] & 0x40) == 0 {
        return None;
    }
    let control: u8 = (packet[3] >> 4u8) & 0x03;
    let offset: usize = match control {
        1 => 4,
        3 => 5 + packet[4] as usize,
        _ => return None,
    };
    if offset + 14 > TS_PACKET_SIZE {
        return None;
    }
    if packet[offset] != 0 || packet[offset + 1] != 0 || packet[offset + 2] != 1 {
        return None;
    }
    let stream_id = packet[offset + 3];
    if !((0xC0 <= stream_id && stream_id <= 0xEF) || stream_id == 0xBD) {
        return None;
    }
    let flags: u8 = packet[offset + 7] >> 6u8;
    if flags < 2 {
        return None;
    }
    let pts = read_timestamp(packet, offset + 9);
    let dts = if flags == 3 && offset + 18 < TS_PACKET_SIZE {
        read_timestamp(packet, offset + 14)
    } else {
        pts
    };
    Some((pts, dts))
}

proof fn lemma_pcr_read(a: u8, b: u8, c: u8, d: u8, e: u8, f: u8)
    by (bit_vector)
    ensures
        (((a as u64) << 25u64) | ((b as u64) << 17u64) | ((c as u64) << 9u64) | ((d as u64)
            << 1u64) | ((e as u64) >> 7u64)) == a * 0x200_0000 + b * 0x2_0000 + c * 0x200 + d * 2
            + e / 128,
        ((((e as u64) & 0x01) << 8u64) | (f as u64)) == (e % 2) * 256 + f,
{
}

/// The clock reference that a packet carries, in 27 MHz ticks.
pub fn pkt_extract_pcr(packet: &[u8]) -> (r: Option<u64>)
    requires
        pcr_readable(packet@),
    ensures
        r is Some == has_pcr(packet@),
        r matches Some(pcr) ==> pcr == pcr_value(packet@) && pcr < 0x2_0000_0000 * 300 + 512,
{
    proof {
        lemma_byte_fields();
    }
    let control: u8 = (packet[3] >> 4u8) & 0x03;
    if control < 2 {
        return None;
    }
    if packet[4] < 7 {
        return None;
    }
    if (packet[5] & 0x10) == 0 {
        return None;
    }
    let a = packet[6];
    let b = packet[7];
    let c = packet[8];
    let d = packet[9];
    let e = packet[10];
    let f = packet[11];
    proof {
        lemma_pcr_read(a, b, c, d, e, f);
    }
    let base: u64 = ((a as u64) << 25u64) | ((b as u64) << 17u64) | ((c as u64) << 9u64) | ((
    d as u64) << 1u64) | ((e as u64) >> 7u64);
    let ext: u64 = (((e as u64) & 0x01) << 8u64) | (f as u64);
    Some(base * 300 + ext)
}

proof fn lemma_pcr_write(base: u64, ext: u64)
    by (bit_vector)
    requires
        ext < 300,
    ensures
        (base >> 25u64) as u8 == (base / 0x200_0000) % 256,
        (base >> 17u64) as u8 == (base / 0x2_0000) % 256,
        (base >> 9u64) as u8 == (base / 0x200) % 256,
        (base >> 1u64) as u8 == (base / 2) % 256,
        ((((base << 7u64) as u8) & 0x80u8) | 0x7Eu8 | (((ext >> 8u64) as u8) & 0x01u8)) == (base
            % 2) * 128 + 126 + ext / 256,
        (ext & 0xFF) as u8 == ext % 256,
{
}

/// Replaces the clock reference of a packet.
pub fn pkt_write_pcr(packet: &mut [u8], pcr: u64)
    requires
        old(packet)@.len() >= 12,
    ensures
        final(packet)@ == with_pcr(old(packet)@, pcr as int),
{
    let base: u64 = pcr / 300;
    let ext: u64 = pcr % 300;
    proof {
        lemma_pcr_write(base, ext);
    }
    packet[6] = (base >> 25u64) as u8;
    packet[7] = (base >> 17u64) as u8;
    packet[8] = (base >> 9u64) as u8;
    packet[9] = (base >> 1u64) as u8;
    packet[10] = (((base << 7u64) as u8) & 0x80u8) | 0x7Eu8 | (((ext >> 8u64) as u8) & 0x01u8);
    packet[11] = (ext & 0xFF) as u8;
    assert(packet@ =~= with_pcr(old(packet)@, pcr as int));
}

/// Whether the packet carries a clock reference.
pub fn pkt_is_pcr_present(packet: &[u8]) -> (r: bool)
    requires
        packet@.len() >= 4,
        field_control(packet@) >= 2 ==> packet@.len() >= 6,
    ensures
        r == has_pcr(packet@),
{
    proof {
        lemma_byte_fields();
    }
    let control: u8 = (packet[3] >> 4u8) & 0x03;
    if control < 2 {
        return false;
    }
    (packet[5] & 0x10) != 0 && packet[4] >= 7
}

/// Whether the packet carries a payload.
pub fn pkt_has_payload(packet: &[u8]) -> (r: bool)
    requires
        packet@.len() >= 4,
    ensures
        r == (payload_start(packet@) is Some),
{
    proof {
        lemma_byte_fields();
    }
    let control: u8 = (packet[3] >> 4u8) & 0x03;
    control == 1 || control == 3
}

/// Whether the packet announces a discontinuity.
pub fn pkt_get_discontinuity(packet: &[u8]) -> (r: bool)
    ensures
        r == discontinuity(packet@),
{
    proof {
        lemma_byte_fields();
    }
    if packet.len() < 6 {
        return false;
    }
    let control: u8 = (packet[3] >> 4u8) & 0x03;
    if control < 2 {
        return false;
    }
    if packet[4] < 1 {
        return false;
    }
    (packet[5] & 0x80) != 0
}

/// Announces a discontinuity where the packet has the flag for it, and says
/// whether it has.
pub fn pkt_set_discontinuity(packet: &mut [u8]) -> (r: bool)
    ensures
        r == has_discontinuity_flag(old(packet)@),
        r ==> final(packet)@ == old(packet)@.update(
            5,
            (old(packet)@[5] as int % 128 + 128) as u8,
        ),
        !r ==> final(packet)@ == old(packet)@,
{
    proof {
        lemma_byte_fields();
    }
    if packet.len() < 6 {
        return false;
    }
    let control: u8 = (packet[3] >> 4u8) & 0x03;
    if control < 2 {
        return false;
    }
    if packet[4] < 1 {
        return false;
    }
    packet[5] = packet[5] | 0x80;
    true
}

/// A packet whose continuity counter has moved on by one.
pub open spec fn with_next_counter(packet: Seq<u8>) -> Seq<u8> {
    packet.update(
        3,
        (packet[3] as int - counter_of(packet) + (counter_of(packet) + 1) % 16) as u8,
    )
}

proof fn lemma_counter_byte(b: u8, c: u8)
    by (bit_vector)
    requires
        c < 16,
    ensures
        ((b & 0xF0) | c) == b - b % 16 + c,
{
}

/// Moves the continuity counter on by one, from 15 back to 0.
pub fn pkt_next(packet: &mut [u8])
    requires
        old(packet)@.len() >= 4,
    ensures
        final(packet)@ == with_next_counter(old(packet)@),
{
    let current: u8 = packet[3];
    proof {
        lemma_byte_fields();
    }
    let next: u8 = ((current & 0x0F) + 1) & 0x0F;
    proof {
        lemma_counter_byte(current, next);
    }
    packet[3] = (current & 0xF0) | next;
}

/// The digits of the 33-bit part of a clock reference.
proof fn lemma_pcr_digits(base: int)
    requires
        base >= 0,
    ensures
        ((base / 0x200_0000) % 256) * 0x200_0000 + ((base / 0x2_0000) % 256) * 0x2_0000 + ((base
            / 0x200) % 256) * 0x200 + ((base / 2) % 256) * 2 + base % 2 == base % 0x2_0000_0000,
{
    let a = base / 2;
    let b = a / 256;
    let c = b / 256;
    let d = c / 256;
    let e = d / 256;
    assert(base / 0x200 == b);
    assert(base / 0x2_0000 == c);
    assert(base / 0x200_0000 == d);
    assert(base == 2 * a + base % 2);
    assert(a == 256 * b + a % 256);
    assert(b == 256 * c + b % 256);
    assert(c == 256 * d + c % 256);
    assert(d == 256 * e + d % 256);
    assert(base / 0x2_0000_0000 == e);
}

/// A clock reference that is written into a packet is read back from it: the
/// 33 bits of its 90 kHz part and the whole of its 27 MHz part.
pub proof fn law_pcr_round_trip(packet: Seq<u8>, pcr: int)
    requires
        packet.len() >= 12,
        pcr >= 0,
    ensures
        has_pcr(with_pcr(packet, pcr)) == has_pcr(packet),
        pcr_value(with_pcr(packet, pcr)) == ((pcr / 300) % 0x2_0000_0000) * 300 + pcr % 300,
{
    let w = with_pcr(packet, pcr);
    let base = pcr / 300;
    let ext = pcr % 300;
    assert(w[6] == pcr_field(pcr)[0]);
    assert(w[7] == pcr_field(pcr)[1]);
    assert(w[8] == pcr_field(pcr)[2]);
    assert(w[9] == pcr_field(pcr)[3]);
    assert(w[10] == pcr_field(pcr)[4]);
    assert(w[11] == pcr_field(pcr)[5]);
    assert(w[3] == packet[3] && w[4] == packet[4] && w[5] == packet[5]);
    let mark = (base % 2) * 128 + 126 + ext / 256;
    assert(w[10] as int == mark);
    assert(mark / 128 == base % 2);
    assert(mark % 2 == ext / 256);
    lemma_pcr_digits(base);
}

/// Setting the discontinuity flag makes the packet announce a discontinuity.
pub proof fn law_discontinuity_set(packet: Seq<u8>)
    requires
        has_discontinuity_flag(packet),
    ensures
        discontinuity(packet.update(5, (packet[5] as int % 128 + 128) as u8)),
{
}

/// Moving the counter on touches only the counter, and sixteen steps bring it
/// back: one step adds one modulo 16.
pub proof fn law_next_counter(packet: Seq<u8>)
    requires
        packet.len() >= 4,
    ensures
        counter_of(with_next_counter(packet)) == (counter_of(packet) + 1) % 16,
        pid_of(with_next_counter(packet)) == pid_of(packet),
        field_control(with_next_counter(packet)) == field_control(packet),
        with_next_counter(packet).len() == packet.len(),
        forall|i: int|
            0 <= i < packet.len() && i != 3 ==> #[trigger] with_next_counter(packet)[i]
                == packet[i],
{
}

/// Whether five bytes of a packet bear a time of 33 bits: three bits of it in the first
/// byte, fifteen in each of the two pairs behind it, and a marker bit behind each part.
pub open spec fn bears_time(packet: Seq<u8>, at: int, time: int) -> bool {
    &&& packet[at] % 16 == (time / 0x4000_0000) * 2 + 1
    &&& packet[at + 1] * 256 + packet[at + 2] == ((time / 0x8000) % 0x8000) * 2 + 1
    &&& packet[at + 3] * 256 + packet[at + 4] == (time % 0x8000) * 2 + 1
}

proof fn lemma_time_is_read(packet: Seq<u8>, at: int, time: int)
    requires
        bears_time(packet, at, time),
        0 <= time < 0x2_0000_0000,
    ensures
        timestamp_at(packet, at) == time,
{
    let high = time / 0x4000_0000;
    let mid = (time / 0x8000) % 0x8000;
    let low = time % 0x8000;
    assert(time / 0x4000_0000 == (time / 0x8000) / 0x8000);
    assert(time == high * 0x4000_0000 + mid * 0x8000 + low);
    assert((packet[at] as int / 2) % 8 == high);
    assert(packet[at + 1] as int * 128 + packet[at + 2] as int / 2 == mid);
    assert(packet[at + 3] as int * 128 + packet[at + 4] as int / 2 == low);
}

/// Whether a unit of audio, video or a private stream starts with the payload of a packet.
pub open spec fn unit_starts_at(packet: Seq<u8>, pid: int, at: int) -> bool {
    &&& packet.len() == 188
    &&& packet[0] == 0x47
    &&& (packet[1] as int % 32) * 256 + packet[2] == pid
    &&& (packet[1] / 64) % 2 == 1
    &&& (packet[3] / 16) % 4 == 1 && at == 4 || (packet[3] / 16) % 4 == 3 && at == 5 + packet[4]
    &&& at + 14 <= 188
    &&& packet[at] == 0 && packet[at + 1] == 0 && packet[at + 2] == 1
    &&& 0xC0 <= packet[at + 3] <= 0xEF || packet[at + 3] == 0xBD
}

/// The times that a unit bears are read: that of presentation first and that of decoding
/// behind it; with that of presentation alone, both are that one; with none, none is read.
pub proof fn law_times_are_read(packet: Seq<u8>, pid: int, at: int, pts: int, dts: int)
    requires
        unit_starts_at(packet, pid, at),
        0 <= pts < 0x2_0000_0000,
        0 <= dts < 0x2_0000_0000,
        bears_time(packet, at + 9, pts),
    ensures
        packet[at + 7] / 64 == 3 && at + 19 <= 188 && bears_time(packet, at + 14, dts)
            ==> timestamps(packet, pid) == Some((pts, dts)),
        packet[at + 7] / 64 == 2 ==> timestamps(packet, pid) == Some((pts, pts)),
        packet[at + 7] / 64 < 2 ==> timestamps(packet, pid) is None,
{
    lemma_time_is_read(packet, at + 9, pts);
    if packet[at + 7] / 64 == 3 && at + 19 <= 188 && bears_time(packet, at + 14, dts) {
        lemma_time_is_read(packet, at + 14, dts);
    }
}

/// No time is read from a packet of another stream, or one in which no unit starts.
pub proof fn law_no_unit_no_time(packet: Seq<u8>, pid: int)
    requires
        timestamps(packet, pid) is Some,
        packet.len() == 188,
    ensures
        exists|at: int| #[trigger] unit_starts_at(packet, pid, at) && packet[at + 7] >= 0x80,
{
    let at = payload_start(packet)->0;
    assert(unit_starts_at(packet, pid, at) && packet[at + 7] >= 0x80);
}

/// A clock reference is written as 33 bits of its 90 kHz part, six bits that are set, and
/// nine bits of its 27 MHz part. No other byte of the packet changes.
pub proof fn law_pcr_is_written(packet: Seq<u8>, pcr: int)
    requires
        packet.len() >= 12,
        0 <= pcr < 0x2_0000_0000 * 300,
    ensures
        ({
            let w = with_pcr(packet, pcr);
            &&& w.len() == packet.len()
            &&& forall|i: int| 0 <= i < w.len() && !(6 <= i < 12) ==> w[i] == packet[i]
            &&& w[6] * 0x200_0000 + w[7] * 0x2_0000 + w[8] * 0x200 + w[9] * 2 + w[10] / 128 == pcr
                / 300
            &&& (w[10] / 2) % 64 == 63
            &&& (w[10] % 2) * 256 + w[11] == pcr % 300
        }),
{
    let w = with_pcr(packet, pcr);
    let base = pcr / 300;
    let ext = pcr % 300;
    assert(w[6] == pcr_field(pcr)[0]);
    assert(w[7] == pcr_field(pcr)[1]);
    assert(w[8] == pcr_field(pcr)[2]);
    assert(w[9] == pcr_field(pcr)[3]);
    assert(w[10] == pcr_field(pcr)[4]);
    assert(w[11] == pcr_field(pcr)[5]);
    lemma_pcr_digits(base);
    let mark = (base % 2) * 128 + 126 + ext / 256;
    assert(w[10] as int == mark);
    assert(mark / 128 == base % 2);
    assert((mark / 2) % 64 == 63);
}

} // verus!
