//! Transport streams over the real-time transport protocol.

use crate::buffer::{buffer_extend, buffer_new, held_bytes};
use bytes::BytesMut;
use rand::Rng;
use vstd::prelude::*;

verus! {

pub const RTP_VERSION: u8 = 2;

/// The payload type of a transport stream.
pub const RTP_PAYLOAD_TYPE: u8 = 33;

/// Why a packet is refused.
#[derive(Debug, Clone, Copy, PartialEq, Eq, Structural)]
pub enum RtpError {
    Packet,
    Version,
    Padding,
    Extension,
    CsrcCount,
    Marker,
    PayloadType,
    Ssrc,
}

impl RtpError {
    /// What is said of a refused packet.
    pub fn message(&self) -> (r: &'static str)
        ensures
            r@ == match *self {
                RtpError::Packet => "Invalid RTP packet"@,
                RtpError::Version => "Invalid RTP version"@,
                RtpError::Padding => "Unsupported RTP padding"@,
                RtpError::Extension => "Unsupported RTP extension"@,
                RtpError::CsrcCount => "Unsupported RTP CSRC count"@,
                RtpError::Marker => "Unsupported RTP marker"@,
                RtpError::PayloadType => "Invalid RTP payload type"@,
                RtpError::Ssrc => "Invalid RTP SSRC"@,
            },
    {
        match self {
            RtpError::Packet => "Invalid RTP packet",
            RtpError::Version => "Invalid RTP version",
            RtpError::Padding => "Unsupported RTP padding",
            RtpError::Extension => "Unsupported RTP extension",
            RtpError::CsrcCount => "Unsupported RTP CSRC count",
            RtpError::Marker => "Unsupported RTP marker",
            RtpError::PayloadType => "Invalid RTP payload type",
            RtpError::Ssrc => "Invalid RTP SSRC",
        }
    }
}

/// One end of a session.
#[derive(Debug, Clone, Copy, PartialEq, Eq, Structural)]
pub struct RtpState {
    /// The number of the next packet.
    pub sequence: u16,
    /// The time stamp of the last packet.
    pub timestamp: u32,
    /// The source, 0 as long as it is not known.
    pub ssrc: u32,
}

/// A number of four bytes, the most significant first.
pub open spec fn be32(v: u32) -> Seq<u8> {
    seq![
        (v / 0x100_0000) as u8,
        ((v / 0x1_0000) % 256) as u8,
        ((v / 0x100) % 256) as u8,
        (v % 256) as u8,
    ]
}

/// The number of four bytes, the most significant first.
pub open spec fn from_be32(s: Seq<u8>, at: int) -> int {
    s[at] * 0x100_0000 + s[at + 1] * 0x1_0000 + s[at + 2] * 0x100 + s[at + 3]
}

/// The time stamp after a time: 90 kHz ticks counted from the source's number.
pub open spec fn rtp_timestamp(ssrc: u32, elapsed_ns: int) -> u32 {
    ((ssrc + (elapsed_ns * 90_000) / 1_000_000_000) % 0x1_0000_0000) as u32
}

/// The header of a packet.
pub open spec fn rtp_header(sequence: u16, timestamp: u32, ssrc: u32) -> Seq<u8> {
    seq![0x80u8, 33u8, (sequence / 256) as u8, (sequence % 256) as u8] + be32(timestamp) + be32(
        ssrc,
    )
}

/// The state after a packet of a source was sent.
pub open spec fn rtp_sent(s: RtpState, ssrc: u32, elapsed_ns: int) -> RtpState {
    RtpState {
        sequence: ((s.sequence + 1) % 65536) as u16,
        timestamp: rtp_timestamp(ssrc, elapsed_ns),
        ssrc,
    }
}

/// The packet of a source.
pub open spec fn rtp_packet(s: RtpState, ssrc: u32, elapsed_ns: int, payload: Seq<u8>) -> Seq<u8> {
    rtp_header(s.sequence, rtp_timestamp(ssrc, elapsed_ns), ssrc) + payload
}

/// Why a packet is refused, if it is.
pub open spec fn rtp_fault(s: RtpState, packet: Seq<u8>) -> Option<RtpError> {
    if packet.len() < 12 {
        Some(RtpError::Packet)
    } else if packet[0] / 64 != RTP_VERSION {
        Some(RtpError::Version)
    } else if (packet[0] / 32) % 2 == 1 {
        Some(RtpError::Padding)
    } else if (packet[0] / 16) % 2 == 1 {
        Some(RtpError::Extension)
    } else if packet[0] % 16 != 0 {
        Some(RtpError::CsrcCount)
    } else if packet[1] >= 128 {
        Some(RtpError::Marker)
    } else if packet[1] != RTP_PAYLOAD_TYPE {
        Some(RtpError::PayloadType)
    } else if s.ssrc != 0 && from_be32(packet, 8) != s.ssrc {
        Some(RtpError::Ssrc)
    } else {
        None
    }
}

/// The state after a packet was taken in: the first source that is heard of is
/// the one that is listened to.
pub open spec fn rtp_received(s: RtpState, packet: Seq<u8>) -> RtpState {
    RtpState {
        ssrc: if s.ssrc == 0 {
            from_be32(packet, 8) as u32
        } else {
            s.ssrc
        },
        ..s
    }
}

/// `rand::rng().random`: any number.
#[verifier::external_body]
fn random_source() -> u32 {
    rand::rng().random()
}

fn be32_array(v: u32) -> (r: [u8; 4])
    ensures
        r@ == be32(v),
{
    let r = [
        (v / 0x100_0000) as u8,
        ((v / 0x1_0000) % 256) as u8,
        ((v / 0x100) % 256) as u8,
        (v % 256) as u8,
    ];
    assert(r@ =~= be32(v));
    r
}

impl RtpState {
    pub fn new() -> (r: Self)
        ensures
            r == (RtpState { sequence: 0, timestamp: 0, ssrc: 0 }),
    {
        RtpState { sequence: 0, timestamp: 0, ssrc: 0 }
    }

    /// Puts a payload into a packet of a given source. `elapsed_ns` is the time
    /// since the session began.
    pub fn pack_as(&mut self, ssrc: u32, payload: &[u8], elapsed_ns: u128) -> (r: BytesMut)
        requires
            payload@.len() <= usize::MAX / 16,
            elapsed_ns <= u128::MAX / 90_000,
        ensures
            *final(self) == rtp_sent(*old(self), ssrc, elapsed_ns as int),
            held_bytes(r) == rtp_packet(*old(self), ssrc, elapsed_ns as int, payload@),
    {
        let ticks: u128 = (elapsed_ns * 90_000) / 1_000_000_000;
        let timestamp: u32 = ((ssrc as u128 + ticks) % 0x1_0000_0000) as u32;
        let ts = be32_array(timestamp);
        let source = be32_array(ssrc);
        let mut packet = buffer_new(12 + payload.len());
        let head: [u8; 4] = [
            0x80,
            RTP_PAYLOAD_TYPE,
            (self.sequence / 256) as u8,
            (self.sequence % 256) as u8,
        ];
        buffer_extend(&mut packet, head.as_slice());
        buffer_extend(&mut packet, ts.as_slice());
        buffer_extend(&mut packet, source.as_slice());
        assert(held_bytes(packet) =~= rtp_header(self.sequence, timestamp, ssrc));
        buffer_extend(&mut packet, payload);
        self.sequence = ((self.sequence as u32 + 1) % 65536) as u16;
        self.timestamp = timestamp;
        self.ssrc = ssrc;
        packet
    }

    /// Puts a payload into a packet. A session that has no source yet takes one
    /// at random.
    pub fn pack(&mut self, payload: &[u8], elapsed_ns: u128) -> (r: BytesMut)
        requires
            payload@.len() <= usize::MAX / 16,
            elapsed_ns <= u128::MAX / 90_000,
        ensures
            old(self).ssrc != 0 ==> final(self).ssrc == old(self).ssrc,
            *final(self) == rtp_sent(*old(self), final(self).ssrc, elapsed_ns as int),
            held_bytes(r) == rtp_packet(*old(self), final(self).ssrc, elapsed_ns as int, payload@),
    {
        let ssrc: u32 = if self.ssrc == 0 {
            random_source()
        } else {
            self.ssrc
        };
        self.pack_as(ssrc, payload, elapsed_ns)
    }

    /// The payload of a packet. Only plain packets of a transport stream are
    /// taken, and only those of one source.
    pub fn unpack(&mut self, packet: &[u8]) -> (r: Result<BytesMut, RtpError>)
        requires
            packet@.len() <= usize::MAX / 16,
        ensures
            match rtp_fault(*old(self), packet@) {
                Some(e) => r is Err && r->Err_0 == e && *final(self) == *old(self),
                None => r is Ok && held_bytes(r->Ok_0) == packet@.skip(12) && *final(self)
                    == rtp_received(*old(self), packet@),
            },
    {
        if packet.len() < 12 {
            return Err(RtpError::Packet);
        }
        let first: u8 = packet[0];
        if first / 64 != RTP_VERSION {
            return Err(RtpError::Version);
        }
        if (first / 32) % 2 == 1 {
            return Err(RtpError::Padding);
        }
        if (first / 16) % 2 == 1 {
            return Err(RtpError::Extension);
        }
        if first % 16 != 0 {
            return Err(RtpError::CsrcCount);
        }
        if packet[1] >= 128 {
            return Err(RtpError::Marker);
        }
        if packet[1] != RTP_PAYLOAD_TYPE {
            return Err(RtpError::PayloadType);
        }
        let ssrc: u32 = packet[8] as u32 * 0x100_0000 + packet[9] as u32 * 0x1_0000
            + packet[10] as u32 * 0x100 + packet[11] as u32;
        if self.ssrc == 0 {
            self.ssrc = ssrc;
        } else if ssrc != self.ssrc {
            return Err(RtpError::Ssrc);
        }
        let payload = vstd::slice::slice_subrange(packet, 12, packet.len());
        let mut out = buffer_new(payload.len());
        buffer_extend(&mut out, payload);
        assert(held_bytes(out) =~= packet@.skip(12));
        Ok(out)
    }
}

proof fn lemma_be32_back(v: u32)
    ensures
        from_be32(be32(v), 0) == v,
{
    let a = v / 0x100;
    let b = a / 0x100;
    assert(v / 0x1_0000 == b);
    assert(v / 0x100_0000 == b / 0x100);
    assert(b / 0x100 < 256);
}

/// What one end puts into a packet the other end takes out of it, as long as it
/// listens to that source or to none yet; from then on it listens to it.
pub proof fn law_rtp_round_trip(
    sender: RtpState,
    ssrc: u32,
    elapsed_ns: int,
    payload: Seq<u8>,
    receiver: RtpState,
)
    requires
        receiver.ssrc == 0 || receiver.ssrc == ssrc,
        elapsed_ns >= 0,
    ensures
        ({
            let packet = rtp_packet(sender, ssrc, elapsed_ns, payload);
            &&& rtp_fault(receiver, packet) is None
            &&& packet.skip(12) == payload
            &&& rtp_received(receiver, packet).ssrc == ssrc
        }),
{
    let ts = rtp_timestamp(ssrc, elapsed_ns);
    let packet = rtp_packet(sender, ssrc, elapsed_ns, payload);
    let header = rtp_header(sender.sequence, ts, ssrc);
    assert(header.len() == 12);
    assert(packet.skip(12) =~= payload);
    lemma_be32_back(ssrc);
    assert(packet[8] == be32(ssrc)[0]);
    assert(packet[9] == be32(ssrc)[1]);
    assert(packet[10] == be32(ssrc)[2]);
    assert(packet[11] == be32(ssrc)[3]);
    assert(packet[0] == 0x80u8 && packet[1] == 33u8);
}

/// Packets of one session are numbered one after the other, from 65535 back to
/// 0.
pub proof fn law_rtp_sequence(s: RtpState, ssrc: u32, elapsed_ns: int)
    ensures
        rtp_sent(s, ssrc, elapsed_ns).sequence == if s.sequence == 65535 {
            0int
        } else {
            s.sequence + 1
        },
{
}

/// The time stamps of a source run at 90 kHz: a time later by whole milliseconds is later
/// by ninety ticks for each, in a circle of 32 bits.
pub proof fn law_rtp_clock(ssrc: u32, elapsed_ns: int, ms: int)
    requires
        elapsed_ns >= 0,
        ms >= 0,
    ensures
        rtp_timestamp(ssrc, elapsed_ns + ms * 1_000_000) as int == (rtp_timestamp(ssrc, elapsed_ns)
            + 90 * ms) % 0x1_0000_0000,
        rtp_timestamp(ssrc, 0) == ssrc,
{
    let a = (elapsed_ns * 90_000) / 1_000_000_000;
    let b = ((elapsed_ns + ms * 1_000_000) * 90_000) / 1_000_000_000;
    assert(b == a + 90 * ms);
    vstd::arithmetic::div_mod::lemma_add_mod_noop(ssrc + a, 90 * ms, 0x1_0000_0000);
    vstd::arithmetic::div_mod::lemma_add_mod_noop(
        (ssrc + a) % 0x1_0000_0000,
        90 * ms,
        0x1_0000_0000,
    );
    vstd::arithmetic::div_mod::lemma_mod_twice(ssrc + a, 0x1_0000_0000);
}

/// The header of a packet holds its number, its time stamp and its source, each with the
/// most significant byte first, behind the version and the type of the payload.
pub proof fn law_rtp_header(s: RtpState, ssrc: u32, elapsed_ns: int, payload: Seq<u8>)
    requires
        elapsed_ns >= 0,
    ensures
        ({
            let p = rtp_packet(s, ssrc, elapsed_ns, payload);
            &&& p[0] == 0x80 && p[1] == 33
            &&& p[2] * 256 + p[3] == s.sequence
            &&& p[4] * 0x100_0000 + p[5] * 0x1_0000 + p[6] * 0x100 + p[7] == rtp_sent(
                s,
                ssrc,
                elapsed_ns,
            ).timestamp
            &&& p[8] * 0x100_0000 + p[9] * 0x1_0000 + p[10] * 0x100 + p[11] == ssrc
        }),
{
    let ts = rtp_timestamp(ssrc, elapsed_ns);
    let p = rtp_packet(s, ssrc, elapsed_ns, payload);
    lemma_be32_back(ssrc);
    lemma_be32_back(ts);
    assert(p[4] == be32(ts)[0] && p[5] == be32(ts)[1] && p[6] == be32(ts)[2] && p[7] == be32(
        ts,
    )[3]);
    assert(p[8] == be32(ssrc)[0] && p[9] == be32(ssrc)[1] && p[10] == be32(ssrc)[2] && p[11]
        == be32(ssrc)[3]);
}

/// A packet is taken just where its first byte holds the version alone, its second one the
/// type of the payload alone, and its source is the one that is listened to, if one is.
pub proof fn law_rtp_taken(s: RtpState, p: Seq<u8>)
    ensures
        rtp_fault(s, p) is None <==> p.len() >= 12 && p[0] == 0x80 && p[1] == 33 && (s.ssrc == 0
            || p[8] * 0x100_0000 + p[9] * 0x1_0000 + p[10] * 0x100 + p[11] == s.ssrc),
{
    if p.len() >= 12 {
        let b = p[0];
        assert(b / 64 == 2 && (b / 32) % 2 == 0 && (b / 16) % 2 == 0 && b % 16 == 0 <==> b == 0x80);
    }
}

} // verus!
