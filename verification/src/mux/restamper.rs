//! The program clock of what is sent, by the number of packets sent.

use crate::clock::{pcr_normalize, pcr_reduced};
use crate::packet::{
    has_pcr, law_pcr_round_trip, pcr_value, pkt_extract_pcr, pkt_is_pcr_present, pkt_write_pcr,
    with_pcr, TS_PACKET_SIZE,
};
use vstd::prelude::*;

verus! {

/// Counts the packets since the last clock reference and knows what the clock
/// shows by the bit rate.
#[derive(Clone, Copy, PartialEq, Eq, Structural)]
pub struct PcrRestamper {
    pub target_bitrate_bps: u64,
    pub total_packets_sent: u64,
    pub first_pcr_value: Option<u64>,
}

/// What the clock shows before it is reduced to one cycle: the last reference
/// and the time that the packets since then took, modulo 2^64. Without a bit
/// rate it stands still.
pub open spec fn raw_pcr_of(r: PcrRestamper) -> Option<u64> {
    match r.first_pcr_value {
        Some(last) => if r.target_bitrate_bps != 0 {
            Some(
                (((r.total_packets_sent * 1504 * 27_000_000) / r.target_bitrate_bps as int + last)
                    % 0x1_0000_0000_0000_0000) as u64,
            )
        } else {
            Some(last)
        },
        None => None,
    }
}

/// What the clock shows.
pub open spec fn pcr_now(r: PcrRestamper) -> Option<u64> {
    match raw_pcr_of(r) {
        Some(pcr) => Some(pcr_reduced(pcr as int) as u64),
        None => None,
    }
}

/// The clock set to a decoding time.
pub open spec fn resynced(r: PcrRestamper, dts_90k: int) -> PcrRestamper {
    PcrRestamper {
        first_pcr_value: Some(pcr_reduced(dts_90k * 300) as u64),
        total_packets_sent: 0,
        ..r
    }
}

/// The clock after a packet: a reference that it carries is written anew, and
/// packets are counted from there.
pub open spec fn restamped(r: PcrRestamper, packet: Seq<u8>) -> (PcrRestamper, Seq<u8>, Option<u64>) {
    match pcr_now(r) {
        Some(pcr) => if has_pcr(packet) {
            (
                PcrRestamper { first_pcr_value: Some(pcr), total_packets_sent: 0, ..r },
                with_pcr(packet, pcr as int),
                Some(pcr),
            )
        } else {
            (r, packet, None)
        },
        None => (r, packet, None),
    }
}

impl PcrRestamper {
    pub fn new(bitrate_bps: u64) -> (r: Self)
        ensures
            r == (PcrRestamper {
                target_bitrate_bps: bitrate_bps,
                total_packets_sent: 0,
                first_pcr_value: None,
            }),
    {
        PcrRestamper {
            target_bitrate_bps: bitrate_bps,
            total_packets_sent: 0,
            first_pcr_value: None,
        }
    }

    /// Sets the clock to a decoding time.
    pub fn resync(&mut self, dts_90k: u64)
        requires
            dts_90k <= u64::MAX / 300,
        ensures
            *final(self) == resynced(*old(self), dts_90k as int),
    {
        self.first_pcr_value = Some(pcr_normalize(dts_90k * 300));
        self.total_packets_sent = 0;
    }

    /// Counts packets that are sent.
    pub fn count_packets(&mut self, n: u64)
        ensures
            *final(self) == (PcrRestamper {
                total_packets_sent: old(self).total_packets_sent.wrapping_add(n),
                ..*old(self)
            }),
    {
        self.total_packets_sent = self.total_packets_sent.wrapping_add(n);
    }

    /// Writes the clock into a packet that carries a reference, and hands back
    /// what was written.
    pub fn process_packet(&mut self, packet: &mut [u8; TS_PACKET_SIZE]) -> (r: Option<u64>)
        ensures
            *final(self) == restamped(*old(self), old(packet)@).0,
            final(packet)@ == restamped(*old(self), old(packet)@).1,
            r == restamped(*old(self), old(packet)@).2,
    {
        if pkt_is_pcr_present(packet) {
            let new_pcr: u64 = match self.get_pcr() {
                Some(pcr) => pcr,
                None => return None,
            };
            pkt_write_pcr(packet, new_pcr);
            self.total_packets_sent = 0;
            self.first_pcr_value = Some(new_pcr);
            return Some(new_pcr);
        }
        None
    }

    /// The clock reference that a packet carries.
    pub fn extract_pcr_safe(&self, packet: &[u8; TS_PACKET_SIZE]) -> (r: Option<u64>)
        ensures
            r is Some == has_pcr(packet@),
            r matches Some(pcr) ==> pcr == pcr_value(packet@),
    {
        pkt_extract_pcr(packet.as_slice())
    }

    fn get_raw_pcr(&self) -> (r: Option<u64>)
        ensures
            r == raw_pcr_of(*self),
    {
        let last_pcr: u64 = match self.first_pcr_value {
            Some(pcr) => pcr,
            None => return None,
        };
        if self.target_bitrate_bps != 0 {
            let bits_sent: u128 = self.total_packets_sent as u128 * 1504;
            let rate: u128 = self.target_bitrate_bps as u128;
            let scaled: u128 = bits_sent * 27_000_000;
            let ticks: u128 = scaled / rate;
            assert(ticks <= scaled) by (nonlinear_arith)
                requires
                    ticks == scaled / rate,
                    rate >= 1,
            ;
            Some(((ticks + last_pcr as u128) % 0x1_0000_0000_0000_0000) as u64)
        } else {
            Some(last_pcr)
        }
    }

    /// What the clock shows.
    pub fn get_pcr(&self) -> (r: Option<u64>)
        ensures
            r == pcr_now(*self),
            r matches Some(pcr) ==> pcr < crate::clock::PCR_CYCLE,
    {
        match self.get_raw_pcr() {
            Some(pcr) => Some(pcr_normalize(pcr)),
            None => None,
        }
    }
}

/// The clock of what is sent is what a receiver reads: after a reference was
/// written, the packet carries what the clock shows, and the clock goes on from
/// there.
pub proof fn law_restamped_reads_clock(r: PcrRestamper, packet: Seq<u8>)
    requires
        packet.len() == 188,
        has_pcr(packet),
        pcr_now(r) is Some,
    ensures
        ({
            let (next, written, pcr) = restamped(r, packet);
            &&& pcr == pcr_now(r)
            &&& has_pcr(written)
            &&& pcr_value(written) == pcr_now(r)->0
            &&& pcr_now(next) == pcr_now(r)
        }),
{
    let (next, written, pcr) = restamped(r, packet);
    law_pcr_round_trip(packet, pcr->0 as int);
    assert((pcr->0 as int / 300) % 0x2_0000_0000 == pcr->0 as int / 300);
    if r.target_bitrate_bps != 0 {
        assert(0int / r.target_bitrate_bps as int == 0) by (nonlinear_arith)
            requires
                r.target_bitrate_bps > 0,
        ;
    }
}

/// Setting the clock makes it show the decoding time that it was set to, within one
/// cycle of the clock.
pub proof fn law_resync_shows_dts(r: PcrRestamper, dts_90k: int)
    requires
        0 <= dts_90k <= u64::MAX / 300,
    ensures
        pcr_now(resynced(r, dts_90k)) == Some(((dts_90k * 300) % 0x258_0000_0000) as u64),
        dts_90k < 0x2_0000_0000 ==> pcr_now(resynced(r, dts_90k)) == Some((dts_90k * 300) as u64),
{
    if r.target_bitrate_bps != 0 {
        assert(0int / r.target_bitrate_bps as int == 0) by (nonlinear_arith)
            requires
                r.target_bitrate_bps > 0,
        ;
    }
}

/// From one clock reference to the next the clock moves on by the time that the
/// packets between them take at the bit rate, whatever references they came in
/// with.
pub proof fn law_references_are_even(
    r: PcrRestamper,
    first: Seq<u8>,
    packets: u64,
    second: Seq<u8>,
)
    requires
        first.len() == 188 && second.len() == 188,
        has_pcr(first) && has_pcr(second),
        pcr_now(r) is Some,
        r.target_bitrate_bps > 0,
        (packets * 1504 * 27_000_000) / r.target_bitrate_bps as int + 0x258_0000_0000 <= u64::MAX,
    ensures
        ({
            let (r1, written1, _) = restamped(r, first);
            let counted = PcrRestamper {
                total_packets_sent: r1.total_packets_sent.wrapping_add(packets),
                ..r1
            };
            let (_, written2, _) = restamped(counted, second);
            pcr_value(written2) == pcr_reduced(
                pcr_value(written1) + (packets * 1504 * 27_000_000) / r.target_bitrate_bps as int,
            )
        }),
{
    law_restamped_reads_clock(r, first);
    let (r1, written1, _) = restamped(r, first);
    let counted = PcrRestamper {
        total_packets_sent: r1.total_packets_sent.wrapping_add(packets),
        ..r1
    };
    assert(r1.total_packets_sent == 0);
    assert(counted.total_packets_sent == packets);
    let ticks = (packets * 1504 * 27_000_000) / r.target_bitrate_bps as int;
    let last = pcr_now(r)->0;
    assert(last < 0x258_0000_0000);
    vstd::arithmetic::div_mod::lemma_div_pos_is_pos(
        packets * 1504 * 27_000_000,
        r.target_bitrate_bps as int,
    );
    assert(raw_pcr_of(counted) == Some((ticks + last) as u64));
    law_restamped_reads_clock(counted, second);
}

} // verus!
