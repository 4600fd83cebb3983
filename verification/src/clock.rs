//! The two cyclic clocks of a transport stream: the 33-bit decoding clock of
//! 90 kHz and the program clock reference of 27 MHz.

use vstd::prelude::*;

verus! {

pub const DTS_MASK: u64 = 0x1_FFFF_FFFF;

pub const DTS_HALF: u64 = 0x1_0000_0000;

/// A clock reference is a 33-bit base times 300 plus an extension below 300.
pub const PCR_CYCLE: u64 = 2_576_980_377_600;

pub const PCR_HALF: u64 = 1_288_490_188_800;

/// How far the decoding clock runs from `b` forward to `a`.
pub open spec fn dts_distance(a: u64, b: u64) -> int {
    (a - b) % 0x2_0000_0000
}

/// Whether `a` lies in the half cycle that follows `b`.
pub open spec fn is_dts_after(a: u64, b: u64) -> bool {
    0 < dts_distance(a, b) < 0x1_0000_0000
}

/// The distance from `b` to `a`, backwards where that is not the longer way.
pub open spec fn dts_delta(a: u64, b: u64) -> int {
    if dts_distance(a, b) >= 0x1_0000_0000 {
        dts_distance(a, b) - 0x2_0000_0000
    } else {
        dts_distance(a, b)
    }
}

/// The whole milliseconds by which `new_dts` follows `last_dts`, if it does.
pub open spec fn dts_forward_ms(new_dts: u64, last_dts: u64) -> Option<u64> {
    if is_dts_after(new_dts, last_dts) {
        Some((dts_distance(new_dts, last_dts) / 90) as u64)
    } else {
        None
    }
}

/// A clock reference reduced to one cycle.
pub open spec fn pcr_reduced(pcr: int) -> int {
    pcr % 2_576_980_377_600
}

/// How far the program clock runs from `b` forward to `a`.
pub open spec fn pcr_distance(a: u64, b: u64) -> int {
    (a - b) % 2_576_980_377_600
}

/// Whether `a` lies in the half cycle that follows `b`.
pub open spec fn is_pcr_after(a: u64, b: u64) -> bool {
    0 < pcr_distance(a, b) < PCR_HALF
}

/// The distance from `b` to `a`, backwards where that is not the longer way.
pub open spec fn pcr_delta(a: u64, b: u64) -> int {
    if pcr_distance(a, b) >= PCR_HALF {
        pcr_distance(a, b) - PCR_CYCLE
    } else {
        pcr_distance(a, b)
    }
}

proof fn lemma_dts_mask(x: u64)
    by (bit_vector)
    ensures
        x & 0x1_FFFF_FFFF == x % 0x2_0000_0000,
{
}

/// How far the decoding clock runs from `b` forward to `a`.
pub fn dts_forward(a: u64, b: u64) -> (r: u64)
    ensures
        r == dts_distance(a, b),
        r < 0x2_0000_0000,
{
    let raw: u64 = a.wrapping_sub(b);
    proof {
        lemma_dts_mask(raw);
    }
    raw & DTS_MASK
}

/// Whether `a` lies in the half cycle that follows `b`.
pub fn dts_after(a: u64, b: u64) -> (r: bool)
    ensures
        r == is_dts_after(a, b),
{
    let diff = dts_forward(a, b);
    diff != 0 && diff < DTS_HALF
}

/// Whether `a` does not lie in the half cycle that follows `b`.
pub fn dts_before_or_equal(a: u64, b: u64) -> (r: bool)
    ensures
        r == !is_dts_after(a, b),
{
    !dts_after(a, b)
}

/// The distance from `b` to `a`, backwards where that is not the longer way.
pub fn dts_signed_delta(a: u64, b: u64) -> (r: i64)
    ensures
        r == dts_delta(a, b),
{
    let delta = dts_forward(a, b);
    if delta >= DTS_HALF {
        delta as i64 - 0x2_0000_0000i64
    } else {
        delta as i64
    }
}

/// The whole milliseconds by which `new_dts` follows `last_dts`, if it does.
pub fn dts_forward_delta_ms(new_dts: u64, last_dts: u64) -> (r: Option<u64>)
    ensures
        r == dts_forward_ms(new_dts, last_dts),
        r matches Some(ms) ==> ms <= 0x2D8_2D83,
{
    let diff = dts_forward(new_dts, last_dts);
    if diff != 0 && diff < DTS_HALF {
        Some(diff / 90)
    } else {
        None
    }
}

/// A clock reference reduced to one cycle.
pub fn pcr_normalize(pcr: u64) -> (r: u64)
    ensures
        r == pcr_reduced(pcr as int),
        r < PCR_CYCLE,
{
    pcr % PCR_CYCLE
}

/// How far the program clock runs from `b` forward to `a`.
pub fn pcr_sub(a: u64, b: u64) -> (r: u64)
    ensures
        r == pcr_distance(a, b),
        r < PCR_CYCLE,
{
    let a1 = pcr_normalize(a);
    let b1 = pcr_normalize(b);
    proof {
        lemma_reduced_difference(a as int, b as int);
    }
    if a1 >= b1 {
        a1 - b1
    } else {
        PCR_CYCLE - (b1 - a1)
    }
}

/// The clock `b` ticks after `a`.
pub fn pcr_add(a: u64, b: u64) -> (r: u64)
    ensures
        r == pcr_reduced(a + b),
        r < PCR_CYCLE,
{
    pcr_normalize(pcr_normalize(a) + pcr_normalize(b))
}

/// Whether `a` lies in the half cycle that follows `b`.
pub fn pcr_after(a: u64, b: u64) -> (r: bool)
    ensures
        r == is_pcr_after(a, b),
{
    let diff = pcr_sub(a, b);
    diff != 0 && diff < PCR_HALF
}

/// The distance from `b` to `a`, backwards where that is not the longer way.
pub fn pcr_signed_delta(a: u64, b: u64) -> (r: i64)
    ensures
        r == pcr_delta(a, b),
        -(PCR_HALF as int) <= r < PCR_HALF,
{
    let delta = pcr_sub(a, b);
    if delta >= PCR_HALF {
        delta as i64 - PCR_CYCLE as i64
    } else {
        delta as i64
    }
}

proof fn lemma_reduced_difference(a: int, b: int)
    ensures
        (a - b) % 2_576_980_377_600 == if a % 2_576_980_377_600 >= b % 2_576_980_377_600 {
            a % 2_576_980_377_600 - b % 2_576_980_377_600
        } else {
            a % 2_576_980_377_600 - b % 2_576_980_377_600 + PCR_CYCLE
        },
{
}

/// Of two instants of the decoding clock each follows the other never, and one
/// follows the other unless they coincide or lie half a cycle apart.
pub proof fn law_dts_order(a: u64, b: u64)
    ensures
        !(is_dts_after(a, b) && is_dts_after(b, a)),
        is_dts_after(a, b) || is_dts_after(b, a) || dts_distance(a, b) == 0 || dts_distance(a, b)
            == 0x1_0000_0000,
        is_dts_after(a, b) == (dts_delta(a, b) > 0),
{
}

/// Of two instants of the program clock each follows the other never, and one
/// follows the other unless they coincide or lie half a cycle apart.
pub proof fn law_pcr_order(a: u64, b: u64)
    ensures
        !(is_pcr_after(a, b) && is_pcr_after(b, a)),
        is_pcr_after(a, b) || is_pcr_after(b, a) || pcr_distance(a, b) == 0 || pcr_distance(a, b)
            == PCR_HALF,
        is_pcr_after(a, b) == (pcr_delta(a, b) > 0),
{
    lemma_reduced_difference(a as int, b as int);
    lemma_reduced_difference(b as int, a as int);
}

/// Adding to the program clock and taking away again gives the first instant
/// back, whatever wraps on the way.
pub proof fn law_pcr_add_sub(a: u64, b: u64, sum: u64)
    requires
        sum == pcr_reduced(a + b),
    ensures
        pcr_distance(sum, b) == pcr_reduced(a as int),
        pcr_distance(sum, a) == pcr_reduced(b as int),
{
    assert((a + b) == 2_576_980_377_600 * ((a + b) / 2_576_980_377_600) + (a + b) % 2_576_980_377_600);
}

/// Shifting both instants by the same number of ticks keeps their order.
pub proof fn law_pcr_shift(a: u64, b: u64, ticks: u64, a2: u64, b2: u64)
    requires
        a2 == pcr_reduced(a + ticks),
        b2 == pcr_reduced(b + ticks),
    ensures
        is_pcr_after(a2, b2) == is_pcr_after(a, b),
        pcr_delta(a2, b2) == pcr_delta(a, b),
{
    assert((a2 - b2) % 2_576_980_377_600 == (a - b) % 2_576_980_377_600) by {
        lemma_reduced_difference(a + ticks, b + ticks);
        lemma_reduced_difference(a2 as int, b2 as int);
    }
}

} // verus!
