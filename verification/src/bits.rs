//! Bit fields of bytes and words, stated as quotients and remainders.

use vstd::prelude::*;

verus! {

/// The masks and shifts of a single byte that the packet formats use.
pub proof fn lemma_byte_fields()
    by (bit_vector)
    ensures
        forall|b: u8| #[trigger] (b & 0x01) == b % 2,
        forall|b: u8| #[trigger] (b & 0x03) == b % 4,
        forall|b: u8| #[trigger] (b & 0x07) == b % 8,
        forall|b: u8| #[trigger] (b & 0x0F) == b % 16,
        forall|b: u8| #[trigger] (b & 0x1F) == b % 32,
        forall|b: u8| #[trigger] (b & 0x3F) == b % 64,
        forall|b: u8| #[trigger] (b & 0x7F) == b % 128,
        forall|b: u8| #[trigger] (b & 0xF0) == b - b % 16,
        forall|b: u8| #[trigger] (b & 0xC0) == b - b % 64,
        forall|b: u8| #[trigger] (b & 0xE0) == b - b % 32,
        forall|b: u8| #[trigger] (b & 0x80) == b - b % 128,
        forall|b: u8| #[trigger] (b & 0x10) == ((b / 16) % 2) * 16,
        forall|b: u8| #[trigger] (b & 0x20) == ((b / 32) % 2) * 32,
        forall|b: u8| #[trigger] (b & 0x40) == ((b / 64) % 2) * 64,
        forall|b: u8| #[trigger] (b >> 1u8) == b / 2,
        forall|b: u8| #[trigger] (b >> 2u8) == b / 4,
        forall|b: u8| #[trigger] (b >> 3u8) == b / 8,
        forall|b: u8| #[trigger] (b >> 4u8) == b / 16,
        forall|b: u8| #[trigger] (b >> 5u8) == b / 32,
        forall|b: u8| #[trigger] (b >> 6u8) == b / 64,
        forall|b: u8| #[trigger] (b >> 7u8) == b / 128,
        forall|b: u8| #[trigger] (b | 0x80) == b % 128 + 128,
{
}

/// A byte is made of its upper two bits and the six below.
pub proof fn lemma_byte_parts(b: u8)
    by (bit_vector)
    ensures
        b == (b / 64) * 64 + ((b / 32) % 2) * 32 + ((b / 16) % 2) * 16 + ((b / 8) % 2) * 8 + ((b / 4)
            % 2) * 4 + ((b / 2) % 2) * 2 + b % 2,
        b == (b / 64) * 64 + ((b / 16) % 4) * 16 + ((b / 8) % 2) * 8 + ((b / 4) % 2) * 4 + ((b / 2)
            % 2) * 2 + b % 2,
{
}

/// The value of two bytes, the first one the more significant.
pub open spec fn be16(hi: u8, lo: u8) -> int {
    hi as int * 256 + lo as int
}

/// Joins two bytes, the first one the more significant.
pub fn join16(hi: u8, lo: u8) -> (r: u16)
    ensures
        r == be16(hi, lo),
{
    hi as u16 * 256 + lo as u16
}

} // verus!
