//! The checksum that ends a section.

use crc::{Crc, CRC_32_MPEG_2};
use vstd::prelude::*;

verus! {

/// One bit of the checksum: a division step by the generator polynomial.
pub open spec fn crc_bit(crc: u32) -> u32 {
    if crc & 0x8000_0000 != 0 {
        (crc << 1u32) ^ 0x04C1_1DB7
    } else {
        crc << 1u32
    }
}

/// The checksum after eight more bits, the most significant first.
pub open spec fn crc_byte(crc: u32, byte: u8) -> u32 {
    crc_bit(crc_bit(crc_bit(crc_bit(crc_bit(crc_bit(crc_bit(crc_bit(crc ^ ((byte as u32) << 24u32)))))))))
}

/// The checksum of a run of bytes. It starts from all ones.
pub open spec fn crc_of(data: Seq<u8>) -> u32
    decreases data.len(),
{
    if data.len() == 0 {
        0xFFFF_FFFF
    } else {
        crc_byte(crc_of(data.drop_last()), data.last())
    }
}

/// A 32-bit number as four bytes, the most significant first.
pub open spec fn be32_bytes(v: u32) -> Seq<u8> {
    seq![(v >> 24u32) as u8, (v >> 16u32) as u8, (v >> 8u32) as u8, v as u8]
}

/// A run of bytes followed by its checksum.
pub open spec fn with_crc(data: Seq<u8>) -> Seq<u8> {
    data + be32_bytes(crc_of(data))
}

/// `Crc::<u32>::checksum` for `CRC_32_MPEG_2`: the polynomial 0x04C11DB7 from
/// all ones, nothing reflected, nothing added at the end.
#[verifier::external_body]
pub(crate) fn calculate_mpeg2_crc32(data: &[u8]) -> (r: u32)
    ensures
        r == crc_of(data@),
{
    Crc::<u32>::new(&CRC_32_MPEG_2).checksum(data)
}

/// Appends a 32-bit number, the most significant byte first.
pub fn push_be32(out: &mut Vec<u8>, v: u32)
    ensures
        final(out)@ == old(out)@ + be32_bytes(v),
{
    out.push((v >> 24u32) as u8);
    out.push((v >> 16u32) as u8);
    out.push((v >> 8u32) as u8);
    out.push(v as u8);
    assert(out@ =~= old(out)@ + be32_bytes(v));
}

/// Appends the checksum of what is there.
pub fn push_crc(out: &mut Vec<u8>)
    ensures
        final(out)@ == with_crc(old(out)@),
{
    let crc = calculate_mpeg2_crc32(out.as_slice());
    push_be32(out, crc);
}

/// Adding the top byte to the checksum that it came from clears it.
proof fn lemma_crc_absorbs(c: u32, top: u8)
    by (bit_vector)
    requires
        top == (c >> 24u32) as u8,
    ensures
        crc_byte(c, top) == c << 8u32,
{
}

proof fn lemma_shifted_bytes(c: u32)
    by (bit_vector)
    ensures
        ((c << 8u32) >> 24u32) as u8 == (c >> 16u32) as u8,
        ((c << 16u32) >> 24u32) as u8 == (c >> 8u32) as u8,
        ((c << 24u32) >> 24u32) as u8 == c as u8,
        (c << 8u32) << 8u32 == c << 16u32,
        (c << 16u32) << 8u32 == c << 24u32,
        (c << 24u32) << 8u32 == 0,
{
}

/// Bytes followed by their own checksum have the checksum 0, which is how a
/// receiver recognises an intact section.
pub proof fn law_crc_residue(data: Seq<u8>)
    ensures
        crc_of(with_crc(data)) == 0,
{
    let c = crc_of(data);
    lemma_shifted_bytes(c);
    lemma_crc_absorbs(c, (c >> 24u32) as u8);
    lemma_crc_absorbs(c << 8u32, (c >> 16u32) as u8);
    lemma_crc_absorbs(c << 16u32, (c >> 8u32) as u8);
    lemma_crc_absorbs(c << 24u32, c as u8);
    let b = be32_bytes(c);
    let s4 = with_crc(data);
    let s3 = data + b.take(3);
    let s2 = data + b.take(2);
    let s1 = data + b.take(1);
    assert(s4.drop_last() =~= s3);
    assert(s3.drop_last() =~= s2);
    assert(s2.drop_last() =~= s1);
    assert(s1.drop_last() =~= data);
    assert(s1.last() == b[0]);
    assert(s2.last() == b[1]);
    assert(s3.last() == b[2]);
    assert(s4.last() == b[3]);
    assert(crc_of(s1) == c << 8u32);
    assert(crc_of(s2) == c << 16u32);
    assert(crc_of(s3) == c << 24u32);
}

} // verus!
