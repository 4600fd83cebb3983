//! Reading bits and the variable-length numbers of video headers.

use vstd::arithmetic::power2::{
    lemma_pow2_pos, lemma_pow2_strictly_increases, lemma_pow2_unfold, pow2,
};
use vstd::prelude::*;

verus! {

/// Bit `k` of a run of bytes, the most significant bit of a byte first.
pub open spec fn bit(data: Seq<u8>, k: int) -> int {
    (data[k / 8] as int / pow2((7 - k % 8) as nat) as int) % 2
}

/// The number that `n` bits from `at` on stand for.
pub open spec fn bits_value(data: Seq<u8>, at: int, n: nat) -> nat
    decreases n,
{
    if n == 0 {
        0
    } else {
        2 * bits_value(data, at, (n - 1) as nat) + bit(data, at + n - 1) as nat
    }
}

/// How many zero bits there are from `at` on before the first one; none where
/// only zeros are left.
pub open spec fn leading_zeros(data: Seq<u8>, at: int) -> Option<nat>
    decreases data.len() * 8 - at,
{
    if at >= data.len() * 8 {
        None
    } else if bit(data, at) == 1 {
        Some(0)
    } else {
        match leading_zeros(data, at + 1) {
            Some(n) => Some(n + 1),
            None => None,
        }
    }
}

/// The position behind `n` bits, -1 where there are not so many. A negative
/// position stays one.
pub open spec fn after_bits(data: Seq<u8>, at: int, n: int) -> int {
    if at < 0 || at + n > data.len() * 8 {
        -1
    } else {
        at + n
    }
}

/// The number that an unsigned variable-length code stands for.
pub open spec fn ue_value(data: Seq<u8>, at: int) -> int {
    let z = leading_zeros(data, at)->0;
    pow2(z) - 1 + bits_value(data, at + z + 1, z)
}

/// The position behind an unsigned variable-length code, -1 where there is none
/// of at most 63 bits.
pub open spec fn after_ue(data: Seq<u8>, at: int) -> int {
    if at < 0 {
        -1
    } else {
        match leading_zeros(data, at) {
            Some(z) => if z <= 31 {
                after_bits(data, at, 2 * z as int + 1)
            } else {
                -1
            },
            None => -1,
        }
    }
}

/// The signed number for an unsigned code number of 32 bits.
pub open spec fn signed_code(v: int) -> int {
    let c = if v < 0x8000_0000 {
        v
    } else {
        v - 0x1_0000_0000
    };
    if c % 2 == 0 {
        -(c / 2)
    } else {
        (c + 1) / 2
    }
}

/// The number that a signed variable-length code stands for.
pub open spec fn se_value(data: Seq<u8>, at: int) -> int {
    signed_code(ue_value(data, at))
}

/// The position behind a signed variable-length code.
pub open spec fn after_se(data: Seq<u8>, at: int) -> int {
    if after_ue(data, at) >= 0 && ue_value(data, at) == 0x7FFF_FFFF {
        -1
    } else {
        after_ue(data, at)
    }
}

proof fn lemma_bits_range(data: Seq<u8>, at: int, n: nat)
    ensures
        bits_value(data, at, n) < pow2(n),
    decreases n,
{
    if n == 0 {
        vstd::arithmetic::power2::lemma2_to64();
    } else {
        lemma_bits_range(data, at, (n - 1) as nat);
        lemma_pow2_unfold(n);
        assert(0 <= bit(data, at + n - 1) <= 1);
    }
}

/// Bits in two parts.
proof fn lemma_bits_split(data: Seq<u8>, at: int, n: nat, m: nat)
    ensures
        bits_value(data, at, n + m) == bits_value(data, at, n) * pow2(m) + bits_value(
            data,
            at + n,
            m,
        ),
    decreases m,
{
    let a = bits_value(data, at, n);
    if m == 0 {
        vstd::arithmetic::power2::lemma2_to64();
        assert(a * 1 == a);
    } else {
        lemma_bits_split(data, at, n, (m - 1) as nat);
        lemma_pow2_unfold(m);
        let p = pow2((m - 1) as nat);
        assert((n + m - 1) as nat == n + (m - 1) as nat);
        assert(2 * (a * p) == a * (2 * p)) by (nonlinear_arith);
        assert(at + (n + m) - 1 == (at + n) + m - 1);
    }
}

proof fn lemma_bit_of_byte(data: Seq<u8>, k: int, j: int)
    requires
        0 <= k < data.len(),
        0 <= j < 8,
    ensures
        bit(data, 8 * k + j) == (data[k] as int / pow2((7 - j) as nat) as int) % 2,
{
    assert((8 * k + j) / 8 == k);
    assert((8 * k + j) % 8 == j);
}

proof fn lemma_binary_digits(b: int)
    requires
        0 <= b < 256,
    ensures
        2 * (2 * (2 * (2 * (2 * (2 * (2 * ((b / 128) % 2) + (b / 64) % 2) + (b / 32) % 2) + (b / 16)
            % 2) + (b / 8) % 2) + (b / 4) % 2) + (b / 2) % 2) + b % 2 == b,
{
    assert((b / 128) % 2 == b / 128);
    assert(b / 64 == 2 * (b / 128) + (b / 64) % 2);
    assert(b / 32 == 2 * (b / 64) + (b / 32) % 2);
    assert(b / 16 == 2 * (b / 32) + (b / 16) % 2);
    assert(b / 8 == 2 * (b / 16) + (b / 8) % 2);
    assert(b / 4 == 2 * (b / 8) + (b / 4) % 2);
    assert(b / 2 == 2 * (b / 4) + (b / 2) % 2);
    assert(b == 2 * (b / 2) + b % 2);
}

/// A byte is the number that its bits stand for.
pub proof fn lemma_bits_byte(data: Seq<u8>, k: int)
    requires
        0 <= k < data.len(),
    ensures
        bits_value(data, 8 * k, 8) == data[k],
{
    let b = data[k] as int;
    vstd::arithmetic::power2::lemma2_to64();
    lemma_bit_of_byte(data, k, 0);
    lemma_bit_of_byte(data, k, 1);
    lemma_bit_of_byte(data, k, 2);
    lemma_bit_of_byte(data, k, 3);
    lemma_bit_of_byte(data, k, 4);
    lemma_bit_of_byte(data, k, 5);
    lemma_bit_of_byte(data, k, 6);
    lemma_bit_of_byte(data, k, 7);
    assert(bit(data, 8 * k + 7) == b % 2) by {
        assert((7 - 7) as nat == 0nat);
        assert(pow2(0) == 1);
        assert(b / 1 == b);
    }
    lemma_binary_digits(b);
    let at = 8 * k;
    assert(bits_value(data, at, 0) == 0);
    assert(bits_value(data, at, 1) == (b / 128) % 2);
    assert(bits_value(data, at, 2) == 2 * bits_value(data, at, 1) + (b / 64) % 2);
    assert(bits_value(data, at, 3) == 2 * bits_value(data, at, 2) + (b / 32) % 2);
    assert(bits_value(data, at, 4) == 2 * bits_value(data, at, 3) + (b / 16) % 2);
    assert(bits_value(data, at, 5) == 2 * bits_value(data, at, 4) + (b / 8) % 2);
    assert(bits_value(data, at, 6) == 2 * bits_value(data, at, 5) + (b / 4) % 2);
    assert(bits_value(data, at, 7) == 2 * bits_value(data, at, 6) + (b / 2) % 2);
    assert(bits_value(data, at, 8) == 2 * bits_value(data, at, 7) + b % 2);
}

/// Reads bits from a run of bytes, through a cache of up to 64 of them.
pub struct BitReader<'a> {
    data: &'a [u8],
    pos: usize,
    cache: u64,
    cache_bits: u8,
}

impl<'a> BitReader<'a> {
    /// The bytes that are read.
    pub closed spec fn bytes(&self) -> Seq<u8> {
        self.data@
    }

    /// How many bits have been read.
    pub closed spec fn at(&self) -> int {
        8 * self.pos - self.cache_bits
    }

    /// The cache holds the bits that lie before the next byte.
    pub closed spec fn wf(&self) -> bool {
        &&& self.pos <= self.data@.len()
        &&& self.cache_bits <= 64
        &&& self.cache_bits <= 8 * self.pos
        &&& self.cache == bits_value(self.data@, self.at(), self.cache_bits as nat)
    }

    pub fn new(data: &'a [u8]) -> (r: Self)
        ensures
            r.wf(),
            r.bytes() == data@,
            r.at() == 0,
    {
        BitReader { data, pos: 0, cache: 0, cache_bits: 0 }
    }

    fn refill(&mut self)
        requires
            old(self).wf(),
        ensures
            final(self).wf(),
            final(self).data@ == old(self).data@,
            final(self).at() == old(self).at(),
            final(self).cache_bits > 56 || final(self).pos == final(self).data@.len(),
    {
        while self.cache_bits <= 56 && self.pos < self.data.len()
            invariant
                self.wf(),
                self.data@ == old(self).data@,
                self.at() == old(self).at(),
            decreases self.data@.len() - self.pos,
        {
            let b: u8 = self.data[self.pos];
            proof {
                let n = self.cache_bits as nat;
                lemma_bits_range(self.data@, self.at(), n);
                lemma_bits_split(self.data@, self.at(), n, 8);
                lemma_bits_byte(self.data@, self.pos as int);
                vstd::arithmetic::power2::lemma2_to64();
                vstd::arithmetic::power2::lemma2_to64_rest();
                if n < 56 {
                    lemma_pow2_strictly_increases(n, 56);
                }
                assert(pow2(n) <= 0x100_0000_0000_0000);
            }
            self.cache = self.cache * 256 + b as u64;
            self.cache_bits = self.cache_bits + 8;
            self.pos = self.pos + 1;
        }
    }

    /// How many bits are left.
    pub fn remaining(&self) -> (r: u128)
        requires
            self.wf(),
        ensures
            r == self.bytes().len() * 8 - self.at(),
    {
        (self.data.len() - self.pos) as u128 * 8 + self.cache_bits as u128
    }

    /// Reads `n` bits.
    pub fn read_bits(&mut self, n: u8) -> (r: u32)
        requires
            old(self).wf(),
            n <= 32,
            old(self).at() + n <= old(self).bytes().len() * 8,
        ensures
            final(self).wf(),
            final(self).bytes() == old(self).bytes(),
            final(self).at() == old(self).at() + n,
            r == bits_value(old(self).bytes(), old(self).at(), n as nat),
    {
        if n == 0 {
            return 0;
        }
        if self.cache_bits < n {
            self.refill();
        }
        let ghost at = self.at();
        let shift: u8 = self.cache_bits - n;
        let unit: u64 = 1u64 << (shift as u64);
        proof {
            vstd::arithmetic::power2::lemma2_to64();
            vstd::arithmetic::power2::lemma2_to64_rest();
            if shift < 63 {
                lemma_pow2_strictly_increases(shift as nat, 63);
            }
            vstd::bits::lemma_u64_shl_is_mul(1, shift as u64);
            lemma_pow2_pos(shift as nat);
            assert(unit == pow2(shift as nat));
        }
        let val: u64 = self.cache / unit;
        proof {
            lemma_bits_split(self.data@, at, n as nat, shift as nat);
            lemma_bits_range(self.data@, at, n as nat);
            lemma_bits_range(self.data@, at + n, shift as nat);
            if n < 32 {
                lemma_pow2_strictly_increases(n as nat, 32);
            }
            let a = bits_value(self.data@, at, n as nat) as int;
            let b = bits_value(self.data@, at + n, shift as nat) as int;
            vstd::arithmetic::div_mod::lemma_fundamental_div_mod_converse(
                self.cache as int,
                unit as int,
                a,
                b,
            );
        }
        self.cache_bits = shift;
        self.cache = self.cache % unit;
        val as u32
    }

    /// Reads one bit.
    pub fn read_bit(&mut self) -> (r: u8)
        requires
            old(self).wf(),
            old(self).at() < old(self).bytes().len() * 8,
        ensures
            final(self).wf(),
            final(self).bytes() == old(self).bytes(),
            final(self).at() == old(self).at() + 1,
            r == bit(old(self).bytes(), old(self).at()),
    {
        proof {
            reveal_with_fuel(bits_value, 2);
        }
        self.read_bits(1) as u8
    }

    /// Reads `n` bits, if there are so many.
    pub fn try_read_bits(&mut self, n: u8) -> (r: Option<u32>)
        requires
            old(self).wf(),
            n <= 32,
        ensures
            final(self).wf(),
            final(self).bytes() == old(self).bytes(),
            r is Some == (after_bits(old(self).bytes(), old(self).at(), n as int) >= 0),
            r matches Some(v) ==> v == bits_value(old(self).bytes(), old(self).at(), n as nat)
                && final(self).at() == old(self).at() + n,
    {
        if self.remaining() < n as u128 {
            return None;
        }
        Some(self.read_bits(n))
    }

    /// Reads one bit, if there is one.
    pub fn try_read_bit(&mut self) -> (r: Option<u8>)
        requires
            old(self).wf(),
        ensures
            final(self).wf(),
            final(self).bytes() == old(self).bytes(),
            r is Some == (after_bits(old(self).bytes(), old(self).at(), 1) >= 0),
            r matches Some(v) ==> v == bit(old(self).bytes(), old(self).at()) && final(self).at()
                == old(self).at() + 1,
    {
        if self.remaining() < 1 {
            return None;
        }
        Some(self.read_bit())
    }

    /// Reads an unsigned variable-length code, if there is one of at most 63
    /// bits.
    pub fn try_read_ue(&mut self) -> (r: Option<u32>)
        requires
            old(self).wf(),
        ensures
            final(self).wf(),
            final(self).bytes() == old(self).bytes(),
            r is Some == (after_ue(old(self).bytes(), old(self).at()) >= 0),
            r matches Some(v) ==> v == ue_value(old(self).bytes(), old(self).at())
                && final(self).at() == after_ue(old(self).bytes(), old(self).at()),
    {
        let ghost data = self.bytes();
        let ghost at = self.at();
        let mut zeros: u64 = 0;
        let mut found = false;
        while !found
            invariant
                self.wf(),
                self.bytes() == data,
                data == old(self).bytes(),
                at == old(self).at(),
                at >= 0,
                zeros <= 31,
                !found ==> self.at() == at + zeros,
                found ==> self.at() == at + zeros + 1 && leading_zeros(data, at) == Some(
                    zeros as nat,
                ),
                !found ==> shifted_zeros(data, at, zeros as nat),
            decreases 33 - zeros, if found {
                0int
            } else {
                1
            },
        {
            match self.try_read_bit() {
                Some(b) => {
                    if b == 1 {
                        found = true;
                    } else {
                        zeros = zeros + 1;
                        if zeros > 31 {
                            return None;
                        }
                    }
                },
                None => {
                    return None;
                },
            }
        }
        let n: u8 = zeros as u8;
        let suffix: u32 = match self.try_read_bits(n) {
            Some(v) => v,
            None => return None,
        };
        proof {
            vstd::arithmetic::power2::lemma2_to64();
            vstd::arithmetic::power2::lemma2_to64_rest();
            if n < 31 {
                lemma_pow2_strictly_increases(n as nat, 31);
            }
            vstd::bits::lemma_u32_shl_is_mul(1, n as u32);
            lemma_pow2_pos(n as nat);
            lemma_bits_range(data, at + n + 1, n as nat);
        }
        let base: u32 = 1u32 << (n as u32);
        Some(base - 1 + suffix)
    }

    /// Reads an unsigned variable-length code.
    pub fn read_ue(&mut self) -> (r: u32)
        requires
            old(self).wf(),
            after_ue(old(self).bytes(), old(self).at()) >= 0,
        ensures
            final(self).wf(),
            final(self).bytes() == old(self).bytes(),
            final(self).at() == after_ue(old(self).bytes(), old(self).at()),
            r == ue_value(old(self).bytes(), old(self).at()),
    {
        match self.try_read_ue() {
            Some(v) => v,
            None => 0,
        }
    }

    /// Reads a signed variable-length code, if there is one.
    pub fn try_read_se(&mut self) -> (r: Option<i32>)
        requires
            old(self).wf(),
        ensures
            final(self).wf(),
            final(self).bytes() == old(self).bytes(),
            r is Some == (after_se(old(self).bytes(), old(self).at()) >= 0),
            r matches Some(v) ==> v == se_value(old(self).bytes(), old(self).at())
                && final(self).at() == after_se(old(self).bytes(), old(self).at()) && -0x4000_0000
                <= v <= 0x4000_0000,
    {
        let code: u32 = match self.try_read_ue() {
            Some(v) => v,
            None => return None,
        };
        if code == 0x7FFF_FFFF {
            return None;
        }
        if code % 2 == 0 {
            if code < 0x8000_0000 {
                Some(-((code / 2) as i32))
            } else {
                Some(((0x1_0000_0000u64 - code as u64) / 2) as i32)
            }
        } else {
            if code < 0x8000_0000 {
                Some(((code + 1) / 2) as i32)
            } else {
                Some(-(((0xFFFF_FFFFu32 - code) / 2) as i32))
            }
        }
    }

    /// Reads a signed variable-length code.
    pub fn read_se(&mut self) -> (r: i32)
        requires
            old(self).wf(),
            after_se(old(self).bytes(), old(self).at()) >= 0,
        ensures
            final(self).wf(),
            final(self).bytes() == old(self).bytes(),
            final(self).at() == after_se(old(self).bytes(), old(self).at()),
            r == se_value(old(self).bytes(), old(self).at()),
    {
        match self.try_read_se() {
            Some(v) => v,
            None => 0,
        }
    }
}

/// The zeros at `at` are `n` more than those `n` bits further on.
spec fn shifted_zeros(data: Seq<u8>, at: int, n: nat) -> bool {
    leading_zeros(data, at) == match leading_zeros(data, at + n) {
        Some(k) => Some(k + n),
        None => None,
    }
}

/// Signed code numbers alternate: 1, -1, 2, -2 and so on.
pub proof fn law_signed_codes(k: int)
    requires
        0 < k <= 0x3FFF_FFFF,
    ensures
        signed_code(0) == 0,
        signed_code(2 * k - 1) == k,
        signed_code(2 * k) == -k,
{
}

} // verus!
