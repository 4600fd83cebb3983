//! The sequence parameter set of H.264 video.

use crate::pes::es::Es27;
use crate::pes::golomb::{
    after_bits, after_se, after_ue, bit, bits_value, se_value, ue_value, BitReader,
};
use crate::psi::time::truncated;
use vstd::prelude::*;

verus! {

/// Whether a start code begins here.
pub open spec fn start_code(d: Seq<u8>, i: int) -> bool {
    i + 2 < d.len() && d[i] == 0 && d[i + 1] == 0 && d[i + 2] == 1
}

/// Whether a unit ends here: a start code of three or of four bytes begins.
pub open spec fn unit_end(d: Seq<u8>, j: int) -> bool {
    start_code(d, j) || (j + 3 < d.len() && d[j] == 0 && d[j + 1] == 0 && d[j + 2] == 0 && d[j + 3]
        == 1)
}

/// Where a unit that reaches to `j` ends, at the end of the data at the latest.
pub open spec fn next_unit(d: Seq<u8>, j: int) -> int
    decreases d.len() - j,
{
    if j + 2 >= d.len() {
        d.len() as int
    } else if unit_end(d, j) {
        j
    } else {
        next_unit(d, j + 1)
    }
}

/// Where the bytes from `from` to `to` end without the zeros at their end.
pub open spec fn without_zeros(d: Seq<u8>, from: int, to: int) -> int
    decreases to,
{
    if to <= from || to <= 0 || d[to - 1] != 0 {
        to
    } else {
        without_zeros(d, from, to - 1)
    }
}

/// The first sequence parameter set from `i` on, without its header.
pub open spec fn sps_at(d: Seq<u8>, i: int) -> Option<Seq<u8>>
    decreases d.len() - i,
{
    if i < 0 || i + 2 >= d.len() {
        None
    } else if start_code(d, i) {
        let start = i + 3;
        let next = next_unit(d, start);
        if start < d.len() && d[start] % 32 == 7 {
            Some(d.subrange(start + 1, without_zeros(d, start, next)))
        } else if i < next <= d.len() {
            sps_at(d, next)
        } else {
            None
        }
    } else {
        sps_at(d, i + 1)
    }
}

fn find_unit_end(data: &[u8], start: usize) -> (r: usize)
    requires
        start <= data@.len(),
    ensures
        r == next_unit(data@, start as int),
        start <= r <= data@.len(),
{
    let mut j: usize = start;
    while data.len() - j > 2
        invariant
            start <= j <= data@.len(),
            data@.len() == data.len(),
            next_unit(data@, j as int) == next_unit(data@, start as int),
        decreases data@.len() - j,
    {
        if data[j] == 0 && data[j + 1] == 0 {
            if data[j + 2] == 1 {
                return j;
            }
            if data.len() - j > 3 && data[j + 2] == 0 && data[j + 3] == 1 {
                return j;
            }
        }
        j = j + 1;
    }
    data.len()
}

/// The first sequence parameter set in the data, without its header.
pub fn find_sps(data: &[u8]) -> (r: Option<Vec<u8>>)
    ensures
        r is Some == sps_at(data@, 0) is Some,
        r matches Some(v) ==> sps_at(data@, 0) == Some(v@),
{
    let mut i: usize = 0;
    while data.len() - i > 2
        invariant
            i <= data@.len(),
            data@.len() == data.len(),
            sps_at(data@, i as int) == sps_at(data@, 0),
        decreases data@.len() - i,
    {
        if data[i] == 0 && data[i + 1] == 0 && data[i + 2] == 1 {
            let start: usize = i + 3;
            let next = find_unit_end(data, start);
            if start < data.len() && data[start] % 32 == 7 {
                proof {
                    lemma_unit_not_empty(data@, start as int);
                }
                let mut end: usize = next;
                while end > start && data[end - 1] == 0
                    invariant
                        start < end <= data@.len(),
                        data@[start as int] != 0,
                        data@.len() == data.len(),
                        without_zeros(data@, start as int, end as int) == without_zeros(
                            data@,
                            start as int,
                            next as int,
                        ),
                    decreases end,
                {
                    end = end - 1;
                }
                return Some(
                    vstd::slice::slice_to_vec(vstd::slice::slice_subrange(data, start + 1, end)),
                );
            }
            i = next;
        } else {
            i = i + 1;
        }
    }
    None
}

/// A unit that begins with a byte other than 0 does not end there.
proof fn lemma_unit_not_empty(d: Seq<u8>, start: int)
    requires
        0 <= start < d.len(),
        d[start] != 0,
    ensures
        next_unit(d, start) > start,
    decreases d.len() - start,
{
    if start + 2 < d.len() {
        lemma_next_unit_range(d, start + 1);
    }
}

proof fn lemma_next_unit_range(d: Seq<u8>, j: int)
    requires
        0 <= j <= d.len(),
    ensures
        j <= next_unit(d, j) <= d.len(),
    decreases d.len() - j,
{
    if j + 2 < d.len() && !unit_end(d, j) {
        lemma_next_unit_range(d, j + 1);
    }
}

/// The bytes of a unit without those that keep a start code from arising: a 3
/// behind two zeros. `zeros` counts the zeros that came before.
pub open spec fn unescaped(d: Seq<u8>, zeros: int) -> Seq<u8>
    decreases d.len(),
{
    if d.len() == 0 {
        Seq::empty()
    } else if zeros == 2 && d[0] == 3 {
        unescaped(d.drop_first(), 0)
    } else {
        seq![d[0]] + unescaped(
            d.drop_first(),
            if d[0] == 0 {
                zeros + 1
            } else {
                0
            },
        )
    }
}

/// The bytes of a unit without those that keep a start code from arising.
pub fn unescape(data: &[u8]) -> (r: Vec<u8>)
    ensures
        r@ == unescaped(data@, 0),
{
    let mut out: Vec<u8> = Vec::new();
    let mut zeros: usize = 0;
    let mut i: usize = 0;
    assert(data@.skip(0) =~= data@);
    assert(out@ + unescaped(data@, 0) =~= unescaped(data@, 0));
    while i < data.len()
        invariant
            i <= data@.len(),
            zeros <= i,
            out@ + unescaped(data@.skip(i as int), zeros as int) == unescaped(data@, 0),
        decreases data@.len() - i,
    {
        let b: u8 = data[i];
        let ghost rest = data@.skip(i as int);
        let ghost before = out@;
        assert(rest[0] == b);
        assert(rest.drop_first() =~= data@.skip(i + 1));
        if zeros == 2 && b == 0x03 {
            zeros = 0;
        } else {
            out.push(b);
            zeros = if b == 0 {
                zeros + 1
            } else {
                0
            };
            proof {
                let more = unescaped(data@.skip(i + 1), zeros as int);
                assert(before + (seq![b] + more) =~= out@ + more);
            }
        }
        i = i + 1;
    }
    assert(out@ + Seq::<u8>::empty() =~= out@);
    out
}

/// The bytes of a unit with a 3 behind every two zeros before a byte of at most
/// 3, so that no start code arises.
pub open spec fn escaped(d: Seq<u8>, zeros: int) -> Seq<u8>
    decreases d.len(),
{
    if d.len() == 0 {
        Seq::empty()
    } else if zeros == 2 && d[0] <= 3 {
        seq![3u8, d[0]] + escaped(
            d.drop_first(),
            if d[0] == 0 {
                1
            } else {
                0
            },
        )
    } else {
        seq![d[0]] + escaped(
            d.drop_first(),
            if d[0] == 0 {
                zeros + 1
            } else {
                0
            },
        )
    }
}

/// Taking out what keeps start codes from arising gives back the bytes that it
/// was put into.
pub proof fn law_unescape_escape(d: Seq<u8>, zeros: int)
    requires
        0 <= zeros <= 2,
    ensures
        unescaped(escaped(d, zeros), zeros) == d,
    decreases d.len(),
{
    if d.len() > 0 {
        let rest = d.drop_first();
        if zeros == 2 && d[0] <= 3 {
            let z: int = if d[0] == 0 {
                1
            } else {
                0
            };
            law_unescape_escape(rest, z);
            let e = escaped(d, zeros);
            let tail = escaped(rest, z);
            assert(e =~= seq![3u8, d[0]] + tail);
            assert(e.drop_first() =~= seq![d[0]] + tail);
            assert((seq![d[0]] + tail).drop_first() =~= tail);
            assert(unescaped(e, 2) == unescaped(e.drop_first(), 0));
            assert(unescaped(e.drop_first(), 0) =~= seq![d[0]] + rest);
            assert(seq![d[0]] + rest =~= d);
        } else {
            let z: int = if d[0] == 0 {
                zeros + 1
            } else {
                0
            };
            law_unescape_escape(rest, z);
            let e = escaped(d, zeros);
            assert(e.drop_first() =~= escaped(rest, z));
            assert(seq![d[0]] + rest =~= d);
        }
    }
}

// ---- The fields of the parameter set ----

/// What the first part of a parameter set says, and where it ends.
pub struct SpsHead {
    pub profile: u8,
    pub level: u8,
    pub id: u32,
}

/// The first part: profile, level and number.
#[verifier::opaque]
pub open spec fn head_of(d: Seq<u8>) -> (SpsHead, int) {
    (
        SpsHead {
            profile: bits_value(d, 0, 8) as u8,
            level: bits_value(d, 16, 8) as u8,
            id: ue_value(d, 24) as u32,
        },
        after_ue(d, after_bits(d, 0, 24)),
    )
}

fn read_head(r: &mut BitReader) -> (h: Option<SpsHead>)
    requires
        old(r).wf(),
        old(r).at() == 0,
    ensures
        final(r).wf(),
        final(r).bytes() == old(r).bytes(),
        h is Some == (head_of(old(r).bytes()).1 >= 0),
        h matches Some(v) ==> v == head_of(old(r).bytes()).0 && final(r).at() == head_of(
            old(r).bytes(),
        ).1,
{
    proof {
        reveal(head_of);
    }
    let profile: u32 = match r.try_read_bits(8) {
        Some(v) => v,
        None => return None,
    };
    match r.try_read_bits(8) {
        Some(_) => {},
        None => return None,
    }
    let level: u32 = match r.try_read_bits(8) {
        Some(v) => v,
        None => return None,
    };
    let id: u32 = match r.try_read_ue() {
        Some(v) => v,
        None => return None,
    };
    proof {
        lemma_byte_range(r.bytes(), 0);
        lemma_byte_range(r.bytes(), 16);
    }
    Some(SpsHead { profile: profile as u8, level: level as u8, id })
}

proof fn lemma_byte_range(d: Seq<u8>, at: int)
    ensures
        bits_value(d, at, 8) < 256,
{
    reveal_with_fuel(bits_value, 9);
}

/// A remainder with the sign of the dividend.
pub open spec fn signed_rem(a: int, b: int) -> int {
    a - b * truncated(a, b)
}

/// Where a scaling list of `n` more entries ends. An entry is coded as long as
/// the one before is not 0.
pub open spec fn after_scaling_list(d: Seq<u8>, at: int, n: int, last: int, next: int) -> int
    decreases n,
{
    if n <= 0 || at < 0 {
        at
    } else {
        let coded = next != 0;
        let at1 = if coded {
            after_se(d, at)
        } else {
            at
        };
        let next1 = if coded {
            signed_rem(last + se_value(d, at) + 256, 256)
        } else {
            next
        };
        after_scaling_list(
            d,
            at1,
            n - 1,
            if next1 == 0 {
                last
            } else {
                next1
            },
            next1,
        )
    }
}

/// Where the scaling lists from number `i` on end: each may be left out, the
/// first six have 16 entries, the others 64.
pub open spec fn after_scaling_lists(d: Seq<u8>, at: int, i: int, count: int) -> int
    decreases count - i,
{
    if i >= count || at < 0 {
        at
    } else {
        let at1 = after_bits(d, at, 1);
        let at2 = if at1 >= 0 && bit(d, at) == 1 {
            after_scaling_list(
                d,
                at1,
                if i < 6 {
                    16
                } else {
                    64
                },
                8,
                8,
            )
        } else {
            at1
        };
        after_scaling_lists(d, at2, i + 1, count)
    }
}

fn skip_scaling_list(r: &mut BitReader, n: u32) -> (ok: bool)
    requires
        old(r).wf(),
        old(r).at() >= 0,
        n <= 64,
    ensures
        final(r).wf(),
        final(r).bytes() == old(r).bytes(),
        ok == (after_scaling_list(old(r).bytes(), old(r).at(), n as int, 8, 8) >= 0),
        ok ==> final(r).at() == after_scaling_list(old(r).bytes(), old(r).at(), n as int, 8, 8),
{
    let ghost d = r.bytes();
    let ghost at = r.at();
    let mut last: i32 = 8;
    let mut next: i32 = 8;
    let mut i: u32 = 0;
    while i < n
        invariant
            r.wf(),
            r.bytes() == d,
            d == old(r).bytes(),
            at == old(r).at(),
            i <= n,
            r.at() >= 0,
            -256 < last < 256,
            -256 < next < 256,
            after_scaling_list(d, r.at(), n - i, last as int, next as int) == after_scaling_list(
                d,
                at,
                n as int,
                8,
                8,
            ),
        decreases n - i,
    {
        let ghost here = r.at();
        if next != 0 {
            let delta: i32 = match r.try_read_se() {
                Some(v) => v,
                None => {
                    proof {
                        reveal_with_fuel(after_scaling_list, 2);
                    }
                    return false;
                },
            };
            let sum: i32 = last + delta + 256;
            next = rem256(sum);
        }
        if next != 0 {
            last = next;
        }
        i = i + 1;
    }
    true
}

/// The remainder by 256 with the sign of the dividend.
fn rem256(a: i32) -> (r: i32)
    requires
        a > i32::MIN,
    ensures
        r == signed_rem(a as int, 256),
        -256 < r < 256,
{
    if a >= 0 {
        a % 256
    } else {
        -((-a) % 256)
    }
}

fn skip_scaling_lists(r: &mut BitReader, count: u32) -> (ok: bool)
    requires
        old(r).wf(),
        old(r).at() >= 0,
        count <= 12,
    ensures
        final(r).wf(),
        final(r).bytes() == old(r).bytes(),
        ok == (after_scaling_lists(old(r).bytes(), old(r).at(), 0, count as int) >= 0),
        ok ==> final(r).at() == after_scaling_lists(old(r).bytes(), old(r).at(), 0, count as int),
{
    let ghost d = r.bytes();
    let ghost at = r.at();
    let mut i: u32 = 0;
    while i < count
        invariant
            r.wf(),
            r.bytes() == d,
            d == old(r).bytes(),
            at == old(r).at(),
            i <= count,
            r.at() >= 0,
            after_scaling_lists(d, r.at(), i as int, count as int) == after_scaling_lists(
                d,
                at,
                0,
                count as int,
            ),
        decreases count - i,
    {
        proof {
            reveal_with_fuel(after_scaling_lists, 2);
        }
        let present: u8 = match r.try_read_bit() {
            Some(v) => v,
            None => return false,
        };
        if present == 1 {
            let size: u32 = if i < 6 {
                16
            } else {
                64
            };
            if !skip_scaling_list(r, size) {
                return false;
            }
        }
        i = i + 1;
    }
    true
}

/// What the part on colour says.
pub struct Chroma {
    /// The kind of sampling by which cropping is counted, 0 for none.
    pub array_type: u32,
    pub sub_width: u32,
    pub sub_height: u32,
}

/// The part on colour that some profiles have, and where it ends.
#[verifier::opaque]
pub open spec fn chroma_of(d: Seq<u8>, at: int) -> (Chroma, int) {
    let format = ue_value(d, at);
    let at1 = after_ue(d, at);
    let separate = format == 3 && bit(d, at1) == 1;
    let at2 = if format == 3 {
        after_bits(d, at1, 1)
    } else {
        at1
    };
    let at3 = after_bits(d, after_ue(d, after_ue(d, at2)), 1);
    let at4 = after_bits(d, at3, 1);
    let at5 = if at4 >= 0 && bit(d, at3) == 1 {
        after_scaling_lists(
            d,
            at4,
            0,
            if format != 3 {
                8
            } else {
                12
            },
        )
    } else {
        at4
    };
    (
        Chroma {
            array_type: if format == 3 && !separate {
                0
            } else {
                1
            },
            sub_width: if format == 1 || format == 2 {
                2
            } else if format == 3 && !separate {
                1
            } else {
                0
            },
            sub_height: if format == 1 {
                2
            } else if format == 2 || (format == 3 && !separate) {
                1
            } else {
                0
            },
        },
        if at1 < 0 {
            -1
        } else {
            at5
        },
    )
}

fn read_chroma(r: &mut BitReader) -> (c: Option<Chroma>)
    requires
        old(r).wf(),
        old(r).at() >= 0,
    ensures
        final(r).wf(),
        final(r).bytes() == old(r).bytes(),
        c is Some == (chroma_of(old(r).bytes(), old(r).at()).1 >= 0),
        c matches Some(v) ==> v == chroma_of(old(r).bytes(), old(r).at()).0 && final(r).at()
            == chroma_of(old(r).bytes(), old(r).at()).1 && v.sub_width <= 2 && v.sub_height <= 2,
{
    proof {
        reveal(chroma_of);
    }
    let ghost d = r.bytes();
    let format: u32 = match r.try_read_ue() {
        Some(v) => v,
        None => return None,
    };
    let mut separate = false;
    if format == 3 {
        separate =
        match r.try_read_bit() {
            Some(v) => v == 1,
            None => return None,
        };
    }
    match r.try_read_ue() {
        Some(_) => {},
        None => return None,
    }
    match r.try_read_ue() {
        Some(_) => {},
        None => return None,
    }
    match r.try_read_bit() {
        Some(_) => {},
        None => return None,
    }
    let matrix: u8 = match r.try_read_bit() {
        Some(v) => v,
        None => return None,
    };
    if matrix == 1 {
        let count: u32 = if format != 3 {
            8
        } else {
            12
        };
        if !skip_scaling_lists(r, count) {
            return None;
        }
    }
    let plain = format == 3 && !separate;
    Some(
        Chroma {
            array_type: if plain {
                0
            } else {
                1
            },
            sub_width: if format == 1 || format == 2 {
                2
            } else if plain {
                1
            } else {
                0
            },
            sub_height: if format == 1 {
                2
            } else if format == 2 || plain {
                1
            } else {
                0
            },
        },
    )
}

/// Where `n` signed codes end.
pub open spec fn after_ses(d: Seq<u8>, at: int, n: int) -> int
    decreases n,
{
    if n <= 0 || at < 0 {
        at
    } else {
        after_ses(d, after_se(d, at), n - 1)
    }
}

/// Where the part on the order of pictures ends.
#[verifier::opaque]
pub open spec fn after_order(d: Seq<u8>, at: int) -> int {
    let at1 = after_ue(d, at);
    let kind = ue_value(d, at1);
    let at2 = after_ue(d, at1);
    if at2 < 0 {
        -1
    } else if kind == 0 {
        after_ue(d, at2)
    } else if kind == 1 {
        let at3 = after_se(d, after_se(d, after_bits(d, at2, 1)));
        let at4 = after_ue(d, at3);
        if at4 < 0 {
            -1
        } else {
            after_ses(d, at4, ue_value(d, at3))
        }
    } else {
        at2
    }
}

fn skip_order(r: &mut BitReader) -> (ok: bool)
    requires
        old(r).wf(),
        old(r).at() >= 0,
    ensures
        final(r).wf(),
        final(r).bytes() == old(r).bytes(),
        ok == (after_order(old(r).bytes(), old(r).at()) >= 0),
        ok ==> final(r).at() == after_order(old(r).bytes(), old(r).at()),
{
    proof {
        reveal(after_order);
    }
    if r.try_read_ue().is_none() {
        return false;
    }
    let kind: u32 = match r.try_read_ue() {
        Some(v) => v,
        None => return false,
    };
    if kind == 0 {
        return r.try_read_ue().is_some();
    }
    if kind == 1 {
        if r.try_read_bit().is_none() {
            return false;
        }
        if r.try_read_se().is_none() {
            return false;
        }
        if r.try_read_se().is_none() {
            return false;
        }
        let n: u32 = match r.try_read_ue() {
            Some(v) => v,
            None => return false,
        };
        return skip_ses(r, n);
    }
    true
}

fn skip_ses(r: &mut BitReader, n: u32) -> (ok: bool)
    requires
        old(r).wf(),
        old(r).at() >= 0,
    ensures
        final(r).wf(),
        final(r).bytes() == old(r).bytes(),
        ok == (after_ses(old(r).bytes(), old(r).at(), n as int) >= 0),
        ok ==> final(r).at() == after_ses(old(r).bytes(), old(r).at(), n as int),
{
    let mut i: u32 = 0;
    while i < n
        invariant
            r.wf(),
            r.bytes() == old(r).bytes(),
            i <= n,
            r.at() >= 0,
            after_ses(r.bytes(), r.at(), n - i) == after_ses(
                old(r).bytes(),
                old(r).at(),
                n as int,
            ),
        decreases n - i,
    {
        let ghost here = r.at();
        if r.try_read_se().is_none() {
            assert(after_ses(r.bytes(), here, n - i) == after_ses(r.bytes(), -1, n - i - 1));
            return false;
        }
        i = i + 1;
    }
    true
}

/// What the part on the size of a picture says.
pub struct Picture {
    pub width_minus1: u32,
    pub height_minus1: u32,
    pub frames_only: u8,
    pub crop_right: u32,
    pub crop_bottom: u32,
}

/// The part on the size of a picture, and where it ends.
#[verifier::opaque]
pub open spec fn picture_of(d: Seq<u8>, at: int) -> (Picture, int) {
    let at1 = after_bits(d, after_ue(d, at), 1);
    let at2 = after_ue(d, at1);
    let at3 = after_ue(d, at2);
    let at4 = after_bits(d, at3, 1);
    let frames_only = bit(d, at3);
    let at5 = if at4 >= 0 && frames_only == 0 {
        after_bits(d, at4, 1)
    } else {
        at4
    };
    let at6 = after_bits(d, at5, 1);
    let at7 = after_bits(d, at6, 1);
    let cropped = at7 >= 0 && bit(d, at6) == 1;
    let right_at = after_ue(d, at7);
    let bottom_at = after_ue(d, after_ue(d, right_at));
    (
        Picture {
            width_minus1: ue_value(d, at1) as u32,
            height_minus1: ue_value(d, at2) as u32,
            frames_only: frames_only as u8,
            crop_right: if cropped {
                ue_value(d, right_at) as u32
            } else {
                0
            },
            crop_bottom: if cropped {
                ue_value(d, bottom_at) as u32
            } else {
                0
            },
        },
        if cropped {
            after_ue(d, bottom_at)
        } else {
            at7
        },
    )
}

fn read_picture(r: &mut BitReader) -> (p: Option<Picture>)
    requires
        old(r).wf(),
        old(r).at() >= 0,
    ensures
        final(r).wf(),
        final(r).bytes() == old(r).bytes(),
        p is Some == (picture_of(old(r).bytes(), old(r).at()).1 >= 0),
        p matches Some(v) ==> v == picture_of(old(r).bytes(), old(r).at()).0 && final(r).at()
            == picture_of(old(r).bytes(), old(r).at()).1 && v.frames_only <= 1,
{
    proof {
        reveal(picture_of);
    }
    if r.try_read_ue().is_none() {
        return None;
    }
    if r.try_read_bit().is_none() {
        return None;
    }
    let width_minus1: u32 = match r.try_read_ue() {
        Some(v) => v,
        None => return None,
    };
    let height_minus1: u32 = match r.try_read_ue() {
        Some(v) => v,
        None => return None,
    };
    let frames_only: u8 = match r.try_read_bit() {
        Some(v) => v,
        None => return None,
    };
    if frames_only == 0 {
        if r.try_read_bit().is_none() {
            return None;
        }
    }
    if r.try_read_bit().is_none() {
        return None;
    }
    let cropping: u8 = match r.try_read_bit() {
        Some(v) => v,
        None => return None,
    };
    let mut crop_right: u32 = 0;
    let mut crop_bottom: u32 = 0;
    if cropping == 1 {
        if r.try_read_ue().is_none() {
            return None;
        }
        crop_right =
        match r.try_read_ue() {
            Some(v) => v,
            None => return None,
        };
        if r.try_read_ue().is_none() {
            return None;
        }
        crop_bottom =
        match r.try_read_ue() {
            Some(v) => v,
            None => return None,
        };
    }
    Some(Picture { width_minus1, height_minus1, frames_only, crop_right, crop_bottom })
}

/// Where the part on the aspect ratio and the overscan ends.
pub open spec fn after_aspect(d: Seq<u8>, at: int) -> int {
    let at1 = after_bits(d, at, 1);
    let present = at1 >= 0 && bit(d, at) == 1;
    let at2 = if present {
        after_bits(d, at1, 8)
    } else {
        at1
    };
    let at3 = if present && at2 >= 0 && bits_value(d, at1, 8) == 255 {
        after_bits(d, after_bits(d, at2, 16), 16)
    } else {
        at2
    };
    let at4 = after_bits(d, at3, 1);
    if at4 >= 0 && bit(d, at3) == 1 {
        after_bits(d, at4, 1)
    } else {
        at4
    }
}

fn skip_aspect(r: &mut BitReader) -> (ok: bool)
    requires
        old(r).wf(),
        old(r).at() >= 0,
    ensures
        final(r).wf(),
        final(r).bytes() == old(r).bytes(),
        ok == (after_aspect(old(r).bytes(), old(r).at()) >= 0),
        ok ==> final(r).at() == after_aspect(old(r).bytes(), old(r).at()),
{
    let present: u8 = match r.try_read_bit() {
        Some(v) => v,
        None => return false,
    };
    if present == 1 {
        let ratio: u32 = match r.try_read_bits(8) {
            Some(v) => v,
            None => return false,
        };
        if ratio == 255 {
            if r.try_read_bits(16).is_none() {
                return false;
            }
            if r.try_read_bits(16).is_none() {
                return false;
            }
        }
    }
    let overscan: u8 = match r.try_read_bit() {
        Some(v) => v,
        None => return false,
    };
    if overscan == 1 {
        return r.try_read_bit().is_some();
    }
    true
}

/// Where the part on the signal and the place of colour samples ends.
pub open spec fn after_signal(d: Seq<u8>, at: int) -> int {
    let at1 = after_bits(d, at, 1);
    let at2 = if at1 >= 0 && bit(d, at) == 1 {
        let flag_at = after_bits(d, at1, 4);
        let behind = after_bits(d, flag_at, 1);
        if behind >= 0 && bit(d, flag_at) == 1 {
            after_bits(d, behind, 24)
        } else {
            behind
        }
    } else {
        at1
    };
    let at3 = after_bits(d, at2, 1);
    if at3 >= 0 && bit(d, at2) == 1 {
        after_ue(d, after_ue(d, at3))
    } else {
        at3
    }
}

fn skip_signal(r: &mut BitReader) -> (ok: bool)
    requires
        old(r).wf(),
        old(r).at() >= 0,
    ensures
        final(r).wf(),
        final(r).bytes() == old(r).bytes(),
        ok == (after_signal(old(r).bytes(), old(r).at()) >= 0),
        ok ==> final(r).at() == after_signal(old(r).bytes(), old(r).at()),
{
    let signal: u8 = match r.try_read_bit() {
        Some(v) => v,
        None => return false,
    };
    if signal == 1 {
        if r.try_read_bits(4).is_none() {
            return false;
        }
        let colour: u8 = match r.try_read_bit() {
            Some(v) => v,
            None => return false,
        };
        if colour == 1 {
            if r.try_read_bits(24).is_none() {
                return false;
            }
        }
    }
    let location: u8 = match r.try_read_bit() {
        Some(v) => v,
        None => return false,
    };
    if location == 1 {
        if r.try_read_ue().is_none() {
            return false;
        }
        return r.try_read_ue().is_some();
    }
    true
}

/// Frames per second, rounded to the nearest number and up in the middle: two
/// fields make a frame.
pub open spec fn rounded_rate(units: int, scale: int) -> int {
    (scale + units) / (2 * units)
}

/// The frame rate that the part on usability gives, and where its last field
/// that is read ends.
#[verifier::opaque]
pub open spec fn frame_rate_at(d: Seq<u8>, at: int) -> (Option<u32>, int) {
    let at1 = after_bits(d, at, 1);
    if at1 < 0 || bit(d, at) == 0 {
        (None, at1)
    } else {
        let timing_at = after_signal(d, after_aspect(d, at1));
        let at2 = after_bits(d, timing_at, 1);
        if after_aspect(d, at1) < 0 || at2 < 0 || bit(d, timing_at) == 0 {
            (
                None,
                if after_aspect(d, at1) < 0 {
                    -1
                } else {
                    at2
                },
            )
        } else {
            let units = bits_value(d, at2, 32);
            let scale = bits_value(d, at2 + 32, 32);
            (
                if units != 0 && scale != 0 {
                    Some(rounded_rate(units as int, scale as int) as u32)
                } else {
                    None
                },
                after_bits(d, at2, 65),
            )
        }
    }
}

fn read_frame_rate(r: &mut BitReader) -> (f: Option<Option<u32>>)
    requires
        old(r).wf(),
        old(r).at() >= 0,
    ensures
        final(r).wf(),
        final(r).bytes() == old(r).bytes(),
        f is Some == (frame_rate_at(old(r).bytes(), old(r).at()).1 >= 0),
        f matches Some(v) ==> v == frame_rate_at(old(r).bytes(), old(r).at()).0,
{
    proof {
        reveal(frame_rate_at);
    }
    let usability: u8 = match r.try_read_bit() {
        Some(v) => v,
        None => return None,
    };
    if usability == 0 {
        return Some(None);
    }
    if !skip_aspect(r) {
        return None;
    }
    if !skip_signal(r) {
        return None;
    }
    let timing: u8 = match r.try_read_bit() {
        Some(v) => v,
        None => return None,
    };
    if timing == 0 {
        return Some(None);
    }
    let units: u32 = match r.try_read_bits(32) {
        Some(v) => v,
        None => return None,
    };
    let scale: u32 = match r.try_read_bits(32) {
        Some(v) => v,
        None => return None,
    };
    if r.try_read_bit().is_none() {
        return None;
    }
    if units != 0 && scale != 0 {
        let rate: u64 = (scale as u64 + units as u64) / (2 * units as u64);
        assert(rate <= 0xFFFF_FFFF) by (nonlinear_arith)
            requires
                rate == (scale as int + units as int) / (2 * units as int),
                1 <= units <= 0xFFFF_FFFF,
                1 <= scale <= 0xFFFF_FFFF,
        ;
        Some(Some(rate as u32))
    } else {
        Some(None)
    }
}

/// A size of a picture in one direction: macroblocks of 16 without what is
/// cropped. None where it does not fit.
pub open spec fn cropped_size(blocks: int, crop: int) -> Option<int> {
    if blocks * 16 > u32::MAX || crop > u32::MAX || crop > blocks * 16 {
        None
    } else {
        Some(blocks * 16 - crop)
    }
}

/// A size that is 0 is not known.
pub open spec fn known_size(n: int) -> Option<u32> {
    if n > 0 {
        Some(n as u32)
    } else {
        None
    }
}

/// What a parameter set says; none where it ends too early or its sizes do not
/// fit. One of less than three bytes says nothing.
pub open spec fn sps_of(d: Seq<u8>) -> Option<Es27> {
    let bare = Es27 {
        stream_type: 27,
        profile_idc: None,
        level_idc: None,
        seq_parameter_set_id: None,
        horizontal_size: None,
        vertical_size: None,
        frame_rate: None,
    };
    if d.len() < 3 {
        Some(bare)
    } else {
        let (head, at1) = head_of(d);
        let extended = has_chroma(head.profile);
        let at2 = if at1 < 0 {
            -1
        } else if extended {
            chroma_of(d, at1).1
        } else {
            at1
        };
        let chroma = if extended {
            chroma_of(d, at1).0
        } else {
            Chroma { array_type: 1, sub_width: 2, sub_height: 2 }
        };
        if at2 < 0 || after_order(d, at2) < 0 {
            None
        } else {
            let (picture, at4) = picture_of(d, after_order(d, at2));
            if at4 < 0 || frame_rate_at(d, at4).1 < 0 {
                None
            } else {
                let fields = 2 - picture.frames_only;
                let unit_x = if chroma.array_type == 0 {
                    1
                } else {
                    chroma.sub_width as int
                };
                let unit_y = if chroma.array_type == 0 {
                    fields
                } else {
                    chroma.sub_height * fields
                };
                match (
                    cropped_size(picture.width_minus1 + 1, unit_x * picture.crop_right),
                    cropped_size(
                        fields * (picture.height_minus1 + 1),
                        unit_y * picture.crop_bottom,
                    ),
                ) {
                    (Some(width), Some(height)) => Some(
                        Es27 {
                            stream_type: 27,
                            profile_idc: Some(head.profile),
                            level_idc: Some(head.level),
                            seq_parameter_set_id: Some(head.id),
                            horizontal_size: known_size(width),
                            vertical_size: known_size(height),
                            frame_rate: frame_rate_at(d, at4).0,
                        },
                    ),
                    _ => None,
                }
            }
        }
    }
}

/// Whether a profile has a part on colour.
pub open spec fn has_chroma(profile: u8) -> bool {
    profile == 100 || profile == 110 || profile == 122 || profile == 244 || profile == 44
}

fn crop_size(blocks: u64, crop: u64) -> (r: Option<u32>)
    requires
        blocks <= 0x2_0000_0000,
    ensures
        r is Some == cropped_size(blocks as int, crop as int) is Some,
        r matches Some(n) ==> cropped_size(blocks as int, crop as int) == Some(n as int),
{
    let full: u64 = blocks * 16;
    if full > u32::MAX as u64 || crop > full {
        return None;
    }
    Some((full - crop) as u32)
}

fn known(n: u32) -> (r: Option<u32>)
    ensures
        r == known_size(n as int),
{
    if n > 0 {
        Some(n)
    } else {
        None
    }
}

/// Reads a parameter set.
pub fn parse_sps(rbsp: &[u8]) -> (r: Option<Es27>)
    ensures
        r == sps_of(rbsp@),
{
    let mut es = Es27::new();
    if rbsp.len() < 3 {
        return Some(es);
    }
    let mut reader = BitReader::new(rbsp);
    let head = match read_head(&mut reader) {
        Some(head) => head,
        None => return None,
    };
    let mut chroma = Chroma { array_type: 1, sub_width: 2, sub_height: 2 };
    if head.profile == 100 || head.profile == 110 || head.profile == 122 || head.profile == 244
        || head.profile == 44 {
        chroma =
        match read_chroma(&mut reader) {
            Some(chroma) => chroma,
            None => return None,
        };
    }
    if !skip_order(&mut reader) {
        return None;
    }
    let picture = match read_picture(&mut reader) {
        Some(picture) => picture,
        None => return None,
    };
    let frame_rate = match read_frame_rate(&mut reader) {
        Some(frame_rate) => frame_rate,
        None => return None,
    };
    let fields: u64 = 2 - picture.frames_only as u64;
    let sub_height: u64 = chroma.sub_height as u64;
    assert(sub_height * fields <= 4) by (nonlinear_arith)
        requires
            sub_height <= 2,
            fields <= 2,
    ;
    let (unit_x, unit_y): (u64, u64) = if chroma.array_type == 0 {
        (1, fields)
    } else {
        (chroma.sub_width as u64, sub_height * fields)
    };
    let right: u64 = picture.crop_right as u64;
    let bottom: u64 = picture.crop_bottom as u64;
    assert(unit_x * right <= 2 * 0xFFFF_FFFF && unit_y * bottom <= 4 * 0xFFFF_FFFF) by (
    nonlinear_arith)
        requires
            unit_x <= 2,
            unit_y <= 4,
            right <= 0xFFFF_FFFF,
            bottom <= 0xFFFF_FFFF,
    ;
    let rows: u64 = picture.height_minus1 as u64 + 1;
    assert(fields * rows <= 2 * 0x1_0000_0000) by (nonlinear_arith)
        requires
            fields <= 2,
            rows <= 0x1_0000_0000,
    ;
    let width: u32 = match crop_size(picture.width_minus1 as u64 + 1, unit_x * right) {
        Some(n) => n,
        None => return None,
    };
    let height: u32 = match crop_size(fields * rows, unit_y * bottom) {
        Some(n) => n,
        None => return None,
    };
    es.profile_idc = Some(head.profile);
    es.level_idc = Some(head.level);
    es.seq_parameter_set_id = Some(head.id);
    es.horizontal_size = known(width);
    es.vertical_size = known(height);
    es.frame_rate = frame_rate;
    Some(es)
}

} // verus!
