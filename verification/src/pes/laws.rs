//! What holds of elementary streams: what their headers say is what was written into them.

use crate::pes::es::{bitrate_text, full_rate, half_rate, Es, Es15, Es2, Es27, Es3, Es4};
use crate::pes::es_parsers::{
    audio_header, be32_at, es15_of, es2_at, es3_of, es4_of, first_ones, parsed_es, sequence_header,
};
use crate::pes::golomb::{after_ue, bit, bits_value, leading_zeros, lemma_bits_byte, ue_value};
use crate::pes::parser::{pes_gathered, pes_of};
use crate::pes::sps::{
    after_aspect, after_order, after_signal, chroma_of, cropped_size, frame_rate_at, has_chroma,
    head_of, next_unit, picture_of, sps_at, sps_of, unit_end, Chroma,
};
use crate::text::decimal;
use vstd::arithmetic::div_mod::lemma_fundamental_div_mod_converse;
use vstd::arithmetic::power2::pow2;
use vstd::prelude::*;

verus! {

// ---- Audio ----

/// The header of an MPEG audio frame, put together from its fields.
pub open spec fn audio_word(
    id: int,
    layer: int,
    rate: int,
    frequency: int,
    mode: int,
    extension: int,
    copyright: int,
    original: int,
    emphasis: int,
    others: (int, int),
) -> int {
    0xFFF0_0000 + id * 0x8_0000 + layer * 0x2_0000 + others.0 * 0x1_0000 + rate * 0x1000 + frequency
        * 0x400 + others.1 * 0x100 + mode * 0x40 + extension * 0x10 + copyright * 8 + original * 4
        + emphasis
}

/// The fields of an audio header are read as they were written, whichever sampling
/// frequencies the stream has.
pub proof fn law_audio_header_is_read(
    h: u32,
    id: int,
    layer: int,
    rate: int,
    frequency: int,
    mode: int,
    extension: int,
    copyright: int,
    original: int,
    emphasis: int,
    others: (int, int),
)
    requires
        0 <= id < 2 && 0 <= layer < 4 && 0 <= rate < 16 && 0 <= frequency < 4 && 0 <= mode < 4,
        0 <= extension < 4 && 0 <= copyright < 2 && 0 <= original < 2 && 0 <= emphasis < 4,
        0 <= others.0 < 2 && 0 <= others.1 < 4,
        h == audio_word(
            id,
            layer,
            rate,
            frequency,
            mode,
            extension,
            copyright,
            original,
            emphasis,
            others,
        ),
    ensures
        es3_of(h) == (Es3 {
            stream_type: 3,
            id: Some(id as u8),
            layer: Some(layer as u8),
            bit_rate_index: Some(rate as u8),
            sampling_frequency: Some(frequency as u8),
            mode: Some(mode as u8),
            mode_extension: Some(extension as u8),
            copyright: Some(copyright as u8),
            original: Some(original as u8),
            emphasis: Some(emphasis as u8),
        }),
        es4_of(h) == (Es4 {
            stream_type: 4,
            id: Some(id as u8),
            layer: Some(layer as u8),
            bit_rate_index: Some(rate as u8),
            sampling_frequency: Some(frequency as u8),
            mode: Some(mode as u8),
            mode_extension: Some(extension as u8),
            copyright: Some(copyright as u8),
            original: Some(original as u8),
            emphasis: Some(emphasis as u8),
        }),
{
    let w = h as int;
    let e = emphasis;
    let o = original * 4 + e;
    let c = copyright * 8 + o;
    let x = extension * 0x10 + c;
    let m = mode * 0x40 + x;
    let a = others.1 * 0x100 + m;
    let f = frequency * 0x400 + a;
    let r = rate * 0x1000 + f;
    let b = others.0 * 0x1_0000 + r;
    let l = layer * 0x2_0000 + b;
    lemma_field(w, 0xFFF, id, l, 2, 0x8_0000);
    lemma_field(w, 0x1FFE + id, layer, b, 4, 0x2_0000);
    let high = ((0x1FFE + id) * 4 + layer) * 2 + others.0;
    lemma_field(w, high, rate, f, 16, 0x1000);
    let high = high * 16 + rate;
    lemma_field(w, high, frequency, a, 4, 0x400);
    let high = (high * 4 + frequency) * 4 + others.1;
    lemma_field(w, high, mode, x, 4, 0x40);
    let high = high * 4 + mode;
    lemma_field(w, high, extension, c, 4, 0x10);
    let high = high * 4 + extension;
    lemma_field(w, high, copyright, o, 2, 8);
    let high = high * 2 + copyright;
    lemma_field(w, high, original, e, 2, 4);
    lemma_field(w, high * 2 + original, e, 0, 4, 1);
}

proof fn lemma_field(x: int, high: int, field: int, low: int, size: int, unit: int)
    requires
        x == (high * size + field) * unit + low,
        0 <= field < size,
        0 <= low < unit,
        0 <= high,
    ensures
        (x / unit) % size == field,
{
    lemma_fundamental_div_mod_converse(x, unit, high * size + field, low);
    lemma_fundamental_div_mod_converse(high * size + field, size, high, field);
}

/// The fields of an AAC header are read as they were written.
pub proof fn law_aac_header_is_read(
    h: u32,
    id: int,
    profile: int,
    frequency: int,
    channels: int,
    copyright: int,
    original: int,
    others: (int, int),
)
    requires
        0 <= id < 2 && 0 <= profile < 4 && 0 <= frequency < 16 && 0 <= channels < 8,
        0 <= copyright < 2 && 0 <= original < 2 && 0 <= others.0 < 2 && 0 <= others.1 < 128,
        h == 0xFFF0_0000 + id * 0x8_0000 + others.0 * 0x4_0000 + profile * 0x1_0000 + frequency
            * 0x1000 + channels * 0x200 + copyright * 0x100 + original * 0x80 + others.1,
    ensures
        es15_of(h) == (Es15 {
            stream_type: 15,
            id: Some(id as u8),
            profile: Some(profile as u8),
            sampling_frequency: Some(frequency as u8),
            channel_configuration: Some(channels as u8),
            copyright: Some(copyright as u8),
            original: Some(original as u8),
        }),
{
    let w = h as int;
    let o = original * 0x80 + others.1;
    let c = copyright * 0x100 + o;
    let n = channels * 0x200 + c;
    let f = frequency * 0x1000 + n;
    let p = profile * 0x1_0000 + f;
    lemma_field(w, 0xFFF, id, others.0 * 0x4_0000 + p, 2, 0x8_0000);
    let high = (0x1FFE + id) * 2 + others.0;
    lemma_field(w, high, profile, f, 4, 0x1_0000);
    let high = high * 4 + profile;
    lemma_field(w, high, frequency, n, 16, 0x1000);
    let high = high * 16 + frequency;
    lemma_field(w, high, channels, c, 8, 0x200);
    let high = high * 8 + channels;
    lemma_field(w, high, copyright, o, 2, 0x100);
    lemma_field(w, high * 2 + copyright, original, others.1, 2, 0x80);
}

/// An audio header is one of the words of the data, and begins with twelve ones. Data that
/// begins with such a word is read from there.
pub proof fn law_audio_header_is_found(d: Seq<u8>)
    ensures
        audio_header(d, 0) matches Some(h) ==> h / 0x10_0000 == 0xFFF && exists|at: int|
            0 <= at <= d.len() - 4 && h == #[trigger] d[at] * 0x100_0000 + d[at + 1] * 0x1_0000
                + d[at + 2] * 0x100 + d[at + 3],
        d.len() >= 4 && d[0] == 0xFF && d[1] >= 0xF0 ==> audio_header(d, 0) == Some(
            (d[0] * 0x100_0000 + d[1] * 0x1_0000 + d[2] * 0x100 + d[3]) as u32,
        ),
        (forall|i: int| 0 <= i < d.len() ==> d[i] != 0xFF) ==> audio_header(d, 0) is None,
{
    lemma_audio_header(d, 0);
}

proof fn lemma_first_ones(d: Seq<u8>, i: int)
    requires
        0 <= i,
    ensures
        first_ones(d, i) matches Some(at) ==> i <= at < d.len() && d[at] == 0xFF,
    decreases d.len() - i,
{
    if i < d.len() && d[i] != 0xFF {
        lemma_first_ones(d, i + 1);
    }
}

proof fn lemma_audio_header(d: Seq<u8>, i: int)
    requires
        0 <= i,
    ensures
        audio_header(d, i) matches Some(h) ==> h / 0x10_0000 == 0xFFF && exists|at: int|
            0 <= at <= d.len() - 4 && h == #[trigger] d[at] * 0x100_0000 + d[at + 1] * 0x1_0000
                + d[at + 2] * 0x100 + d[at + 3],
        audio_header(d, i) is Some ==> first_ones(d, i) is Some,
    decreases d.len() - i,
{
    lemma_first_ones(d, i);
    if let Some(at) = first_ones(d, i) {
        if at + 4 <= d.len() {
            if be32_at(d, at) / 0x10_0000 == 0xFFF {
                let h = audio_header(d, i)->0;
                assert(h == d[at] * 0x100_0000 + d[at + 1] * 0x1_0000 + d[at + 2] * 0x100 + d[at
                    + 3]);
            } else {
                lemma_audio_header(d, at + 2);
            }
        }
    }
}

/// The bit rates of the layers: those of layer I grow by 32 kbit/s; those of layer II grow
/// by 8 kbit/s at first and then double every four steps; those of layer III lie one step
/// behind those of layer II. With half sampling frequencies, layers II and III have the same
/// ones. No other index and no other layer has a rate.
pub proof fn law_bit_rates(i: u8)
    ensures
        1 <= i <= 14 ==> full_rate(i, 3) == Some(32 * i as int),
        full_rate(1, 2) == Some(32int) && full_rate(1, 1) == Some(32int) && full_rate(2, 1) == Some(
            40int,
        ),
        2 <= i <= 4 ==> full_rate(i, 2) == Some(32 + 8 * i as int),
        5 <= i <= 8 ==> full_rate(i, 2) == Some(16 * i as int),
        5 <= i <= 10 ==> full_rate((i + 4) as u8, 2) == Some(2 * full_rate(i, 2)->0),
        3 <= i <= 14 ==> full_rate(i, 1) == full_rate((i - 1) as u8, 2),
        1 <= i <= 8 ==> half_rate(i, 2) == Some(8 * i as int),
        8 <= i <= 14 ==> half_rate(i, 2) == Some(16 * (i - 4)),
        half_rate(i, 1) == half_rate(i, 2),
        half_rate(1, 3) == Some(32int),
        2 <= i <= 8 ==> half_rate(i, 3) == full_rate(i, 2),
        8 <= i <= 12 ==> half_rate(i, 3) == Some(16 * i as int),
        13 <= i <= 14 ==> half_rate(i, 3) == Some(32 * (i - 6)),
        i == 0 || i > 14 ==> forall|layer: u8|
            (#[trigger] full_rate(i, layer)) is None && half_rate(i, layer) is None,
        forall|layer: u8| layer == 0 || layer > 3 ==> (#[trigger] full_rate(i, layer)) is None,
{
}

// ---- MPEG-2 video ----

/// The first sequence header is taken: none that starts earlier, and one wherever there is
/// one with more than four bytes behind it.
pub proof fn law_sequence_header_is_found(d: Seq<u8>, i: int)
    requires
        0 <= i,
        i + 8 < d.len(),
        d[i] == 0 && d[i + 1] == 0 && d[i + 2] == 1 && d[i + 3] == 0xB3,
        forall|k: int|
            0 <= k < i ==> !(#[trigger] d[k] == 0 && d[k + 1] == 0 && d[k + 2] == 1 && d[k + 3]
                == 0xB3),
    ensures
        parsed_es(2, d) == Some(Es::Es2(es2_at(d, i))),
{
    lemma_sequence_header(d, 0, i);
}

proof fn lemma_sequence_header(d: Seq<u8>, k: int, i: int)
    requires
        0 <= k <= i,
        i + 8 < d.len(),
        d[i] == 0 && d[i + 1] == 0 && d[i + 2] == 1 && d[i + 3] == 0xB3,
        forall|m: int|
            k <= m < i ==> !(#[trigger] d[m] == 0 && d[m + 1] == 0 && d[m + 2] == 1 && d[m + 3]
                == 0xB3),
    ensures
        sequence_header(d, k) == Some(i),
    decreases i - k,
{
    if k < i {
        assert(!(d[k] == 0 && d[k + 1] == 0 && d[k + 2] == 1 && d[k + 3] == 0xB3));
        lemma_sequence_header(d, k + 1, i);
    }
}

/// The fields of a sequence header are read as they were written behind its start code: the
/// sizes, the aspect ratio, the frame rate, and the bit rate where it is there.
pub proof fn law_sequence_header_is_read(
    d: Seq<u8>,
    at: int,
    width: int,
    height: int,
    aspect: int,
    rate: int,
    bitrate: int,
    rest: int,
)
    requires
        0 <= at,
        at + 12 <= d.len(),
        0 <= width < 4096 && 0 <= height < 4096 && 0 <= aspect < 16 && 0 <= rate < 16,
        0 <= bitrate < 0x4_0000 && 0 <= rest < 0x4000,
        be32_at(d, at + 4) == width * 0x10_0000 + height * 0x100 + aspect * 0x10 + rate,
        be32_at(d, at + 8) == bitrate * 0x4000 + rest,
    ensures
        es2_at(d, at) == (Es2 {
            stream_type: 2,
            horizontal_size: Some(width as u16),
            vertical_size: Some(height as u16),
            aspect_ratio: Some(aspect as u8),
            frame_rate: Some(rate as u8),
            bitrate: Some(bitrate as u32),
        }),
{
    let t = be32_at(d, at + 4);
    lemma_field(t, 0, width, height * 0x100 + aspect * 0x10 + rate, 4096, 0x10_0000);
    lemma_field(t, width, height, aspect * 0x10 + rate, 4096, 0x100);
    lemma_field(t, width * 4096 + height, aspect, rate, 16, 0x10);
    lemma_field(t, (width * 4096 + height) * 16 + aspect, rate, 0, 16, 1);
    lemma_field(be32_at(d, at + 8), 0, bitrate, rest, 0x4_0000, 0x4000);
    assert(t / 0x10_0000 < 4096);
    assert(be32_at(d, at + 8) / 0x4000 < 0x4_0000);
}

/// A bit rate is told in kbit/s, rounded up; it is counted in units of 400 bit/s.
pub proof fn law_bit_rate_is_told(b: u32, k: int)
    requires
        b != 0x3FFFF,
        1000 * (k - 1) < 400 * b <= 1000 * k,
    ensures
        bitrate_text(Some(b)) == decimal(k) + " kbit/s"@,
{
    assert((b as int * 400 + 999) / 1000 == k);
}

// ---- H.264 video ----

/// Whether a variable-length code of a number stands between two positions: as many zeros as
/// there are bits behind a one, and the one.
#[verifier::opaque]
pub open spec fn holds_code(d: Seq<u8>, at: int, v: int, end: int) -> bool {
    exists|z: nat| #[trigger] holds_code_of(d, at, v, end, z)
}

/// Whether such a code has a number of zeros before its first one.
pub open spec fn holds_code_of(d: Seq<u8>, at: int, v: int, end: int, z: nat) -> bool {
    &&& 0 <= at
    &&& z <= 31
    &&& end == at + 2 * z + 1
    &&& end <= d.len() * 8
    &&& forall|k: int| at <= k < at + z ==> #[trigger] bit(d, k) == 0
    &&& bit(d, at + z) == 1
    &&& v + 1 == pow2(z) + bits_value(d, at + z + 1, z)
}

proof fn lemma_zeros(d: Seq<u8>, at: int, z: nat)
    requires
        0 <= at,
        at + z < d.len() * 8,
        forall|k: int| at <= k < at + z ==> #[trigger] bit(d, k) == 0,
        bit(d, at + z) == 1,
    ensures
        leading_zeros(d, at) == Some(z),
    decreases z,
{
    if z > 0 {
        assert(bit(d, at) == 0);
        lemma_zeros(d, at + 1, (z - 1) as nat);
    }
}

/// A code is read as the number that it stands for, up to its end.
pub proof fn law_code_is_read(d: Seq<u8>, at: int, v: int, end: int)
    requires
        holds_code(d, at, v, end),
    ensures
        ue_value(d, at) == v,
        after_ue(d, at) == end,
        0 <= at < end <= d.len() * 8,
{
    reveal(holds_code);
    let z = choose|z: nat| #[trigger] holds_code_of(d, at, v, end, z);
    lemma_zeros(d, at, z);
}

/// Whether a bit at a position has a value.
pub open spec fn holds_bit(d: Seq<u8>, at: int, v: int) -> bool {
    0 <= at < d.len() * 8 && bit(d, at) == v
}

/// The colour part of a parameter set without lists: how many samples a unit of cropping
/// has, by the kind of sampling.
pub proof fn law_chroma_is_read(
    d: Seq<u8>,
    at: int,
    format: int,
    ends: (int, int, int),
    depths: (int, int),
)
    requires
        0 <= format <= 2,
        holds_code(d, at, format, ends.0),
        holds_code(d, ends.0, depths.0, ends.1),
        holds_code(d, ends.1, depths.1, ends.2),
        holds_bit(d, ends.2 + 1, 0),
    ensures
        chroma_of(d, at).1 == ends.2 + 2,
        ({
            let c = chroma_of(d, at).0;
            &&& c.array_type == 1
            &&& format == 1 ==> c.sub_width == 2 && c.sub_height == 2
            &&& format == 2 ==> c.sub_width == 2 && c.sub_height == 1
        }),
{
    reveal(chroma_of);
    law_code_is_read(d, at, format, ends.0);
    law_code_is_read(d, ends.0, depths.0, ends.1);
    law_code_is_read(d, ends.1, depths.1, ends.2);
}

/// Where the parts of a parameter set end, and what stands between them.
pub struct SpsParts {
    pub id: int,
    pub id_end: int,
    pub chroma_end: int,
    pub frames: (int, int),
    pub order: (int, int),
    pub order_kind_end: int,
    pub refs: (int, int),
    pub width: int,
    pub width_end: int,
    pub height: int,
    pub height_end: int,
    pub frames_only: int,
    pub crop: bool,
    pub left: (int, int),
    pub right: (int, int),
    pub top: (int, int),
    pub bottom: (int, int),
}

/// The part on the size of a picture begins behind the flag on cropping.
pub open spec fn crop_at(p: SpsParts) -> int {
    p.height_end + 1 + (if p.frames_only == 0 {
        1int
    } else {
        0
    }) + 2
}

/// Where the part on usability begins.
pub open spec fn usability_at(p: SpsParts) -> int {
    if p.crop {
        p.bottom.1
    } else {
        crop_at(p)
    }
}

/// Whether bytes hold the parts of a parameter set behind the colour: pictures are ordered
/// by a counter; the size is given in blocks, and what is cropped on each side.
pub open spec fn holds_parts(d: Seq<u8>, p: SpsParts) -> bool {
    &&& holds_code(d, 24, p.id, p.id_end)
    &&& holds_code(d, p.chroma_end, p.frames.0, p.frames.1)
    &&& holds_code(d, p.frames.1, 0, p.order_kind_end)
    &&& holds_code(d, p.order_kind_end, p.order.0, p.order.1)
    &&& holds_code(d, p.order.1, p.refs.0, p.refs.1)
    &&& holds_code(d, p.refs.1 + 1, p.width, p.width_end)
    &&& holds_code(d, p.width_end, p.height, p.height_end)
    &&& 0 <= p.frames_only <= 1
    &&& holds_bit(d, p.height_end, p.frames_only)
    &&& holds_bit(
        d,
        crop_at(p) - 1,
        if p.crop {
            1
        } else {
            0
        },
    )
    &&& p.crop ==> holds_code(d, crop_at(p), p.left.0, p.left.1) && holds_code(
        d,
        p.left.1,
        p.right.0,
        p.right.1,
    ) && holds_code(d, p.right.1, p.top.0, p.top.1) && holds_code(
        d,
        p.top.1,
        p.bottom.0,
        p.bottom.1,
    )
    &&& 0 <= p.id <= u32::MAX && 0 <= p.width <= u32::MAX && 0 <= p.height <= u32::MAX
    &&& 0 <= p.right.0 <= u32::MAX && 0 <= p.bottom.0 <= u32::MAX
}

proof fn lemma_order(d: Seq<u8>, p: SpsParts)
    requires
        holds_parts(d, p),
    ensures
        after_order(d, p.chroma_end) == p.order.1,
        p.order.1 >= 0,
{
    reveal(after_order);
    law_code_is_read(d, p.chroma_end, p.frames.0, p.frames.1);
    law_code_is_read(d, p.frames.1, 0, p.order_kind_end);
    law_code_is_read(d, p.order_kind_end, p.order.0, p.order.1);
}

proof fn lemma_picture(d: Seq<u8>, p: SpsParts)
    requires
        holds_parts(d, p),
    ensures
        ({
            let (q, end) = picture_of(d, p.order.1);
            &&& end == usability_at(p)
            &&& end >= 0
            &&& q.width_minus1 == p.width && q.height_minus1 == p.height
            &&& q.frames_only == p.frames_only
            &&& q.crop_right == if p.crop {
                p.right.0
            } else {
                0
            }
            &&& q.crop_bottom == if p.crop {
                p.bottom.0
            } else {
                0
            }
        }),
{
    reveal(picture_of);
    law_code_is_read(d, p.order.1, p.refs.0, p.refs.1);
    law_code_is_read(d, p.refs.1 + 1, p.width, p.width_end);
    law_code_is_read(d, p.width_end, p.height, p.height_end);
    if p.crop {
        law_code_is_read(d, crop_at(p), p.left.0, p.left.1);
        law_code_is_read(d, p.left.1, p.right.0, p.right.1);
        law_code_is_read(d, p.right.1, p.top.0, p.top.1);
        law_code_is_read(d, p.top.1, p.bottom.0, p.bottom.1);
    }
}

/// What a parameter set says of the size: 16 samples for each block, without what is cropped
/// on the right and at the bottom, in units that depend on the colour; of a picture that may
/// consist of fields, the height counts twice. Profile, level and number are those that
/// stand before. Without a part on usability there is no frame rate.
pub proof fn law_size_is_read(d: Seq<u8>, p: SpsParts, unit: (int, int))
    requires
        d.len() >= 3,
        holds_parts(d, p),
        !has_chroma(d[0]) ==> p.chroma_end == p.id_end && unit == (2int, 2int),
        has_chroma(d[0]) ==> chroma_of(d, p.id_end).1 == p.chroma_end && chroma_of(
            d,
            p.id_end,
        ).0 == (Chroma { array_type: 1, sub_width: unit.0 as u32, sub_height: unit.1 as u32 })
            && 0 <= unit.0 <= 2 && 0 <= unit.1 <= 2,
        !p.crop ==> p.right.0 == 0 && p.bottom.0 == 0,
        holds_bit(d, usability_at(p), 0),
        (p.width + 1) * 16 <= u32::MAX && (p.height + 1) * 32 <= u32::MAX,
        unit.0 * p.right.0 < (p.width + 1) * 16,
        unit.1 * (2 - p.frames_only) * p.bottom.0 < (2 - p.frames_only) * (p.height + 1) * 16,
        unit.0 * p.right.0 <= u32::MAX,
    ensures
        sps_of(d) == Some(
            Es27 {
                stream_type: 27,
                profile_idc: Some(d[0]),
                level_idc: Some(d[2]),
                seq_parameter_set_id: Some(p.id as u32),
                horizontal_size: Some(((p.width + 1) * 16 - unit.0 * p.right.0) as u32),
                vertical_size: Some(
                    ((2 - p.frames_only) * (p.height + 1) * 16 - unit.1 * (2 - p.frames_only)
                        * p.bottom.0) as u32,
                ),
                frame_rate: None,
            },
        ),
{
    lemma_order(d, p);
    lemma_picture(d, p);
    law_code_is_read(d, 24, p.id, p.id_end);
    law_code_is_read(d, p.chroma_end, p.frames.0, p.frames.1);
    lemma_bits_byte(d, 0);
    lemma_bits_byte(d, 2);
    reveal(head_of);
    reveal(frame_rate_at);
    let fields = 2 - p.frames_only;
    let bottom = if p.crop {
        p.bottom.0
    } else {
        0
    };
    assert(fields * (p.height + 1) * 16 <= u32::MAX) by (nonlinear_arith)
        requires
            1 <= fields <= 2,
            0 <= p.height,
            (p.height + 1) * 32 <= u32::MAX,
    ;
    let (head, at1) = head_of(d);
    assert(at1 == p.id_end);
    assert(head.profile == d[0]);
    assert(head.level == d[2]);
    assert(head.id == p.id);
    let at4 = usability_at(p);
    assert(frame_rate_at(d, at4) == (None::<u32>, at4 + 1));
    let (q, end) = picture_of(d, p.order.1);
    assert(end == at4);
    assert(unit.1 * fields * q.crop_bottom == unit.1 * fields * p.bottom.0);
    assert(unit.0 * q.crop_right == unit.0 * p.right.0);
    assert(cropped_size(q.width_minus1 + 1, unit.0 * q.crop_right) == Some(
        (p.width + 1) * 16 - unit.0 * p.right.0,
    ));
    assert(cropped_size(fields * (q.height_minus1 + 1), unit.1 * fields * q.crop_bottom) == Some(
        fields * (p.height + 1) * 16 - unit.1 * fields * p.bottom.0,
    ));
    let chroma = Chroma { array_type: 1, sub_width: unit.0 as u32, sub_height: unit.1 as u32 };
    assert(2 - q.frames_only == fields);
    lemma_put_together(
        d,
        p.chroma_end,
        chroma,
        at4,
        (p.width + 1) * 16 - unit.0 * p.right.0,
        fields * (p.height + 1) * 16 - unit.1 * fields * p.bottom.0,
    );
}

proof fn lemma_put_together(
    d: Seq<u8>,
    at2: int,
    chroma: Chroma,
    at4: int,
    width: int,
    height: int,
)
    requires
        d.len() >= 3,
        head_of(d).1 >= 0,
        at2 >= 0,
        !has_chroma(head_of(d).0.profile) ==> at2 == head_of(d).1 && chroma == (Chroma {
            array_type: 1,
            sub_width: 2,
            sub_height: 2,
        }),
        has_chroma(head_of(d).0.profile) ==> chroma_of(d, head_of(d).1) == (chroma, at2),
        chroma.array_type == 1,
        after_order(d, at2) >= 0,
        picture_of(d, after_order(d, at2)).1 == at4,
        at4 >= 0,
        frame_rate_at(d, at4) == (None::<u32>, at4 + 1),
        ({
            let q = picture_of(d, after_order(d, at2)).0;
            let fields = 2 - q.frames_only;
            &&& cropped_size(q.width_minus1 + 1, chroma.sub_width as int * q.crop_right) == Some(
                width,
            )
            &&& cropped_size(
                fields * (q.height_minus1 + 1),
                chroma.sub_height * fields * q.crop_bottom,
            ) == Some(height)
        }),
        width > 0 && height > 0,
    ensures
        sps_of(d) == Some(
            Es27 {
                stream_type: 27,
                profile_idc: Some(head_of(d).0.profile),
                level_idc: Some(head_of(d).0.level),
                seq_parameter_set_id: Some(head_of(d).0.id),
                horizontal_size: Some(width as u32),
                vertical_size: Some(height as u32),
                frame_rate: None,
            },
        ),
{
}

/// The frame rate is half the clock by its unit, rounded to the nearest whole number, and a
/// half up.
pub proof fn law_frame_rate_is_read(d: Seq<u8>, at: int, units: int, scale: int, rate: int)
    requires
        holds_bit(d, at, 1),
        holds_bit(d, at + 1, 0),
        holds_bit(d, at + 2, 0),
        holds_bit(d, at + 3, 0),
        holds_bit(d, at + 4, 0),
        holds_bit(d, at + 5, 1),
        at + 71 <= d.len() * 8,
        bits_value(d, at + 6, 32) == units,
        bits_value(d, at + 38, 32) == scale,
        units > 0 && scale > 0,
        units <= u32::MAX && scale <= u32::MAX,
        2 * units * rate <= scale + units < 2 * units * (rate + 1),
    ensures
        frame_rate_at(d, at) == (Some(rate as u32), at + 71),
{
    reveal(frame_rate_at);
    assert(after_aspect(d, at + 1) == at + 3);
    assert(after_signal(d, at + 3) == at + 5);
    let q = (scale + units) / (2 * units);
    vstd::arithmetic::div_mod::lemma_fundamental_div_mod(scale + units, 2 * units);
    vstd::arithmetic::div_mod::lemma_mod_bound(scale + units, 2 * units);
    assert(q == rate) by (nonlinear_arith)
        requires
            scale + units == (2 * units) * q + (scale + units) % (2 * units),
            0 <= (scale + units) % (2 * units) < 2 * units,
            2 * units * rate <= scale + units < 2 * units * (rate + 1),
            units > 0,
    ;
}

// ---- Packets of an elementary stream ----

/// Behind the header of a packet of an elementary stream stands the stream: the header has
/// nine bytes and as many more as its last byte says.
pub proof fn law_stream_stands_behind_header(
    head: Seq<u8>,
    more: Seq<u8>,
    data: Seq<u8>,
    pid: u16,
    stream_type: u8,
)
    requires
        head.len() == 9,
        head[0] == 0 && head[1] == 0 && head[2] == 1,
        head[6] / 64 == 2,
        head[8] == more.len(),
    ensures
        pes_of(head + more + data, pid, Some(stream_type)) matches Some(p) && p.es == parsed_es(
            stream_type,
            data,
        ) && p.pid == pid,
{
    let d = head + more + data;
    assert(d.skip(9 + d[8] as int) =~= data);
}

/// What packets of a stream carry is gathered in their order, from one in which a unit
/// starts. It is told when the next unit starts, if it says something.
pub proof fn law_units_are_gathered(bytes: Seq<u8>, pid: u16, stream_type: u8, pkt: Seq<u8>)
    requires
        pkt.len() == 188,
        pkt[0] == 0x47,
        (pkt[1] as int % 32) * 256 + pkt[2] == pid,
        (pkt[3] / 16) % 4 == 1,
    ensures
        ({
            let (next, told) = pes_gathered(bytes, pid, stream_type, pkt);
            let starts = (pkt[1] / 64) % 2 == 1;
            &&& !starts ==> told is None
            &&& !starts && bytes.len() > 0 ==> next == bytes + pkt.skip(4)
            &&& !starts && bytes.len() == 0 ==> next.len() == 0
            &&& starts && told is None ==> next == pkt.skip(4)
            &&& told matches Some(p) ==> bytes.len() > 0 && p.es is Some && pes_of(
                bytes,
                pid,
                Some(stream_type),
            ) == Some(p)
            &&& starts && bytes.len() > 0 && pes_of(bytes, pid, Some(stream_type)) is Some && (
            pes_of(bytes, pid, Some(stream_type))->0).es is Some ==> told is Some
        }),
{
}

proof fn lemma_next_unit(d: Seq<u8>, j: int, end: int)
    requires
        0 <= j <= end <= d.len(),
        forall|k: int| j <= k < end ==> !(#[trigger] unit_end(d, k)),
        unit_end(d, end) || end == d.len(),
    ensures
        next_unit(d, j) == end,
    decreases end - j,
{
    if j < end {
        assert(!unit_end(d, j));
        if j + 2 < d.len() {
            lemma_next_unit(d, j + 1, end);
        } else {
            assert(next_unit(d, j) == d.len());
            if end < d.len() {
                assert(unit_end(d, end));
            }
        }
    }
}

/// The parameter set of a stream is what stands between the type of its unit and the next
/// start code. A unit of another type is passed over.
pub proof fn law_parameter_set_is_found(d: Seq<u8>, end: int)
    requires
        4 < end <= d.len(),
        d[0] == 0 && d[1] == 0 && d[2] == 1,
        forall|k: int| 3 <= k < end ==> !(#[trigger] unit_end(d, k)),
        unit_end(d, end) || end == d.len(),
        d[end - 1] != 0,
    ensures
        d[3] % 32 == 7 ==> sps_at(d, 0) == Some(d.subrange(4, end)),
        d[3] % 32 != 7 ==> sps_at(d, 0) == sps_at(d, end),
{
    lemma_next_unit(d, 3, end);
}

} // verus!
