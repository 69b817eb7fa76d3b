//! Integer pixel arithmetic on premultiplied RGBA8 data.

use vstd::prelude::*;

use crate::MaskMode;
use crate::grid::{lemma_cell_in_rows, lemma_cell_index, lemma_index_split};

verus! {

/// `value * factor / 255`, rounded to nearest (ties up), for 8-bit channel values.
pub open spec fn mul_div_255_spec(value: int, factor: int) -> int {
    (value * factor + 127) / 255
}

/// Scale an 8-bit channel by an 8-bit factor, as `value * factor / 255` rounded to nearest.
pub fn mul_div_255(value: u8, factor: u8) -> (r: u8)
    ensures
        r == mul_div_255_spec(value as int, factor as int),
{
    proof {
        assert(0 <= value * factor <= 255 * 255) by (nonlinear_arith)
            requires
                value <= 255,
                factor <= 255,
        ;
    }
    let product = (value as u16) * (factor as u16);
    ((product + 127) / 255) as u8
}

/// Mask selecting the red/blue (or green/alpha) lanes of a packed pixel.
pub const PACKED_RB_MASK: u32 = 0x00ff_00ff;

/// Rounding bias added to both lanes before the divide-by-255 approximation.
pub const PACKED_BIAS: u32 = 0x0080_0080;

/// The bit computation of [`mul_div_255_packed`] on arbitrary words.
pub open spec fn packed_mul_div_255_bits(packed: u32, factor: u32) -> u32 {
    let product = (packed * factor + 0x0080_0080) as u32;
    let sum = (product + ((product >> 8u32) & 0x00ff_00ffu32)) as u32;
    (sum >> 8u32) & 0x00ff_00ffu32
}

/// A packed pair of 8-bit lanes: bits 0..8 and 16..24, all other bits clear.
pub open spec fn two_lanes(packed: u32) -> bool {
    packed & 0xff00_ff00u32 == 0
}

/// Scale both 8-bit lanes of a packed pair by `factor`, each as `lane * factor / 255` rounded
/// to nearest.
pub fn mul_div_255_packed(packed: u32, factor: u32) -> (r: u32)
    ensures
        r == packed_mul_div_255_bits(packed, factor),
        two_lanes(packed) && factor <= 255 ==> r == lanes_mul_div_255(packed, factor),
{
    proof {
        if two_lanes(packed) && factor <= 255 {
            lemma_packed_lanes(packed, factor);
        }
    }
    assert((packed as u128) * (factor as u128) <= 0xffff_ffff * 0xffff_ffff) by (nonlinear_arith)
        requires
            packed <= 0xffff_ffff,
            factor <= 0xffff_ffff,
    ;
    let product = #[verifier::truncate] (((packed as u128) * (factor as u128) + (PACKED_BIAS as u128)) as u32);
    let sum = #[verifier::truncate] (((product as u64) + (((product >> 8u32) & PACKED_RB_MASK) as u64)) as u32);
    (sum >> 8u32) & PACKED_RB_MASK
}

/// Both lanes of a packed pair, each scaled by [`mul_div_255_spec`].
pub open spec fn lanes_mul_div_255(packed: u32, factor: u32) -> u32 {
    ((mul_div_255_spec((packed >> 16u32) as int, factor as int) as u32) << 16u32) | (
    mul_div_255_spec((packed & 0xffu32) as int, factor as int) as u32)
}

/// The divide-by-255 approximation used on packed lanes is exact rounding.
proof fn lemma_div_255_rounding(v: u32)
    requires
        v <= 65025,
    ensures
        ((((v + 128) as u32) + (((v + 128) as u32) >> 8u32)) as u32) >> 8u32 == (v + 127) / 255,
{
    assert(((((v + 128) as u32) + (((v + 128) as u32) >> 8u32)) as u32) >> 8u32 == (v + 127) / 255) by (bit_vector)
        requires
            v <= 65025,
    ;
}

proof fn lemma_packed_lanes(packed: u32, factor: u32)
    requires
        two_lanes(packed),
        factor <= 255,
    ensures
        packed_mul_div_255_bits(packed, factor) == lanes_mul_div_255(packed, factor),
{
    let hi: u32 = packed >> 16u32;
    let lo: u32 = packed & 0xffu32;
    assert(packed == hi * 65536 + lo && hi <= 255 && lo <= 255) by (bit_vector)
        requires
            packed & 0xff00_ff00u32 == 0,
            hi == packed >> 16u32,
            lo == packed & 0xffu32,
    ;
    assert(hi * factor <= 65025 && lo * factor <= 65025) by (nonlinear_arith)
        requires
            hi <= 255,
            lo <= 255,
            factor <= 255,
    ;
    let hi_t: u32 = (hi * factor + 128) as u32;
    let lo_t: u32 = (lo * factor + 128) as u32;
    assert(packed * factor + 0x0080_0080 == hi_t * 65536 + lo_t) by (nonlinear_arith)
        requires
            packed == hi * 65536 + lo,
            hi_t == hi * factor + 128,
            lo_t == lo * factor + 128,
    ;
    let product: u32 = (packed * factor + 0x0080_0080) as u32;
    assert(product == hi_t * 65536 + lo_t);
    let sum: u32 = (product + ((product >> 8u32) & 0x00ff_00ffu32)) as u32;
    let hi_s: u32 = (hi_t + (hi_t >> 8u32)) as u32;
    let lo_s: u32 = (lo_t + (lo_t >> 8u32)) as u32;
    assert((sum >> 8u32) & 0x00ff_00ffu32 == ((hi_s >> 8u32) << 16u32) | (lo_s >> 8u32))
        by (bit_vector)
        requires
            product == hi_t * 65536 + lo_t,
            sum == (product + ((product >> 8u32) & 0x00ff_00ffu32)) as u32,
            hi_s == (hi_t + (hi_t >> 8u32)) as u32,
            lo_s == (lo_t + (lo_t >> 8u32)) as u32,
            hi_t <= 65153,
            lo_t <= 65153,
    ;
    lemma_div_255_rounding((hi * factor) as u32);
    lemma_div_255_rounding((lo * factor) as u32);
}

/// Byte `k` (0 = lowest) of a pixel word.
pub open spec fn byte_of(word: u32, k: u32) -> u32 {
    (word >> (8 * k)) & 0xffu32
}

/// A pixel word assembled from four bytes, lowest first.
pub open spec fn pack4(b0: u32, b1: u32, b2: u32, b3: u32) -> u32 {
    b0 | (b1 << 8u32) | (b2 << 16u32) | (b3 << 24u32)
}

/// Every byte of `pixel` scaled by [`mul_div_255_spec`].
pub open spec fn scaled_pixel(pixel: u32, alpha: u32) -> u32 {
    pack4(
        mul_div_255_spec(byte_of(pixel, 0) as int, alpha as int) as u32,
        mul_div_255_spec(byte_of(pixel, 1) as int, alpha as int) as u32,
        mul_div_255_spec(byte_of(pixel, 2) as int, alpha as int) as u32,
        mul_div_255_spec(byte_of(pixel, 3) as int, alpha as int) as u32,
    )
}

/// The bit computation of [`scale_packed_premultiplied_color`] on arbitrary words.
pub open spec fn scale_pixel_bits(pixel: u32, alpha: u32) -> u32 {
    packed_mul_div_255_bits(pixel & 0x00ff_00ffu32, alpha) | (packed_mul_div_255_bits(
        (pixel >> 8u32) & 0x00ff_00ffu32,
        alpha,
    ) << 8u32)
}

pub(crate) proof fn lemma_mul_div_255_le(v: int, f: int)
    requires
        0 <= v <= 255,
        0 <= f <= 255,
    ensures
        0 <= mul_div_255_spec(v, f) <= f,
{
    assert(0 <= v * f <= 255 * f) by (nonlinear_arith)
        requires
            0 <= v <= 255,
            0 <= f,
    ;
}

/// With a factor of at most 255, the packed bit computation scales each byte on its own.
pub(crate) proof fn lemma_scale_pixel_bits_bytes(pixel: u32, alpha: u32)
    requires
        alpha <= 255,
    ensures
        scale_pixel_bits(pixel, alpha) == scaled_pixel(pixel, alpha),
{
    let p_rb = pixel & 0x00ff_00ffu32;
    let p_ga = (pixel >> 8u32) & 0x00ff_00ffu32;
    assert(two_lanes(p_rb) && two_lanes(p_ga)) by (bit_vector)
        requires
            p_rb == pixel & 0x00ff_00ffu32,
            p_ga == (pixel >> 8u32) & 0x00ff_00ffu32,
    ;
    lemma_packed_lanes(p_rb, alpha);
    lemma_packed_lanes(p_ga, alpha);
    let b0 = byte_of(pixel, 0);
    let b1 = byte_of(pixel, 1);
    let b2 = byte_of(pixel, 2);
    let b3 = byte_of(pixel, 3);
    assert(p_rb >> 16u32 == b2 && p_rb & 0xffu32 == b0 && p_ga >> 16u32 == b3 && p_ga & 0xffu32
        == b1) by (bit_vector)
        requires
            p_rb == pixel & 0x00ff_00ffu32,
            p_ga == (pixel >> 8u32) & 0x00ff_00ffu32,
            b0 == (pixel >> 0u32) & 0xffu32,
            b1 == (pixel >> 8u32) & 0xffu32,
            b2 == (pixel >> 16u32) & 0xffu32,
            b3 == (pixel >> 24u32) & 0xffu32,
    ;
    let m0 = mul_div_255_spec(b0 as int, alpha as int) as u32;
    let m1 = mul_div_255_spec(b1 as int, alpha as int) as u32;
    let m2 = mul_div_255_spec(b2 as int, alpha as int) as u32;
    let m3 = mul_div_255_spec(b3 as int, alpha as int) as u32;
    lemma_unpack4(pixel);
    lemma_mul_div_255_le(b0 as int, alpha as int);
    lemma_mul_div_255_le(b1 as int, alpha as int);
    lemma_mul_div_255_le(b2 as int, alpha as int);
    lemma_mul_div_255_le(b3 as int, alpha as int);
    assert(((m2 << 16u32) | m0) | (((m3 << 16u32) | m1) << 8u32) == pack4(m0, m1, m2, m3))
        by (bit_vector)
        requires
            m0 <= 255,
            m1 <= 255,
            m2 <= 255,
            m3 <= 255,
    ;
}

/// The bytes of a packed word are the bytes it was packed from.
pub(crate) proof fn lemma_pack4_bytes(b0: u32, b1: u32, b2: u32, b3: u32)
    requires
        b0 <= 255,
        b1 <= 255,
        b2 <= 255,
        b3 <= 255,
    ensures
        byte_of(pack4(b0, b1, b2, b3), 0) == b0,
        byte_of(pack4(b0, b1, b2, b3), 1) == b1,
        byte_of(pack4(b0, b1, b2, b3), 2) == b2,
        byte_of(pack4(b0, b1, b2, b3), 3) == b3,
        pack4(b0, b1, b2, b3) >> 24u32 == b3,
{
    let w = pack4(b0, b1, b2, b3);
    assert(((w >> 0u32) & 0xffu32) == b0 && ((w >> 8u32) & 0xffu32) == b1 && ((w >> 16u32)
        & 0xffu32) == b2 && ((w >> 24u32) & 0xffu32) == b3 && (w >> 24u32) == b3) by (bit_vector)
        requires
            w == b0 | (b1 << 8u32) | (b2 << 16u32) | (b3 << 24u32),
            b0 <= 255,
            b1 <= 255,
            b2 <= 255,
            b3 <= 255,
    ;
}

/// Scale all four channels of a packed premultiplied pixel by `alpha`.
///
/// A pixel word holds one channel per byte; with `alpha <= 255` every byte becomes
/// `byte * alpha / 255` rounded to nearest.
pub fn scale_packed_premultiplied_color(pixel: u32, alpha: u32) -> (r: u32)
    ensures
        r == scale_pixel_bits(pixel, alpha),
        alpha <= 255 ==> r == scaled_pixel(pixel, alpha),
{
    let rb = mul_div_255_packed(pixel & PACKED_RB_MASK, alpha);
    let ga = mul_div_255_packed((pixel >> 8u32) & PACKED_RB_MASK, alpha) << 8u32;
    proof {
        if alpha <= 255 {
            let p_rb = pixel & 0x00ff_00ffu32;
            let p_ga = (pixel >> 8u32) & 0x00ff_00ffu32;
            assert(two_lanes(p_rb) && two_lanes(p_ga)) by (bit_vector)
                requires
                    p_rb == pixel & 0x00ff_00ffu32,
                    p_ga == (pixel >> 8u32) & 0x00ff_00ffu32,
            ;
            let b0 = byte_of(pixel, 0);
            let b1 = byte_of(pixel, 1);
            let b2 = byte_of(pixel, 2);
            let b3 = byte_of(pixel, 3);
            assert(p_rb >> 16u32 == b2 && p_rb & 0xffu32 == b0 && p_ga >> 16u32 == b3 && p_ga
                & 0xffu32 == b1) by (bit_vector)
                requires
                    p_rb == pixel & 0x00ff_00ffu32,
                    p_ga == (pixel >> 8u32) & 0x00ff_00ffu32,
                    b0 == (pixel >> 0u32) & 0xffu32,
                    b1 == (pixel >> 8u32) & 0xffu32,
                    b2 == (pixel >> 16u32) & 0xffu32,
                    b3 == (pixel >> 24u32) & 0xffu32,
            ;
            let m0 = mul_div_255_spec(b0 as int, alpha as int) as u32;
            let m1 = mul_div_255_spec(b1 as int, alpha as int) as u32;
            let m2 = mul_div_255_spec(b2 as int, alpha as int) as u32;
            let m3 = mul_div_255_spec(b3 as int, alpha as int) as u32;
            assert(b0 <= 255 && b1 <= 255 && b2 <= 255 && b3 <= 255) by (bit_vector)
                requires
                    b0 == (pixel >> 0u32) & 0xffu32,
                    b1 == (pixel >> 8u32) & 0xffu32,
                    b2 == (pixel >> 16u32) & 0xffu32,
                    b3 == (pixel >> 24u32) & 0xffu32,
            ;
            lemma_mul_div_255_le(b0 as int, alpha as int);
            lemma_mul_div_255_le(b1 as int, alpha as int);
            lemma_mul_div_255_le(b2 as int, alpha as int);
            lemma_mul_div_255_le(b3 as int, alpha as int);
            assert(((m2 << 16u32) | m0) | (((m3 << 16u32) | m1) << 8u32) == pack4(m0, m1, m2, m3))
                by (bit_vector)
                requires
                    m0 <= 255,
                    m1 <= 255,
                    m2 <= 255,
                    m3 <= 255,
            ;
        }
    }
    rb | ga
}

/// Composite a packed premultiplied source pixel over a destination pixel.
///
/// The alpha channel is the highest byte. An opaque source replaces the destination, a fully
/// transparent one leaves it, and otherwise the result is `src + dst * (255 - src_alpha) / 255`.
pub fn blend_source_over_packed(src: u32, dst: u32) -> (r: u32)
    ensures
        r == (if src >> 24u32 == 255 {
            src
        } else if src >> 24u32 == 0 {
            dst
        } else {
            (src + scale_pixel_bits(dst, (255 - (src >> 24u32)) as u32)) as u32
        }),
        byte_of(src, 0) <= src >> 24u32 && byte_of(src, 1) <= src >> 24u32 && byte_of(src, 2)
            <= src >> 24u32 ==> r == pack4(
            (byte_of(src, 0) + mul_div_255_spec(byte_of(dst, 0) as int, 255 - (src >> 24u32))) as u32,
            (byte_of(src, 1) + mul_div_255_spec(byte_of(dst, 1) as int, 255 - (src >> 24u32))) as u32,
            (byte_of(src, 2) + mul_div_255_spec(byte_of(dst, 2) as int, 255 - (src >> 24u32))) as u32,
            (byte_of(src, 3) + mul_div_255_spec(byte_of(dst, 3) as int, 255 - (src >> 24u32))) as u32,
        ),
{
    let src_alpha = src >> 24u32;
    assert(src_alpha <= 255) by (bit_vector)
        requires
            src_alpha == src >> 24u32,
    ;
    if src_alpha == 255 {
        proof {
            lemma_unpack4(src);
            lemma_mul_div_255_zero_factor(dst);
        }
        return src;
    }
    if src_alpha == 0 {
        proof {
            lemma_unpack4(src);
            lemma_unpack4(dst);
            lemma_mul_div_255_identity(dst);
            assert(byte_of(src, 3) == src_alpha) by (bit_vector)
                requires
                    src_alpha == src >> 24u32,
            ;
            assert(mul_div_255_spec(byte_of(dst, 0) as int, 255) == byte_of(dst, 0));
            assert(mul_div_255_spec(byte_of(dst, 1) as int, 255) == byte_of(dst, 1));
            assert(mul_div_255_spec(byte_of(dst, 2) as int, 255) == byte_of(dst, 2));
            assert(mul_div_255_spec(byte_of(dst, 3) as int, 255) == byte_of(dst, 3));
        }
        return dst;
    }
    let scaled = scale_packed_premultiplied_color(dst, 255 - src_alpha);
    proof {
        lemma_blend_lanes(src, dst, src_alpha, scaled);
    }
    #[verifier::truncate]
    ((src as u64 + scaled as u64) as u32)
}

/// A word is the packing of its own bytes.
pub(crate) proof fn lemma_unpack4(w: u32)
    ensures
        w == pack4(byte_of(w, 0), byte_of(w, 1), byte_of(w, 2), byte_of(w, 3)),
        byte_of(w, 0) <= 255,
        byte_of(w, 1) <= 255,
        byte_of(w, 2) <= 255,
        byte_of(w, 3) <= 255,
{
    assert(w == ((w >> 0u32) & 0xffu32) | (((w >> 8u32) & 0xffu32) << 8u32) | (((w >> 16u32)
        & 0xffu32) << 16u32) | (((w >> 24u32) & 0xffu32) << 24u32)) by (bit_vector);
    assert(((w >> 0u32) & 0xffu32) <= 255 && ((w >> 8u32) & 0xffu32) <= 255 && ((w >> 16u32)
        & 0xffu32) <= 255 && ((w >> 24u32) & 0xffu32) <= 255) by (bit_vector);
}

/// Scaling by a zero factor gives zero on every byte.
proof fn lemma_mul_div_255_zero_factor(dst: u32)
    ensures
        forall|k: u32| k < 4 ==> mul_div_255_spec(#[trigger] byte_of(dst, k) as int, 0) == 0,
{
    assert forall|k: u32| k < 4 implies mul_div_255_spec(#[trigger] byte_of(dst, k) as int, 0) == 0 by {
        lemma_unpack4(dst);
    }
}

/// Scaling by 255 leaves every byte unchanged.
proof fn lemma_mul_div_255_identity(dst: u32)
    ensures
        forall|k: u32|
            k < 4 ==> mul_div_255_spec(#[trigger] byte_of(dst, k) as int, 255) == byte_of(dst, k),
{
    assert forall|k: u32| k < 4 implies mul_div_255_spec(#[trigger] byte_of(dst, k) as int, 255)
        == byte_of(dst, k) by {
        lemma_unpack4(dst);
        let b = byte_of(dst, k) as int;
        assert(b * 255 + 127 == 255 * b + 127);
    }
}

pub(crate) proof fn lemma_blend_lanes(src: u32, dst: u32, src_alpha: u32, scaled: u32)
    requires
        src_alpha == src >> 24u32,
        0 < src_alpha < 255,
        scaled == scale_pixel_bits(dst, (255 - src_alpha) as u32),
        scaled == scaled_pixel(dst, (255 - src_alpha) as u32),
    ensures
        byte_of(src, 0) <= src_alpha && byte_of(src, 1) <= src_alpha && byte_of(src, 2)
            <= src_alpha ==> (src + scaled) as u32 == pack4(
            (byte_of(src, 0) + mul_div_255_spec(byte_of(dst, 0) as int, 255 - src_alpha)) as u32,
            (byte_of(src, 1) + mul_div_255_spec(byte_of(dst, 1) as int, 255 - src_alpha)) as u32,
            (byte_of(src, 2) + mul_div_255_spec(byte_of(dst, 2) as int, 255 - src_alpha)) as u32,
            (byte_of(src, 3) + mul_div_255_spec(byte_of(dst, 3) as int, 255 - src_alpha)) as u32,
        ),
{
    if byte_of(src, 0) <= src_alpha && byte_of(src, 1) <= src_alpha && byte_of(src, 2) <= src_alpha {
        lemma_unpack4(src);
        lemma_unpack4(dst);
        let f = (255 - src_alpha) as u32;
        let s0 = byte_of(src, 0);
        let s1 = byte_of(src, 1);
        let s2 = byte_of(src, 2);
        let s3 = byte_of(src, 3);
        let t0 = mul_div_255_spec(byte_of(dst, 0) as int, f as int) as u32;
        let t1 = mul_div_255_spec(byte_of(dst, 1) as int, f as int) as u32;
        let t2 = mul_div_255_spec(byte_of(dst, 2) as int, f as int) as u32;
        let t3 = mul_div_255_spec(byte_of(dst, 3) as int, f as int) as u32;
        lemma_mul_div_255_le(byte_of(dst, 0) as int, f as int);
        lemma_mul_div_255_le(byte_of(dst, 1) as int, f as int);
        lemma_mul_div_255_le(byte_of(dst, 2) as int, f as int);
        lemma_mul_div_255_le(byte_of(dst, 3) as int, f as int);
        assert(s3 == src_alpha) by (bit_vector)
            requires
                src_alpha == src >> 24u32,
                s3 == (src >> 24u32) & 0xffu32,
        ;
        assert((pack4(s0, s1, s2, s3) + pack4(t0, t1, t2, t3)) as u32 == pack4(
            (s0 + t0) as u32,
            (s1 + t1) as u32,
            (s2 + t2) as u32,
            (s3 + t3) as u32,
        )) by (bit_vector)
            requires
                s0 + t0 <= 255,
                s1 + t1 <= 255,
                s2 + t2 <= 255,
                s3 + t3 <= 255,
        ;
    }
}

/// Convert a premultiplied channel back to straight alpha, rounded to nearest and capped at 255.
pub open spec fn unpremultiply_spec(channel: int, alpha: int) -> int {
    if alpha == 0 {
        0
    } else if alpha == 255 {
        channel
    } else {
        let value = (channel * 255 + alpha / 2) / alpha;
        if value > 255 {
            255
        } else {
            value
        }
    }
}

/// Convert a premultiplied channel back to straight alpha.
pub fn unpremultiply_channel(channel: u8, alpha: u8) -> (r: u8)
    ensures
        r == unpremultiply_spec(channel as int, alpha as int),
{
    if alpha == 0 {
        return 0;
    }
    if alpha == 255 {
        return channel;
    }
    let value = ((channel as u32) * 255 + (alpha as u32) / 2) / (alpha as u32);
    if value > 255 {
        255
    } else {
        value as u8
    }
}

/// Coverage that a mask pixel `[r, g, b, a]` (premultiplied) contributes: its alpha, or its
/// luminance `(54 r + 183 g + 19 b) / 256` rounded to nearest.
pub open spec fn mask_value_spec(px: Seq<u8>, mode: MaskMode) -> int {
    match mode {
        MaskMode::Alpha => px[3] as int,
        MaskMode::Luminance => (54 * px[0] + 183 * px[1] + 19 * px[2] + 128) / 256,
    }
}

/// Coverage of one mask pixel: its alpha byte (the fourth), or the luminance of its first three
/// bytes.
pub fn mask_value(mask: &[u8], mode: MaskMode) -> (r: u8)
    requires
        mode == MaskMode::Alpha ==> mask@.len() >= 4,
        mode == MaskMode::Luminance ==> mask@.len() >= 3,
    ensures
        r == mask_value_spec(mask@, mode),
{
    match mode {
        MaskMode::Alpha => mask[3],
        MaskMode::Luminance => {
            let sum: u32 = 54u32 * (mask[0] as u32) + 183u32 * (mask[1] as u32) + 19u32 * (
            mask[2] as u32) + 128;
            let value = sum >> 8u32;
            assert(value == sum / 256) by (bit_vector)
                requires
                    value == sum >> 8u32,
            ;
            value as u8
        },
    }
}

/// Multiply premultiplied RGBA content by the coverage of a mask image of the same layout.
///
/// Pixel `p` of `content` is scaled by the coverage of pixel `p` of `mask`, for every pixel
/// present in both; trailing bytes are left unchanged.
pub fn apply_mask_to_premul_rgba(content: &mut [u8], mask: &[u8], mode: MaskMode)
    ensures
        final(content)@.len() == old(content)@.len(),
        forall|i: int|
            #![trigger final(content)@[i]]
            0 <= i < old(content)@.len() ==> final(content)@[i] == if i / 4 < old(content)@.len()
                / 4 && i / 4 < mask@.len() / 4 {
                mul_div_255_spec(
                    old(content)@[i] as int,
                    mask_value_spec(mask@.subrange((i / 4) * 4, (i / 4) * 4 + 4), mode),
                )
            } else {
                old(content)@[i] as int
            },
{
    let pixels = if content.len() / 4 < mask.len() / 4 {
        content.len() / 4
    } else {
        mask.len() / 4
    };
    let ghost initial = content@;
    let mask_len = mask.len();
    let mut p: usize = 0;
    while p < pixels
        invariant
            mask_len == mask@.len(),
            pixels <= initial.len() / 4,
            pixels <= mask@.len() / 4,
            pixels == if initial.len() / 4 < mask@.len() / 4 {
                initial.len() / 4
            } else {
                mask@.len() / 4
            },
            p <= pixels,
            content@.len() == initial.len(),
            forall|i: int|
                #![trigger content@[i]]
                0 <= i < initial.len() ==> content@[i] == if i / 4 < p {
                    mul_div_255_spec(
                        initial[i] as int,
                        mask_value_spec(mask@.subrange((i / 4) * 4, (i / 4) * 4 + 4), mode),
                    )
                } else {
                    initial[i] as int
                },
        decreases pixels - p,
    {
        assert(p * 4 + 4 <= initial.len() && p * 4 + 4 <= mask_len);
        let base = p * 4;
        let m = mask_value(&mask[base..base + 4], mode);
        let mut c: usize = 0;
        while c < 4
            invariant
                pixels <= initial.len() / 4,
                pixels <= mask@.len() / 4,
                p < pixels,
                base == p * 4,
                c <= 4,
                content@.len() == initial.len(),
                m == mask_value_spec(mask@.subrange(base as int, base + 4), mode),
                forall|i: int|
                    #![trigger content@[i]]
                    0 <= i < initial.len() ==> content@[i] == if i / 4 < p || (base <= i < base
                        + c) {
                        mul_div_255_spec(
                            initial[i] as int,
                            mask_value_spec(mask@.subrange((i / 4) * 4, (i / 4) * 4 + 4), mode),
                        )
                    } else {
                        initial[i] as int
                    },
            decreases 4 - c,
        {
            let v = mul_div_255(content[base + c], m);
            content[base + c] = v;
            c += 1;
        }
        p += 1;
    }
}

/// Coverage that a premultiplied pixel contributes to a group mask: its alpha, or its luminance
/// `(54 r + 183 g + 19 b) / 255` rounded to nearest and capped at 255.
pub open spec fn group_coverage_spec(r: int, g: int, b: int, a: int, mode: MaskMode) -> int {
    match mode {
        MaskMode::Alpha => a,
        MaskMode::Luminance => {
            let value = (r * 54 + g * 183 + b * 19 + 127) / 255;
            if value > 255 {
                255
            } else {
                value
            }
        },
    }
}

/// One coverage byte per whole RGBA8 pixel of `data`.
pub fn mask_coverage(data: &[u8], mode: MaskMode) -> (r: Vec<u8>)
    ensures
        r@.len() == data@.len() / 4,
        forall|p: int|
            0 <= p < r@.len() ==> #[trigger] r@[p] == group_coverage_spec(
                data@[4 * p] as int,
                data@[4 * p + 1] as int,
                data@[4 * p + 2] as int,
                data@[4 * p + 3] as int,
                mode,
            ),
{
    let n = data.len();
    let pixels = n / 4;
    let mut out: Vec<u8> = Vec::new();
    let mut p: usize = 0;
    while p < pixels
        invariant
            n == data@.len(),
            pixels == data@.len() / 4,
            p <= pixels,
            out@.len() == p,
            forall|q: int|
                0 <= q < p ==> #[trigger] out@[q] == group_coverage_spec(
                    data@[4 * q] as int,
                    data@[4 * q + 1] as int,
                    data@[4 * q + 2] as int,
                    data@[4 * q + 3] as int,
                    mode,
                ),
        decreases pixels - p,
    {
        assert(4 * p + 4 <= n);
        let base = 4 * p;
        let value = match mode {
            MaskMode::Alpha => data[base + 3],
            MaskMode::Luminance => {
                let coverage = ((data[base] as u16) * 54 + (data[base + 1] as u16) * 183 + (
                data[base + 2] as u16) * 19 + 127) / 255;
                if coverage > 255 {
                    255u8
                } else {
                    coverage as u8
                }
            },
        };
        out.push(value);
        p += 1;
    }
    out
}

/// Force the alpha byte of every whole RGBA8 pixel to opaque.
pub fn force_opaque(data: &mut [u8])
    ensures
        final(data)@.len() == old(data)@.len(),
        forall|i: int|
            0 <= i < old(data)@.len() ==> #[trigger] final(data)@[i] == if i % 4 == 3 && i / 4
                < old(data)@.len() / 4 {
                255u8
            } else {
                old(data)@[i]
            },
{
    let ghost initial = data@;
    let n = data.len();
    let pixels = n / 4;
    let mut p: usize = 0;
    while p < pixels
        invariant
            n == initial.len(),
            pixels == initial.len() / 4,
            data@.len() == initial.len(),
            p <= pixels,
            forall|i: int|
                0 <= i < initial.len() ==> #[trigger] data@[i] == if i % 4 == 3 && i / 4 < p {
                    255u8
                } else {
                    initial[i]
                },
        decreases pixels - p,
    {
        assert(4 * p + 4 <= n);
        data[4 * p + 3] = 0xff;
        p += 1;
    }
}

/// Wrapping sum of all bytes of an image buffer.
pub open spec fn byte_sum(data: Seq<u8>) -> int
    decreases data.len(),
{
    if data.len() == 0 {
        0
    } else {
        byte_sum(data.drop_last()) + data.last()
    }
}

/// Checksum of an image buffer: the sum of its bytes modulo 2^64.
pub fn image_checksum(data: &[u8]) -> (r: u64)
    ensures
        r == byte_sum(data@) % 0x1_0000_0000_0000_0000,
{
    let mut acc: u64 = 0;
    let mut i: usize = 0;
    while i < data.len()
        invariant
            i <= data@.len(),
            acc == byte_sum(data@.take(i as int)) % 0x1_0000_0000_0000_0000,
        decreases data@.len() - i,
    {
        proof {
            assert(data@.take(i + 1).drop_last() =~= data@.take(i as int));
        }
        acc = acc.wrapping_add(data[i] as u64);
        i += 1;
    }
    proof {
        assert(data@.take(data@.len() as int) =~= data@);
    }
    acc
}

/// Byte `c` of an output pixel converted from the premultiplied pixel starting at `src[base]`:
/// straight-alpha color in RGBA or BGRA order, then the alpha byte.
pub open spec fn unpremultiplied_byte(src: Seq<u8>, base: int, c: int, rgba: bool) -> int {
    if c == 3 {
        src[base + 3] as int
    } else {
        let channel = if rgba {
            c
        } else {
            2 - c
        };
        unpremultiply_spec(src[base + channel] as int, src[base + 3] as int)
    }
}

/// Number of rows [`unpremultiply_into`] converts: as many as both buffers hold.
pub open spec fn converted_rows(src_len: int, row_bytes: int, dst_len: int, bytes_per_row: int) -> int {
    if src_len / row_bytes < dst_len / bytes_per_row {
        src_len / row_bytes
    } else {
        dst_len / bytes_per_row
    }
}

/// Whether [`unpremultiply_into`] accepts a destination of `dst_len` bytes with the given stride.
pub open spec fn unpremultiply_accepts(width: int, height: int, dst_len: int, bytes_per_row: int) -> bool {
    &&& bytes_per_row * height <= usize::MAX
    &&& dst_len >= bytes_per_row * height
    &&& bytes_per_row >= width * 4
}

/// Law: a destination that is accepted stays accepted when it is larger: only the bytes of the
/// converted rows must fit, and spare bytes after them are no reason to refuse.
pub proof fn law_unpremultiply_accepts_larger_destinations(
    width: int,
    height: int,
    bytes_per_row: int,
    dst_len: int,
    extra: int,
)
    requires
        unpremultiply_accepts(width, height, dst_len, bytes_per_row),
        extra >= 0,
    ensures
        unpremultiply_accepts(width, height, dst_len + extra, bytes_per_row),
{
}

/// Law: a destination is accepted exactly when one of `bytes_per_row * height` bytes (the rows to
/// fill) would be, and it holds at least that many bytes.
pub proof fn law_unpremultiply_needs_room_for_the_rows(
    width: int,
    height: int,
    bytes_per_row: int,
    dst_len: int,
)
    requires
        0 <= width,
        0 <= height,
        0 <= bytes_per_row,
    ensures
        unpremultiply_accepts(width, height, dst_len, bytes_per_row) <==> (unpremultiply_accepts(
            width,
            height,
            bytes_per_row * height,
            bytes_per_row,
        ) && dst_len >= bytes_per_row * height),
{
}

/// Convert a tightly packed premultiplied RGBA8 image of `width` pixels per row into straight
/// alpha rows of `bytes_per_row` bytes in `dst`, in RGBA or BGRA channel order.
///
/// Returns `None` (leaving `dst` untouched) when `dst` cannot hold `height` rows of that stride,
/// or the stride is shorter than a row. Otherwise every row present in both buffers is written;
/// bytes past the end of each destination row are left unchanged.
pub fn unpremultiply_into(
    src: &[u8],
    width: usize,
    height: usize,
    dst: &mut [u8],
    bytes_per_row: usize,
    rgba: bool,
) -> (r: Option<()>)
    requires
        0 < width,
        width * 4 <= usize::MAX,
    ensures
        final(dst)@.len() == old(dst)@.len(),
        r is Some <==> unpremultiply_accepts(
            width as int,
            height as int,
            old(dst)@.len() as int,
            bytes_per_row as int,
        ),
        r is None ==> final(dst)@ == old(dst)@,
        r is Some ==> forall|i: int|
            0 <= i < old(dst)@.len() ==> #[trigger] final(dst)@[i] == if i / (bytes_per_row as int)
                < converted_rows(
                src@.len() as int,
                width * 4,
                old(dst)@.len() as int,
                bytes_per_row as int,
            ) && i % (bytes_per_row as int) < width * 4 {
                unpremultiplied_byte(
                    src@,
                    (i / (bytes_per_row as int)) * (width * 4) + (i % (bytes_per_row as int)) - (i
                        % (bytes_per_row as int)) % 4,
                    (i % (bytes_per_row as int)) % 4,
                    rgba,
                ) as u8
            } else {
                old(dst)@[i]
            },
{
    let row_bytes = width * 4;
    let needed = bytes_per_row.checked_mul(height);
    let needed = match needed {
        Some(n) => n,
        None => {
            return None;
        },
    };
    if dst.len() < needed || bytes_per_row < row_bytes {
        return None;
    }
    let ghost initial = dst@;
    let src_len = src.len();
    let dst_len = dst.len();
    let rows = if src_len / row_bytes < dst_len / bytes_per_row {
        src_len / row_bytes
    } else {
        dst_len / bytes_per_row
    };
    proof {
        vstd::arithmetic::mul::lemma_mul_inequality(rows as int, (dst_len / bytes_per_row) as int, bytes_per_row as int);
        vstd::arithmetic::div_mod::lemma_fundamental_div_mod(dst_len as int, bytes_per_row as int);
        vstd::arithmetic::mul::lemma_mul_inequality(rows as int, (src_len / row_bytes) as int, row_bytes as int);
        vstd::arithmetic::div_mod::lemma_fundamental_div_mod(src_len as int, row_bytes as int);
        vstd::arithmetic::mul::lemma_mul_is_commutative(rows as int, bytes_per_row as int);
        vstd::arithmetic::mul::lemma_mul_is_commutative(rows as int, row_bytes as int);
    }
    let mut y: usize = 0;
    while y < rows
        invariant
            0 < row_bytes <= bytes_per_row,
            row_bytes == width * 4,
            src_len == src@.len(),
            dst_len == initial.len(),
            dst@.len() == initial.len(),
            rows == converted_rows(src@.len() as int, row_bytes as int, initial.len() as int, bytes_per_row as int),
            rows * bytes_per_row <= dst_len,
            rows * row_bytes <= src_len,
            y <= rows,
            forall|i: int|
                0 <= i < initial.len() ==> #[trigger] dst@[i] == if i / (bytes_per_row as int) < y
                    && i % (bytes_per_row as int) < row_bytes {
                    unpremultiplied_byte(
                        src@,
                        (i / (bytes_per_row as int)) * (row_bytes as int) + (i % (bytes_per_row as int))
                            - (i % (bytes_per_row as int)) % 4,
                        (i % (bytes_per_row as int)) % 4,
                        rgba,
                    ) as u8
                } else {
                    initial[i]
                },
        decreases rows - y,
    {
        proof {
            lemma_cell_in_rows(y as int, 0, bytes_per_row as int, rows as int);
            lemma_cell_in_rows(y as int, 0, row_bytes as int, rows as int);
        }
        let dst_row = y * bytes_per_row;
        let src_row = y * row_bytes;
        let mut k: usize = 0;
        while k < row_bytes
            invariant
                0 < row_bytes <= bytes_per_row,
                row_bytes == width * 4,
                src_len == src@.len(),
                dst_len == initial.len(),
                dst@.len() == initial.len(),
                y < rows,
                dst_row == y * bytes_per_row,
                src_row == y * row_bytes,
                dst_row + bytes_per_row <= dst_len,
                src_row + row_bytes <= src_len,
                k <= row_bytes,
                forall|i: int|
                    0 <= i < initial.len() ==> #[trigger] dst@[i] == if (i / (bytes_per_row as int)
                        < y || (i / (bytes_per_row as int) == y && i % (bytes_per_row as int) < k))
                        && i % (bytes_per_row as int) < row_bytes {
                        unpremultiplied_byte(
                            src@,
                            (i / (bytes_per_row as int)) * (row_bytes as int) + (i % (
                            bytes_per_row as int)) - (i % (bytes_per_row as int)) % 4,
                            (i % (bytes_per_row as int)) % 4,
                            rgba,
                        ) as u8
                    } else {
                        initial[i]
                    },
            decreases row_bytes - k,
        {
            let c = k % 4;
            let base = src_row + (k - c);
            assert(base + 3 < src_len);
            let alpha = src[base + 3];
            let value = if c == 3 {
                alpha
            } else {
                let channel = if rgba {
                    c
                } else {
                    2 - c
                };
                unpremultiply_channel(src[base + channel], alpha)
            };
            let ghost before = dst@;
            let j = dst_row + k;
            dst[j] = value;
            proof {
                lemma_cell_index(y as int, k as int, bytes_per_row as int);
                assert forall|i: int| 0 <= i < initial.len() implies #[trigger] dst@[i] == if (i
                    / (bytes_per_row as int) < y || (i / (bytes_per_row as int) == y && i % (
                    bytes_per_row as int) < k + 1)) && i % (bytes_per_row as int) < row_bytes {
                    unpremultiplied_byte(
                        src@,
                        (i / (bytes_per_row as int)) * (row_bytes as int) + (i % (
                        bytes_per_row as int)) - (i % (bytes_per_row as int)) % 4,
                        (i % (bytes_per_row as int)) % 4,
                        rgba,
                    ) as u8
                } else {
                    initial[i]
                } by {
                    if i != j {
                        lemma_index_split(i, bytes_per_row as int);
                        assert(before[i] == dst@[i]);
                    }
                }
            }
            k += 1;
        }
        y += 1;
    }
    Some(())
}

/// Whether byte `i` of an RGBA8 image `target_width` pixels wide lies in the pixel rectangle at
/// (`origin_x`, `origin_y`) of `width` by `height` pixels.
pub open spec fn in_region(
    i: int,
    target_width: int,
    origin_x: int,
    origin_y: int,
    width: int,
    height: int,
) -> bool {
    let px = (i / 4) % target_width;
    let py = (i / 4) / target_width;
    origin_x <= px < origin_x + width && origin_y <= py < origin_y + height
}

/// Coverage byte for target byte `i` inside the rectangle: coverage is stored row by row,
/// `width` bytes per row.
pub open spec fn region_coverage(
    coverage: Seq<u8>,
    i: int,
    target_width: int,
    origin_x: int,
    origin_y: int,
    width: int,
) -> int {
    let px = (i / 4) % target_width;
    let py = (i / 4) / target_width;
    coverage[(py - origin_y) * width + (px - origin_x)] as int
}

/// Multiply the pixels of a rectangle of a premultiplied RGBA8 image by per-pixel coverage.
///
/// Every byte of a pixel inside the rectangle is scaled by that pixel's coverage (a coverage of
/// 255 leaves it as it is); bytes outside the rectangle are unchanged.
pub fn apply_group_mask(
    target: &mut [u8],
    target_width: usize,
    coverage: &[u8],
    origin_x: usize,
    origin_y: usize,
    width: usize,
    height: usize,
)
    requires
        origin_x + width <= target_width,
        (origin_y + height) * target_width * 4 <= old(target)@.len(),
        height * width <= coverage@.len(),
    ensures
        final(target)@.len() == old(target)@.len(),
        forall|i: int|
            0 <= i < old(target)@.len() ==> #[trigger] final(target)@[i] == if in_region(
                i,
                target_width as int,
                origin_x as int,
                origin_y as int,
                width as int,
                height as int,
            ) {
                mul_div_255_spec(
                    old(target)@[i] as int,
                    region_coverage(
                        coverage@,
                        i,
                        target_width as int,
                        origin_x as int,
                        origin_y as int,
                        width as int,
                    ),
                ) as u8
            } else {
                old(target)@[i]
            },
{
    let ghost initial = target@;
    let ghost tw = target_width as int;
    let ghost ox = origin_x as int;
    let ghost oy = origin_y as int;
    let ghost w = width as int;
    let target_len = target.len();
    let cov_len = coverage.len();
    if width == 0 || height == 0 {
        proof {
            assert forall|i: int| 0 <= i < initial.len() implies !in_region(
                i,
                tw,
                ox,
                oy,
                w,
                height as int,
            ) by {}
        }
        return;
    }
    proof {
        assert(0 < target_width);
        assert(origin_y + height <= target_len) by (nonlinear_arith)
            requires
                (origin_y + height) * target_width * 4 <= target_len,
                target_width >= 1,
        ;
        lemma_cell_in_rows((origin_y + height - 1) as int, 0, target_width as int, (origin_y + height) as int);
    }
    let mut y: usize = 0;
    while y < height
        invariant
            0 < width,
            origin_x + width <= target_width,
            origin_y + height <= target_len,
            (origin_y + height) * target_width * 4 <= target_len,
            height * width <= cov_len,
            target_len == initial.len(),
            cov_len == coverage@.len(),
            target@.len() == initial.len(),
            tw == target_width,
            ox == origin_x,
            oy == origin_y,
            w == width,
            y <= height,
            forall|i: int|
                0 <= i < initial.len() ==> #[trigger] target@[i] == if in_region(
                    i,
                    tw,
                    ox,
                    oy,
                    w,
                    y as int,
                ) {
                    mul_div_255_spec(
                        initial[i] as int,
                        region_coverage(coverage@, i, tw, ox, oy, w),
                    ) as u8
                } else {
                    initial[i]
                },
        decreases height - y,
    {
        proof {
            lemma_cell_in_rows((origin_y + y) as int, (origin_x + width - 1) as int, target_width as int, (origin_y + height) as int);
            assert(((origin_y + y) * target_width + origin_x + width) * 4 <= (origin_y + height) * target_width * 4) by (nonlinear_arith)
                requires
                    (origin_y + y) * target_width + (origin_x + width - 1) < (origin_y + height) * target_width,
            ;
            lemma_cell_in_rows(y as int, (width - 1) as int, width as int, height as int);
        }
        let row_base = ((origin_y + y) * target_width + origin_x) * 4;
        let mask_row = y * width;
        let mut k: usize = 0;
        while k < width * 4
            invariant
                0 < width,
                origin_x + width <= target_width,
                target_len == initial.len(),
                cov_len == coverage@.len(),
                target@.len() == initial.len(),
                tw == target_width,
                ox == origin_x,
                oy == origin_y,
                w == width,
                y < height,
                row_base == ((origin_y + y) * target_width + origin_x) * 4,
                row_base + width * 4 <= target_len,
                mask_row == y * width,
                mask_row + width <= cov_len,
                k <= width * 4,
                forall|i: int|
                    0 <= i < initial.len() ==> #[trigger] target@[i] == if in_region(
                        i,
                        tw,
                        ox,
                        oy,
                        w,
                        y as int,
                    ) || (row_base <= i < row_base + k) {
                        mul_div_255_spec(
                            initial[i] as int,
                            region_coverage(coverage@, i, tw, ox, oy, w),
                        ) as u8
                    } else {
                        initial[i]
                    },
            decreases width * 4 - k,
        {
            let j = row_base + k;
            let cov = coverage[mask_row + k / 4];
            proof {
                lemma_cell_index((origin_y + y) * target_width + origin_x + k / 4, (k % 4) as int, 4);
                assert(j == ((origin_y + y) * target_width + origin_x + k / 4) * 4 + k % 4);
                lemma_cell_index((origin_y + y) as int, (origin_x + k / 4) as int, target_width as int);
                assert(!in_region(j as int, tw, ox, oy, w, y as int));
                assert(region_coverage(coverage@, j as int, tw, ox, oy, w) == cov);
            }
            if cov != 255 {
                let v = mul_div_255(target[j], cov);
                target[j] = v;
            } else {
                proof {
                    assert(mul_div_255_spec(target@[j as int] as int, 255) == target@[j as int]);
                }
            }
            k += 1;
        }
        proof {
            assert forall|i: int| 0 <= i < initial.len() implies (in_region(i, tw, ox, oy, w, (y + 1) as int) <==> (in_region(i, tw, ox, oy, w, y as int) || (row_base <= i < row_base + width * 4))) by {
                lemma_index_split(i, 4);
                lemma_index_split(i / 4, tw);
                let px = (i / 4) % tw;
                let py = (i / 4) / tw;
                if in_region(i, tw, ox, oy, w, (y + 1) as int) && py == oy + y {
                    assert(i == (py * tw + px) * 4 + i % 4);
                    assert(row_base <= i < row_base + width * 4);
                }
                if row_base <= i < row_base + width * 4 {
                    let kk = i - row_base;
                    lemma_cell_index((origin_y + y) * target_width + origin_x + kk / 4, kk % 4, 4);
                    lemma_cell_index((origin_y + y) as int, origin_x + kk / 4, target_width as int);
                }
            }
            assert forall|i: int| 0 <= i < initial.len() implies #[trigger] target@[i] == if in_region(
                i,
                tw,
                ox,
                oy,
                w,
                (y + 1) as int,
            ) {
                mul_div_255_spec(initial[i] as int, region_coverage(coverage@, i, tw, ox, oy, w)) as u8
            } else {
                initial[i]
            } by {
                assert(in_region(i, tw, ox, oy, w, (y + 1) as int) <==> (in_region(i, tw, ox, oy, w, y as int) || (row_base <= i < row_base + width * 4)));
            }
        }
        y += 1;
    }
}

/// Law: masking scales each pixel of the rectangle by its own coverage. After
/// [`apply_group_mask`] (whose result `after` meets its postcondition for `before`), every byte
/// of the pixel at column `origin_x + dx` and row `origin_y + dy` is the old byte scaled by the
/// coverage at column `dx` of row `dy` of the mask: the same offset, in the same order.
pub proof fn law_group_mask_scales_each_pixel_by_its_coverage(
    before: Seq<u8>,
    after: Seq<u8>,
    coverage: Seq<u8>,
    target_width: int,
    origin_x: int,
    origin_y: int,
    width: int,
    height: int,
    dx: int,
    dy: int,
    c: int,
)
    requires
        0 <= origin_x,
        0 <= origin_y,
        origin_x + width <= target_width,
        (origin_y + height) * target_width * 4 <= before.len(),
        height * width <= coverage.len(),
        after.len() == before.len(),
        forall|i: int|
            0 <= i < before.len() ==> #[trigger] after[i] == if in_region(
                i,
                target_width,
                origin_x,
                origin_y,
                width,
                height,
            ) {
                mul_div_255_spec(
                    before[i] as int,
                    region_coverage(coverage, i, target_width, origin_x, origin_y, width),
                ) as u8
            } else {
                before[i]
            },
        0 <= dx < width,
        0 <= dy < height,
        0 <= c < 4,
    ensures
        ({
            let i = ((origin_y + dy) * target_width + origin_x + dx) * 4 + c;
            &&& 0 <= i < before.len()
            &&& after[i] == mul_div_255_spec(before[i] as int, coverage[dy * width + dx] as int) as u8
        }),
{
    let row = origin_y + dy;
    let col = origin_x + dx;
    let p = row * target_width + col;
    let i = p * 4 + c;
    crate::grid::lemma_cell_index(row, col, target_width);
    crate::grid::lemma_cell_in_rows(row, col, target_width, origin_y + height);
    crate::grid::lemma_cell_in_rows(dy, dx, width, height);
    assert(p * 4 + c < (origin_y + height) * target_width * 4) by (nonlinear_arith)
        requires
            p < (origin_y + height) * target_width,
            0 <= c < 4,
    ;
    assert(i / 4 == p && i % 4 == c) by {
        vstd::arithmetic::div_mod::lemma_fundamental_div_mod_converse(i, 4, p, c);
    }
    assert(in_region(i, target_width, origin_x, origin_y, width, height));
    assert(after[i] == mul_div_255_spec(
        before[i] as int,
        region_coverage(coverage, i, target_width, origin_x, origin_y, width),
    ) as u8);
}


/// Law: scaling by a common factor keeps a premultiplied channel at or below its alpha.
pub proof fn law_scaling_keeps_premultiplied(channel: int, alpha: int, factor: int)
    requires
        0 <= channel <= alpha <= 255,
        0 <= factor <= 255,
    ensures
        mul_div_255_spec(channel, factor) <= mul_div_255_spec(alpha, factor),
        mul_div_255_spec(alpha, factor) <= 255,
{
    assert(channel * factor <= alpha * factor) by (nonlinear_arith)
        requires
            0 <= channel <= alpha,
            0 <= factor,
    ;
    assert(alpha * factor <= 255 * 255) by (nonlinear_arith)
        requires
            0 <= alpha <= 255,
            0 <= factor <= 255,
    ;
}

/// Law: compositing a premultiplied source byte-wise over a premultiplied destination gives a
/// premultiplied result whose alpha stays within a byte.
pub proof fn law_source_over_keeps_premultiplied(src_c: int, src_a: int, dst_c: int, dst_a: int)
    requires
        0 <= src_c <= src_a <= 255,
        0 <= dst_c <= dst_a <= 255,
    ensures
        src_c + mul_div_255_spec(dst_c, 255 - src_a) <= src_a + mul_div_255_spec(dst_a, 255 - src_a),
        src_a + mul_div_255_spec(dst_a, 255 - src_a) <= 255,
{
    law_scaling_keeps_premultiplied(dst_c, dst_a, 255 - src_a);
    let k = 255 - src_a;
    assert(dst_a * k + 127 < (k + 1) * 255) by (nonlinear_arith)
        requires
            0 <= dst_a <= 255,
            0 <= k <= 255,
    ;
    assert((dst_a * k + 127) / 255 <= k) by (nonlinear_arith)
        requires
            dst_a * k + 127 < (k + 1) * 255,
            0 <= dst_a * k + 127,
            0 <= k,
    ;
}

} // verus!
