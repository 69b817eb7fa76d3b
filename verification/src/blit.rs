//! Compositing a packed premultiplied pixmap over a target, optionally through a coverage mask.
//!
//! Pixels are words with one channel per byte and alpha in the highest byte.

use vstd::prelude::*;

use crate::pixel::{
    blend_source_over_packed, byte_of, law_scaling_keeps_premultiplied, lemma_blend_lanes,
    lemma_mul_div_255_le, lemma_pack4_bytes, lemma_scale_pixel_bits_bytes, lemma_unpack4,
    mul_div_255_spec, scale_packed_premultiplied_color, scale_pixel_bits,
};

verus! {

/// Source-over of one packed pixel, as [`blend_source_over_packed`] computes it.
pub open spec fn source_over(src: u32, dst: u32) -> u32 {
    if src >> 24u32 == 255 {
        src
    } else if src >> 24u32 == 0 {
        dst
    } else {
        (src + scale_pixel_bits(dst, (255 - (src >> 24u32)) as u32)) as u32
    }
}

/// Source-over of one packed pixel whose coverage is `coverage`: nothing changes where the
/// coverage or the source alpha is zero; otherwise the source is scaled by the coverage first.
pub open spec fn masked_source_over(src: u32, dst: u32, coverage: u8) -> u32 {
    if coverage == 0 || src >> 24u32 == 0 {
        dst
    } else {
        source_over(scale_pixel_bits(src, coverage as u32), dst)
    }
}

/// Byte `k` of the source-over of the source pixel `src`, scaled by `coverage`, onto `dst`:
/// the scaled source byte plus the target byte scaled by what the scaled source leaves uncovered.
pub open spec fn covered_over_byte(src: u32, dst: u32, coverage: u8, k: u32) -> int {
    let scaled_alpha = mul_div_255_spec(byte_of(src, 3) as int, coverage as int);
    mul_div_255_spec(byte_of(src, k) as int, coverage as int) + mul_div_255_spec(
        byte_of(dst, k) as int,
        255 - scaled_alpha,
    )
}

/// Scaling by 255 keeps a byte; scaling by 0 clears it; and a full byte over the rest stays full.
proof fn lemma_mul_div_255_ends(v: int, t: int)
    requires
        0 <= v <= 255,
        0 <= t <= 255,
    ensures
        mul_div_255_spec(v, 255) == v,
        mul_div_255_spec(v, 0) == 0,
        t + mul_div_255_spec(255, 255 - t) == 255,
{
    assert((v * 255 + 127) / 255 == v) by (nonlinear_arith)
        requires
            0 <= v <= 255,
    ;
    assert((255 * (255 - t) + 127) / 255 == 255 - t) by (nonlinear_arith)
        requires
            0 <= t <= 255,
    ;
}

/// The four bytes of a covered source-over, when the coverage and the source alpha are not zero.
proof fn lemma_covered_over_bytes(src: u32, dst: u32, coverage: u8)
    requires
        coverage > 0,
        byte_of(src, 3) > 0,
        byte_of(src, 0) <= byte_of(src, 3),
        byte_of(src, 1) <= byte_of(src, 3),
        byte_of(src, 2) <= byte_of(src, 3),
    ensures
        byte_of(masked_source_over(src, dst, coverage), 0) == covered_over_byte(src, dst, coverage, 0),
        byte_of(masked_source_over(src, dst, coverage), 1) == covered_over_byte(src, dst, coverage, 1),
        byte_of(masked_source_over(src, dst, coverage), 2) == covered_over_byte(src, dst, coverage, 2),
        byte_of(masked_source_over(src, dst, coverage), 3) == covered_over_byte(src, dst, coverage, 3),
{
    lemma_unpack4(src);
    lemma_unpack4(dst);
    let a = byte_of(src, 3);
    assert(src >> 24u32 == a) by (bit_vector)
        requires
            a == (src >> 24u32) & 0xffu32,
    ;
    let cov = coverage as u32;
    lemma_scale_pixel_bits_bytes(src, cov);
    let m0 = mul_div_255_spec(byte_of(src, 0) as int, cov as int);
    let m1 = mul_div_255_spec(byte_of(src, 1) as int, cov as int);
    let m2 = mul_div_255_spec(byte_of(src, 2) as int, cov as int);
    let m3 = mul_div_255_spec(byte_of(src, 3) as int, cov as int);
    law_scaling_keeps_premultiplied(byte_of(src, 0) as int, a as int, cov as int);
    law_scaling_keeps_premultiplied(byte_of(src, 1) as int, a as int, cov as int);
    law_scaling_keeps_premultiplied(byte_of(src, 2) as int, a as int, cov as int);
    law_scaling_keeps_premultiplied(a as int, a as int, cov as int);
    lemma_mul_div_255_le(byte_of(src, 0) as int, cov as int);
    lemma_mul_div_255_le(byte_of(src, 1) as int, cov as int);
    lemma_mul_div_255_le(byte_of(src, 2) as int, cov as int);
    lemma_mul_div_255_le(byte_of(src, 3) as int, cov as int);
    let scaled = scale_pixel_bits(src, cov);
    lemma_pack4_bytes(m0 as u32, m1 as u32, m2 as u32, m3 as u32);
    assert(masked_source_over(src, dst, coverage) == source_over(scaled, dst));
    lemma_mul_div_255_ends(byte_of(dst, 0) as int, m3);
    lemma_mul_div_255_ends(byte_of(dst, 1) as int, m3);
    lemma_mul_div_255_ends(byte_of(dst, 2) as int, m3);
    lemma_mul_div_255_ends(byte_of(dst, 3) as int, m3);
    if m3 == 255 {
    } else if m3 == 0 {
    } else {
        let f = (255 - m3) as u32;
        lemma_scale_pixel_bits_bytes(dst, f);
        lemma_blend_lanes(scaled, dst, m3 as u32, scale_pixel_bits(dst, f));
        let t0 = mul_div_255_spec(byte_of(dst, 0) as int, f as int);
        let t1 = mul_div_255_spec(byte_of(dst, 1) as int, f as int);
        let t2 = mul_div_255_spec(byte_of(dst, 2) as int, f as int);
        let t3 = mul_div_255_spec(byte_of(dst, 3) as int, f as int);
        lemma_mul_div_255_le(byte_of(dst, 0) as int, f as int);
        lemma_mul_div_255_le(byte_of(dst, 1) as int, f as int);
        lemma_mul_div_255_le(byte_of(dst, 2) as int, f as int);
        lemma_mul_div_255_le(byte_of(dst, 3) as int, f as int);
        lemma_pack4_bytes((m0 + t0) as u32, (m1 + t1) as u32, (m2 + t2) as u32, (m3 + t3) as u32);
    }
}

/// Law: a masked blit composites the coverage-scaled source over the target. Where the coverage
/// or the source alpha is zero the target pixel stays; otherwise each byte of the result is the
/// scaled source byte plus the target byte scaled by what the scaled source leaves uncovered. In
/// particular an opaque target pixel stays opaque.
pub proof fn law_masked_pixel_composites_over_target(src: u32, dst: u32, coverage: u8)
    requires
        byte_of(src, 0) <= byte_of(src, 3),
        byte_of(src, 1) <= byte_of(src, 3),
        byte_of(src, 2) <= byte_of(src, 3),
    ensures
        coverage == 0 || byte_of(src, 3) == 0 ==> masked_source_over(src, dst, coverage) == dst,
        coverage > 0 && byte_of(src, 3) > 0 ==> forall|k: u32|
            k < 4 ==> #[trigger] byte_of(masked_source_over(src, dst, coverage), k)
                == covered_over_byte(src, dst, coverage, k),
        byte_of(dst, 3) == 255 ==> byte_of(masked_source_over(src, dst, coverage), 3) == 255,
{
    lemma_unpack4(src);
    let a = byte_of(src, 3);
    assert(src >> 24u32 == a) by (bit_vector)
        requires
            a == (src >> 24u32) & 0xffu32,
    ;
    if coverage > 0 && a > 0 {
        lemma_covered_over_bytes(src, dst, coverage);
        assert forall|k: u32| k < 4 implies #[trigger] byte_of(masked_source_over(src, dst, coverage), k)
            == covered_over_byte(src, dst, coverage, k) by {
            if k == 0 {
            } else if k == 1 {
            } else if k == 2 {
            } else {
            }
        }
        let m3 = mul_div_255_spec(a as int, coverage as int);
        lemma_mul_div_255_le(a as int, coverage as int);
        lemma_mul_div_255_ends(255, m3);
    }
}

/// `v` clamped to the range of `i32`, as saturating `i32` arithmetic leaves it.
pub open spec fn saturate_i32(v: int) -> int {
    if v > i32::MAX {
        i32::MAX as int
    } else if v < i32::MIN {
        i32::MIN as int
    } else {
        v
    }
}

/// The first source column of the blit: `x0 - draw_x` in saturating `i32` arithmetic.
pub open spec fn blit_src_x0(x0: int, draw_x: int) -> int {
    saturate_i32(x0 - draw_x)
}

/// The source row that target row `dst_y` reads: `dst_y - draw_y` in saturating `i32` arithmetic.
pub open spec fn blit_src_y(dst_y: int, draw_y: int) -> int {
    saturate_i32(dst_y - draw_y)
}

/// The blit can start: `x0` is an `i32` and the first source column is not negative.
pub open spec fn blit_columns_ok(x0: int, draw_x: int) -> bool {
    x0 <= i32::MAX && blit_src_x0(x0, draw_x) >= 0
}

/// One past the last target row that the blit writes: rows are written from `y0` up, and it
/// stops at the first row that is not an `i32` or lies above the drawn pixmap.
pub open spec fn blit_rows_end(x0: int, draw_x: int, y0: int, y1: int, draw_y: int) -> int {
    if !blit_columns_ok(x0, draw_x) || y1 <= y0 || y0 < draw_y || y0 > i32::MAX {
        y0
    } else if y1 > i32::MAX + 1 {
        i32::MAX + 1
    } else {
        y1
    }
}

/// Whether the blit writes every row it was asked for.
pub open spec fn blit_succeeds(x0: int, draw_x: int, y0: int, y1: int, draw_y: int) -> bool {
    blit_columns_ok(x0, draw_x) && (y1 <= y0 || (y0 >= draw_y && y1 <= i32::MAX + 1))
}

/// `dst` after compositing `len` source pixels from `src_start` over the target pixels from
/// `dst_start`.
pub open spec fn blit_row(dst: Seq<u32>, src: Seq<u32>, src_start: int, dst_start: int, len: int) -> Seq<u32> {
    Seq::new(
        dst.len(),
        |j: int|
            if dst_start <= j < dst_start + len {
                source_over(src[src_start + (j - dst_start)], dst[j])
            } else {
                dst[j]
            },
    )
}

/// `dst` after compositing with coverage from `mask`, `len` pixels of one row.
pub open spec fn blit_row_masked(
    dst: Seq<u32>,
    src: Seq<u32>,
    mask: Seq<u8>,
    src_start: int,
    dst_start: int,
    mask_start: int,
    len: int,
) -> Seq<u32> {
    Seq::new(
        dst.len(),
        |j: int|
            if dst_start <= j < dst_start + len {
                masked_source_over(
                    src[src_start + (j - dst_start)],
                    dst[j],
                    mask[mask_start + (j - dst_start)],
                )
            } else {
                dst[j]
            },
    )
}

/// The placement of a blit: where the source rows start and how wide the buffers are.
pub struct BlitPlacement {
    /// Width of a source row in pixels.
    pub src_width: usize,
    /// Width of a target row in pixels.
    pub dst_width: usize,
    /// Target column at which the source's column 0 lands.
    pub draw_x: i32,
    /// Target row at which the source's row 0 lands.
    pub draw_y: i32,
    /// First target column written.
    pub x0: usize,
    /// One past the last target column written.
    pub x1: usize,
}

/// Index in the source of the first pixel read for target row `y`.
pub open spec fn src_row_start(pl: BlitPlacement, y: int) -> int {
    blit_src_y(y, pl.draw_y as int) * pl.src_width + blit_src_x0(pl.x0 as int, pl.draw_x as int)
}

/// Index in the target of the first pixel written in row `y`.
pub open spec fn dst_row_start(pl: BlitPlacement, y: int) -> int {
    y * pl.dst_width + pl.x0
}

/// The target after the unmasked blit has written rows `y0 <= y < y`, in order.
pub open spec fn blit_rows(dst: Seq<u32>, src: Seq<u32>, pl: BlitPlacement, y0: int, y: int) -> Seq<u32>
    decreases y - y0,
{
    if y <= y0 {
        dst
    } else {
        blit_row(
            blit_rows(dst, src, pl, y0, y - 1),
            src,
            src_row_start(pl, y - 1),
            dst_row_start(pl, y - 1),
            pl.x1 - pl.x0,
        )
    }
}

/// The target after the masked blit has written rows `y0 <= y < y`, in order; the mask has
/// `mask_width` entries per target row.
pub open spec fn blit_rows_masked(
    dst: Seq<u32>,
    src: Seq<u32>,
    mask: Seq<u8>,
    mask_width: int,
    pl: BlitPlacement,
    y0: int,
    y: int,
) -> Seq<u32>
    decreases y - y0,
{
    if y <= y0 {
        dst
    } else {
        blit_row_masked(
            blit_rows_masked(dst, src, mask, mask_width, pl, y0, y - 1),
            src,
            mask,
            src_row_start(pl, y - 1),
            dst_row_start(pl, y - 1),
            (y - 1) * mask_width + pl.x0,
            pl.x1 - pl.x0,
        )
    }
}

/// Every row that the blit writes reads and writes inside the buffers.
pub open spec fn blit_rows_fit(pl: BlitPlacement, y0: int, y1: int, src_len: int, dst_len: int) -> bool {
    forall|y: int|
        y0 <= y < blit_rows_end(pl.x0 as int, pl.draw_x as int, y0, y1, pl.draw_y as int) ==> 0
            <= #[trigger] src_row_start(pl, y) && src_row_start(pl, y) + (pl.x1 - pl.x0) <= src_len
            && dst_row_start(pl, y) + (pl.x1 - pl.x0) <= dst_len
}

/// The first source column and the source row of target row `y`, when they exist.
fn blit_src_x0_exec(x0: usize, draw_x: i32) -> (r: Option<usize>)
    ensures
        r is Some <==> blit_columns_ok(x0 as int, draw_x as int),
        r matches Some(v) ==> v == blit_src_x0(x0 as int, draw_x as int),
{
    if x0 > 0x7fff_ffffusize {
        return None;
    }
    let diff: i64 = x0 as i64 - draw_x as i64;
    if diff < 0 {
        return None;
    }
    if diff > 0x7fff_ffffi64 {
        Some(0x7fff_ffffusize)
    } else {
        Some(diff as usize)
    }
}

/// The source row read for target row `dst_y`, when `dst_y` is an `i32` and the row is not above
/// the drawn pixmap.
fn blit_src_y_exec(dst_y: usize, draw_y: i32) -> (r: Option<usize>)
    ensures
        r is Some <==> (dst_y <= i32::MAX && dst_y >= draw_y),
        r matches Some(v) ==> v == blit_src_y(dst_y as int, draw_y as int),
{
    if dst_y > 0x7fff_ffffusize {
        return None;
    }
    let diff: i64 = dst_y as i64 - draw_y as i64;
    if diff < 0 {
        return None;
    }
    if diff > 0x7fff_ffffi64 {
        Some(0x7fff_ffffusize)
    } else {
        Some(diff as usize)
    }
}

/// Composite the source rows onto target rows `y0 <= y < y1`, columns `x0 <= x < x1`, where the
/// source's origin lands at (`draw_x`, `draw_y`).
///
/// Returns `false`, with the rows before it written, at the first target row that is not an
/// `i32` or lies above the pixmap, and without writing anything when the first column is not an
/// `i32` or lies left of the pixmap.
pub fn blit_pixmap_source_over_unmasked(
    src_pixels: &[u32],
    dst_pixels: &mut [u32],
    src_width: usize,
    dst_width: usize,
    draw_x: i32,
    draw_y: i32,
    x0: usize,
    y0: usize,
    x1: usize,
    y1: usize,
) -> (r: bool)
    requires
        x0 <= x1,
        blit_rows_fit(
            BlitPlacement { src_width, dst_width, draw_x, draw_y, x0, x1 },
            y0 as int,
            y1 as int,
            src_pixels.len() as int,
            old(dst_pixels).len() as int,
        ),
    ensures
        r == blit_succeeds(x0 as int, draw_x as int, y0 as int, y1 as int, draw_y as int),
        final(dst_pixels)@ == blit_rows(
            old(dst_pixels)@,
            src_pixels@,
            BlitPlacement { src_width, dst_width, draw_x, draw_y, x0, x1 },
            y0 as int,
            blit_rows_end(x0 as int, draw_x as int, y0 as int, y1 as int, draw_y as int),
        ),
{
    let ghost pl = BlitPlacement { src_width, dst_width, draw_x, draw_y, x0, x1 };
    let ghost end = blit_rows_end(x0 as int, draw_x as int, y0 as int, y1 as int, draw_y as int);
    let row_len = x1 - x0;
    let src_x0 = match blit_src_x0_exec(x0, draw_x) {
        Some(v) => v,
        None => return false,
    };
    let mut dst_y = y0;
    while dst_y < y1
        invariant
            pl == (BlitPlacement { src_width, dst_width, draw_x, draw_y, x0, x1 }),
            end == blit_rows_end(x0 as int, draw_x as int, y0 as int, y1 as int, draw_y as int),
            blit_columns_ok(x0 as int, draw_x as int),
            src_x0 == blit_src_x0(x0 as int, draw_x as int),
            row_len == x1 - x0,
            y0 <= dst_y,
            dst_y <= y1 || dst_y == y0,
            dst_y > y0 ==> end == blit_rows_end(x0 as int, draw_x as int, y0 as int, y1 as int, draw_y as int)
                && y0 >= draw_y && dst_y <= end,
            blit_rows_fit(pl, y0 as int, y1 as int, src_pixels.len() as int, dst_pixels.len() as int),
            dst_pixels.len() == old(dst_pixels).len(),
            dst_pixels@ == blit_rows(old(dst_pixels)@, src_pixels@, pl, y0 as int, dst_y as int),
        decreases y1 - dst_y,
    {
        let src_y = match blit_src_y_exec(dst_y, draw_y) {
            Some(v) => v,
            None => {
                assert(end == dst_y);
                return false;
            },
        };
        assert(y0 <= dst_y < end);
        assert(0 <= src_row_start(pl, dst_y as int));
        let src_start = src_y * src_width + src_x0;
        let dst_start = dst_y * dst_width + x0;
        let ghost before = dst_pixels@;
        let mut i: usize = 0;
        while i < row_len
            invariant
                row_len == x1 - x0,
                src_start + row_len <= src_pixels.len(),
                dst_start + row_len <= dst_pixels.len(),
                i <= row_len,
                dst_pixels.len() == before.len(),
                forall|j: int|
                    0 <= j < dst_pixels.len() ==> dst_pixels@[j] == (if dst_start <= j < dst_start
                        + i {
                        source_over(src_pixels@[src_start + (j - dst_start)], before[j])
                    } else {
                        before[j]
                    }),
            decreases row_len - i,
        {
            let s = src_pixels[src_start + i];
            let d = dst_pixels[dst_start + i];
            let v = if s >> 24u32 == 0 {
                d
            } else if s >> 24u32 == 255 {
                s
            } else {
                blend_source_over_packed(s, d)
            };
            dst_pixels[dst_start + i] = v;
            i = i + 1;
        }
        assert(dst_pixels@ =~= blit_row(before, src_pixels@, src_start as int, dst_start as int, row_len as int));
        dst_y = dst_y + 1;
    }
    true
}

/// As [`blit_pixmap_source_over_unmasked`], with each written pixel's source first scaled by the
/// coverage that `mask` holds for its target position (`mask_width` entries per target row).
pub fn blit_pixmap_source_over_masked(
    src_pixels: &[u32],
    dst_pixels: &mut [u32],
    mask: &[u8],
    src_width: usize,
    dst_width: usize,
    mask_width: usize,
    draw_x: i32,
    draw_y: i32,
    x0: usize,
    y0: usize,
    x1: usize,
    y1: usize,
) -> (r: bool)
    requires
        x0 <= x1,
        blit_rows_fit(
            BlitPlacement { src_width, dst_width, draw_x, draw_y, x0, x1 },
            y0 as int,
            y1 as int,
            src_pixels.len() as int,
            old(dst_pixels).len() as int,
        ),
        forall|y: int|
            y0 <= y < blit_rows_end(x0 as int, draw_x as int, y0 as int, y1 as int, draw_y as int)
                ==> #[trigger] (y * mask_width) + x1 <= mask.len(),
    ensures
        r == blit_succeeds(x0 as int, draw_x as int, y0 as int, y1 as int, draw_y as int),
        final(dst_pixels)@ == blit_rows_masked(
            old(dst_pixels)@,
            src_pixels@,
            mask@,
            mask_width as int,
            BlitPlacement { src_width, dst_width, draw_x, draw_y, x0, x1 },
            y0 as int,
            blit_rows_end(x0 as int, draw_x as int, y0 as int, y1 as int, draw_y as int),
        ),
{
    let ghost pl = BlitPlacement { src_width, dst_width, draw_x, draw_y, x0, x1 };
    let ghost end = blit_rows_end(x0 as int, draw_x as int, y0 as int, y1 as int, draw_y as int);
    let row_len = x1 - x0;
    let src_x0 = match blit_src_x0_exec(x0, draw_x) {
        Some(v) => v,
        None => return false,
    };
    let mut dst_y = y0;
    while dst_y < y1
        invariant
            pl == (BlitPlacement { src_width, dst_width, draw_x, draw_y, x0, x1 }),
            end == blit_rows_end(x0 as int, draw_x as int, y0 as int, y1 as int, draw_y as int),
            blit_columns_ok(x0 as int, draw_x as int),
            src_x0 == blit_src_x0(x0 as int, draw_x as int),
            row_len == x1 - x0,
            y0 <= dst_y,
            dst_y <= y1 || dst_y == y0,
            dst_y > y0 ==> y0 >= draw_y && dst_y <= end,
            blit_rows_fit(pl, y0 as int, y1 as int, src_pixels.len() as int, dst_pixels.len() as int),
            forall|y: int| y0 <= y < end ==> #[trigger] (y * mask_width) + x1 <= mask.len(),
            dst_pixels.len() == old(dst_pixels).len(),
            dst_pixels@ == blit_rows_masked(
                old(dst_pixels)@,
                src_pixels@,
                mask@,
                mask_width as int,
                pl,
                y0 as int,
                dst_y as int,
            ),
        decreases y1 - dst_y,
    {
        let src_y = match blit_src_y_exec(dst_y, draw_y) {
            Some(v) => v,
            None => {
                assert(end == dst_y);
                return false;
            },
        };
        assert(y0 <= dst_y < end);
        assert(0 <= src_row_start(pl, dst_y as int));
        assert((dst_y * mask_width) + x1 <= mask.len());
        let src_start = src_y * src_width + src_x0;
        let dst_start = dst_y * dst_width + x0;
        let mask_start = dst_y * mask_width + x0;
        let ghost before = dst_pixels@;
        let mut i: usize = 0;
        while i < row_len
            invariant
                row_len == x1 - x0,
                src_start + row_len <= src_pixels.len(),
                dst_start + row_len <= dst_pixels.len(),
                mask_start + row_len <= mask.len(),
                i <= row_len,
                dst_pixels.len() == before.len(),
                forall|j: int|
                    0 <= j < dst_pixels.len() ==> dst_pixels@[j] == (if dst_start <= j < dst_start
                        + i {
                        masked_source_over(
                            src_pixels@[src_start + (j - dst_start)],
                            before[j],
                            mask@[mask_start + (j - dst_start)],
                        )
                    } else {
                        before[j]
                    }),
            decreases row_len - i,
        {
            let coverage = mask[mask_start + i];
            let s = src_pixels[src_start + i];
            let d = dst_pixels[dst_start + i];
            let v = if coverage == 0 || s >> 24u32 == 0 {
                d
            } else {
                let scaled = scale_packed_premultiplied_color(s, coverage as u32);
                if scaled >> 24u32 == 255 {
                    scaled
                } else {
                    blend_source_over_packed(scaled, d)
                }
            };
            dst_pixels[dst_start + i] = v;
            i = i + 1;
        }
        assert(dst_pixels@ =~= blit_row_masked(
            before,
            src_pixels@,
            mask@,
            src_start as int,
            dst_start as int,
            mask_start as int,
            row_len as int,
        ));
        dst_y = dst_y + 1;
    }
    true
}


/// Integer rectangle of a clip that is a plain device-space rectangle.
#[derive(Clone, Copy, Debug, PartialEq, Eq, Structural)]
pub struct ClipRect {
    /// Left edge.
    pub x: i32,
    /// Top edge.
    pub y: i32,
    /// Width in pixels.
    pub width: u32,
    /// Height in pixels.
    pub height: u32,
}

/// The rectangular clip of a layer, if it has one.
#[derive(Clone, Copy, Debug, PartialEq, Eq, Structural)]
pub enum SimpleClip {
    /// No rectangular clip applies.
    Absent,
    /// The clip is this integer rectangle.
    Rect(ClipRect),
    /// The clip is rectangular but has no integer rectangle.
    Unrepresentable,
}

/// The edges of a clip rectangle stay within `i32`, as an integer rectangle guarantees.
pub open spec fn clip_edges_fit(clip: SimpleClip) -> bool {
    match clip {
        SimpleClip::Rect(c) => (c.width <= i32::MAX ==> c.x + c.width <= i32::MAX) && (c.height
            <= i32::MAX ==> c.y + c.height <= i32::MAX),
        _ => true,
    }
}

/// The smaller of two integers.
pub open spec fn min_int(a: int, b: int) -> int {
    if a < b {
        a
    } else {
        b
    }
}

/// The larger of two integers.
pub open spec fn max_int(a: int, b: int) -> int {
    if a > b {
        a
    } else {
        b
    }
}

/// Target rectangle `(x0, y0, x1, y1)` that a `pw` x `ph` pixmap drawn at (`draw_x`, `draw_y`)
/// covers on a `tw` x `th` target, cut to the clip rectangle; `None` when it is empty or when a
/// size or clip edge has no `i32` value.
pub open spec fn blit_bounds_spec(
    draw_x: int,
    draw_y: int,
    pw: int,
    ph: int,
    tw: int,
    th: int,
    clip: SimpleClip,
) -> Option<(i32, i32, i32, i32)> {
    if pw > i32::MAX || ph > i32::MAX || tw > i32::MAX || th > i32::MAX {
        None
    } else {
        let x0 = max_int(draw_x, 0);
        let y0 = max_int(draw_y, 0);
        let x1 = min_int(saturate_i32(draw_x + pw), tw);
        let y1 = min_int(saturate_i32(draw_y + ph), th);
        match clip {
            SimpleClip::Absent => if x0 < x1 && y0 < y1 {
                Some((x0 as i32, y0 as i32, x1 as i32, y1 as i32))
            } else {
                None
            },
            SimpleClip::Unrepresentable => None,
            SimpleClip::Rect(c) => if c.width > i32::MAX || c.height > i32::MAX {
                None
            } else {
                let cx0 = max_int(x0, c.x as int);
                let cy0 = max_int(y0, c.y as int);
                let cx1 = min_int(x1, c.x + c.width);
                let cy1 = min_int(y1, c.y + c.height);
                if cx0 < cx1 && cy0 < cy1 {
                    Some((cx0 as i32, cy0 as i32, cx1 as i32, cy1 as i32))
                } else {
                    None
                }
            },
        }
    }
}

/// `a + b` clamped to the range of `i32`.
fn saturating_add_i32(a: i32, b: i32) -> (r: i32)
    ensures
        r == saturate_i32(a + b),
{
    let sum: i64 = a as i64 + b as i64;
    if sum > 0x7fff_ffffi64 {
        0x7fff_ffffi32
    } else if sum < -0x8000_0000i64 {
        -0x8000_0000i32
    } else {
        sum as i32
    }
}

/// The target rectangle that a blit of a `pixmap_width` x `pixmap_height` pixmap at
/// (`draw_x`, `draw_y`) writes on a `target_width` x `target_height` target under `clip`.
pub fn blit_bounds(
    draw_x: i32,
    draw_y: i32,
    pixmap_width: u32,
    pixmap_height: u32,
    target_width: u32,
    target_height: u32,
    clip: SimpleClip,
) -> (r: Option<(i32, i32, i32, i32)>)
    requires
        clip_edges_fit(clip),
    ensures
        r == blit_bounds_spec(
            draw_x as int,
            draw_y as int,
            pixmap_width as int,
            pixmap_height as int,
            target_width as int,
            target_height as int,
            clip,
        ),
{
    if pixmap_width > 0x7fff_ffffu32 || pixmap_height > 0x7fff_ffffu32 || target_width
        > 0x7fff_ffffu32 || target_height > 0x7fff_ffffu32 {
        return None;
    }
    let pw = pixmap_width as i32;
    let ph = pixmap_height as i32;
    let tw = target_width as i32;
    let th = target_height as i32;
    let mut x0: i32 = if draw_x > 0 {
        draw_x
    } else {
        0
    };
    let mut y0: i32 = if draw_y > 0 {
        draw_y
    } else {
        0
    };
    let mut x1: i32 = saturating_add_i32(draw_x, pw);
    if tw < x1 {
        x1 = tw;
    }
    let mut y1: i32 = saturating_add_i32(draw_y, ph);
    if th < y1 {
        y1 = th;
    }
    match clip {
        SimpleClip::Absent => {},
        SimpleClip::Unrepresentable => {
            return None;
        },
        SimpleClip::Rect(c) => {
            if c.x > x0 {
                x0 = c.x;
            }
            if c.y > y0 {
                y0 = c.y;
            }
            if c.width > 0x7fff_ffffu32 {
                return None;
            }
            let cx1 = c.x + c.width as i32;
            if cx1 < x1 {
                x1 = cx1;
            }
            if c.height > 0x7fff_ffffu32 {
                return None;
            }
            let cy1 = c.y + c.height as i32;
            if cy1 < y1 {
                y1 = cy1;
            }
        },
    }
    if x0 < x1 && y0 < y1 {
        Some((x0, y0, x1, y1))
    } else {
        None
    }
}


/// A row `a` of a `w`-wide grid with `h` rows, read up to column `b`, ends inside the grid.
proof fn lemma_row_fits(a: int, b: int, w: int, h: int)
    requires
        0 <= a < h,
        0 <= b <= w,
    ensures
        a * w + b <= h * w,
{
    assert(a * w + b <= h * w) by (nonlinear_arith)
        requires
            0 <= a < h,
            0 <= b <= w,
    ;
}

/// Composite a `src_width` x `src_height` pixmap at (`draw_x`, `draw_y`) over a
/// `dst_width` x `dst_height` target, inside the target's rectangular `clip` and, when `mask` is
/// given (a clip that is not a plain rectangle), through that per-pixel coverage of the target.
pub fn blit_pixmap_source_over(
    src_pixels: &[u32],
    src_width: u32,
    src_height: u32,
    dst_pixels: &mut [u32],
    dst_width: u32,
    dst_height: u32,
    clip: SimpleClip,
    mask: Option<&[u8]>,
    draw_x: i32,
    draw_y: i32,
) -> (r: bool)
    requires
        src_pixels.len() == src_width * src_height,
        old(dst_pixels).len() == dst_width * dst_height,
        mask matches Some(m) ==> m.len() == dst_width * dst_height,
        clip_edges_fit(clip),
    ensures
        r,
        match blit_bounds_spec(
            draw_x as int,
            draw_y as int,
            src_width as int,
            src_height as int,
            dst_width as int,
            dst_height as int,
            clip,
        ) {
            None => final(dst_pixels)@ == old(dst_pixels)@,
            Some((x0, y0, x1, y1)) => {
                let pl = BlitPlacement {
                    src_width: src_width as usize,
                    dst_width: dst_width as usize,
                    draw_x,
                    draw_y,
                    x0: x0 as usize,
                    x1: x1 as usize,
                };
                match mask {
                    None => final(dst_pixels)@ == blit_rows(
                        old(dst_pixels)@,
                        src_pixels@,
                        pl,
                        y0 as int,
                        y1 as int,
                    ),
                    Some(m) => final(dst_pixels)@ == blit_rows_masked(
                        old(dst_pixels)@,
                        src_pixels@,
                        m@,
                        dst_width as int,
                        pl,
                        y0 as int,
                        y1 as int,
                    ),
                }
            },
        },
{
    let bounds = blit_bounds(draw_x, draw_y, src_width, src_height, dst_width, dst_height, clip);
    let (bx0, by0, bx1, by1) = match bounds {
        None => return true,
        Some(b) => b,
    };
    let x0 = bx0 as usize;
    let y0 = by0 as usize;
    let x1 = bx1 as usize;
    let y1 = by1 as usize;
    let sw = src_width as usize;
    let dw = dst_width as usize;
    let ghost pl = BlitPlacement { src_width: sw, dst_width: dw, draw_x, draw_y, x0, x1 };
    proof {
        assert(blit_rows_end(x0 as int, draw_x as int, y0 as int, y1 as int, draw_y as int) == y1);
        assert forall|y: int| y0 <= y < y1 implies 0 <= #[trigger] src_row_start(pl, y)
            && src_row_start(pl, y) + (x1 - x0) <= src_pixels.len() && dst_row_start(pl, y) + (x1
            - x0) <= dst_pixels.len() by {
            assert(blit_src_y(y, draw_y as int) == y - draw_y);
            assert(blit_src_x0(x0 as int, draw_x as int) == x0 - draw_x);
            lemma_row_fits(y - draw_y, x1 - draw_x, sw as int, src_height as int);
            lemma_row_fits(y, x1 as int, dw as int, dst_height as int);
            assert(0 <= (y - draw_y) * sw) by (nonlinear_arith)
                requires
                    y - draw_y >= 0,
                    sw >= 0,
            ;
            vstd::arithmetic::mul::lemma_mul_is_commutative(sw as int, src_height as int);
            vstd::arithmetic::mul::lemma_mul_is_commutative(dw as int, dst_height as int);
        }
        assert(blit_rows_fit(pl, y0 as int, y1 as int, src_pixels.len() as int, dst_pixels.len() as int));
    }
    match mask {
        None => blit_pixmap_source_over_unmasked(
            src_pixels,
            dst_pixels,
            sw,
            dw,
            draw_x,
            draw_y,
            x0,
            y0,
            x1,
            y1,
        ),
        Some(m) => {
            proof {
                assert forall|y: int| y0 <= y < y1 implies #[trigger] (y * dw) + x1 <= m.len() by {
                    lemma_row_fits(y, x1 as int, dw as int, dst_height as int);
                    vstd::arithmetic::mul::lemma_mul_is_commutative(dw as int, dst_height as int);
                }
            }
            blit_pixmap_source_over_masked(
                src_pixels,
                dst_pixels,
                m,
                sw,
                dw,
                dw,
                draw_x,
                draw_y,
                x0,
                y0,
                x1,
                y1,
            )
        },
    }
}

} // verus!
