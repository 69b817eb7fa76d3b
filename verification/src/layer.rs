//! Integer pixel work of compositing layers: rectangular coverage masks (one byte per pixel) and
//! placing a local layer's pixels into a full-size RGBA8 image.

use vstd::prelude::*;

use crate::grid::{lemma_cell_in_rows, lemma_cell_index, lemma_index_split};
use crate::pixel::in_region;

verus! {

/// Mask pixel bounds `(x0, y0, x1, y1)` of the integer rectangle at (`x`, `y`) of `w` x `h`
/// pixels on a `mw` x `mh` mask: the rectangle's edges cut to the mask, with the far edges
/// converted to `usize` as they are (a far edge left of or above the mask does not stay
/// negative); `None` when no column or no row remains.
pub open spec fn mask_rect_bounds_spec(x: int, y: int, w: int, h: int, mw: int, mh: int) -> Option<
    (usize, usize, usize, usize),
> {
    let x0 = (if x > 0 {
        x
    } else {
        0
    }) as usize;
    let y0 = (if y > 0 {
        y
    } else {
        0
    }) as usize;
    let x1 = (if x + w < mw {
        x + w
    } else {
        mw
    }) as usize;
    let y1 = (if y + h < mh {
        y + h
    } else {
        mh
    }) as usize;
    if x0 < x1 && y0 < y1 {
        Some((x0, y0, x1, y1))
    } else {
        None
    }
}

/// The integer rectangle's edges fit in `i32`, as an integer rectangle guarantees, and so do
/// the mask's sizes.
pub open spec fn mask_rect_fits(x: i32, y: i32, w: u32, h: u32, mw: u32, mh: u32) -> bool {
    &&& w <= i32::MAX && h <= i32::MAX
    &&& x + w <= i32::MAX && y + h <= i32::MAX
    &&& mw <= i32::MAX && mh <= i32::MAX
}

/// Mask pixel `i` of a `mw`-wide mask lies in the rectangle `x0 <= x < x1`, `y0 <= y < y1`.
pub open spec fn in_mask_rect(i: int, mw: int, x0: int, y0: int, x1: int, y1: int) -> bool {
    x0 <= i % mw < x1 && y0 <= i / mw < y1
}

/// The bounds that the rectangle writes are inside the mask, so writing them cannot go out of
/// bounds.
pub open spec fn mask_rect_writable(x: int, y: int, w: int, h: int, mw: int, mh: int) -> bool {
    match mask_rect_bounds_spec(x, y, w, h, mw, mh) {
        Some((x0, y0, x1, y1)) => x1 <= mw && y1 <= mh,
        None => true,
    }
}

/// Mask bounds of an integer clip rectangle; see [`mask_rect_bounds_spec`].
pub fn mask_rect_bounds(x: i32, y: i32, w: u32, h: u32, mask_width: u32, mask_height: u32) -> (r:
    Option<(usize, usize, usize, usize)>)
    requires
        mask_rect_fits(x, y, w, h, mask_width, mask_height),
    ensures
        r == mask_rect_bounds_spec(
            x as int,
            y as int,
            w as int,
            h as int,
            mask_width as int,
            mask_height as int,
        ),
{
    let x0: i32 = if x > 0 {
        x
    } else {
        0
    };
    let y0: i32 = if y > 0 {
        y
    } else {
        0
    };
    let right: i32 = x + w as i32;
    let bottom: i32 = y + h as i32;
    let mwi = mask_width as i32;
    let mhi = mask_height as i32;
    let x1: i32 = if right < mwi {
        right
    } else {
        mwi
    };
    let y1: i32 = if bottom < mhi {
        bottom
    } else {
        mhi
    };
    let ux0 = x0 as usize;
    let uy0 = y0 as usize;
    let ux1 = #[verifier::truncate] (x1 as usize);
    let uy1 = #[verifier::truncate] (y1 as usize);
    if ux0 < ux1 && uy0 < uy1 {
        Some((ux0, uy0, ux1, uy1))
    } else {
        None
    }
}

/// Set `data[start..end]` to `value`.
fn fill_range(data: &mut [u8], start: usize, end: usize, value: u8)
    requires
        start <= end <= old(data)@.len(),
    ensures
        final(data)@.len() == old(data)@.len(),
        forall|i: int|
            0 <= i < old(data)@.len() ==> #[trigger] final(data)@[i] == if start <= i < end {
                value
            } else {
                old(data)@[i]
            },
{
    let ghost before = data@;
    let mut k = start;
    while k < end
        invariant
            start <= k <= end,
            end <= data@.len(),
            data@.len() == before.len(),
            forall|i: int|
                0 <= i < before.len() ==> #[trigger] data@[i] == if start <= i < k {
                    value
                } else {
                    before[i]
                },
        decreases end - k,
    {
        data[k] = value;
        k = k + 1;
    }
}

/// Row `y` of a `mw`-wide mask covers exactly the positions whose row is `y`.
proof fn lemma_row_positions(i: int, mw: int, y: int, x0: int, x1: int)
    requires
        mw > 0,
        0 <= i,
        0 <= y,
        0 <= x0 <= x1 <= mw,
    ensures
        (y * mw + x0 <= i < y * mw + x1) <==> (i / mw == y && x0 <= i % mw < x1),
{
    lemma_index_split(i, mw);
    if y * mw + x0 <= i < y * mw + x1 {
        lemma_cell_index(y, i - y * mw, mw);
    }
    if i / mw == y && x0 <= i % mw < x1 {
        assert(i == y * mw + i % mw);
    }
}

/// Write full coverage (255) into the mask pixels that the integer clip rectangle at
/// (`x`, `y`) of `w` x `h` pixels covers; the rest of the mask is unchanged.
pub fn write_mask_rect(data: &mut [u8], mask_width: u32, mask_height: u32, x: i32, y: i32, w: u32, h: u32)
    requires
        mask_rect_fits(x, y, w, h, mask_width, mask_height),
        old(data)@.len() == mask_width * mask_height,
        mask_rect_writable(
            x as int,
            y as int,
            w as int,
            h as int,
            mask_width as int,
            mask_height as int,
        ),
    ensures
        final(data)@.len() == old(data)@.len(),
        forall|i: int|
            0 <= i < old(data)@.len() ==> #[trigger] final(data)@[i] == match mask_rect_bounds_spec(
                x as int,
                y as int,
                w as int,
                h as int,
                mask_width as int,
                mask_height as int,
            ) {
                Some((x0, y0, x1, y1)) => if in_mask_rect(
                    i,
                    mask_width as int,
                    x0 as int,
                    y0 as int,
                    x1 as int,
                    y1 as int,
                ) {
                    255u8
                } else {
                    old(data)@[i]
                },
                None => old(data)@[i],
            },
{
    let bounds = mask_rect_bounds(x, y, w, h, mask_width, mask_height);
    let (x0, y0, x1, y1) = match bounds {
        None => return,
        Some(b) => b,
    };
    let ghost before = data@;
    let n = data.len();
    let mw = mask_width as usize;
    let ghost m = mw as int;
    let mut row = y0;
    while row < y1
        invariant
            n == before.len(),
            m == mw,
            mw == mask_width,
            0 <= x0 < x1 <= mw,
            y0 <= row <= y1,
            y1 <= mask_height,
            before.len() == mask_width * mask_height,
            data@.len() == before.len(),
            forall|i: int|
                0 <= i < before.len() ==> #[trigger] data@[i] == if in_mask_rect(
                    i,
                    m,
                    x0 as int,
                    y0 as int,
                    x1 as int,
                    row as int,
                ) {
                    255u8
                } else {
                    before[i]
                },
        decreases y1 - row,
    {
        proof {
            lemma_cell_in_rows(row as int, (x1 - 1) as int, m, mask_height as int);
            vstd::arithmetic::mul::lemma_mul_is_commutative(m, mask_height as int);
        }
        let start = row * mw + x0;
        let end = row * mw + x1;
        fill_range(data, start, end, 255u8);
        proof {
            assert forall|i: int| 0 <= i < before.len() implies #[trigger] data@[i] == if in_mask_rect(
                i,
                m,
                x0 as int,
                y0 as int,
                x1 as int,
                row + 1,
            ) {
                255u8
            } else {
                before[i]
            } by {
                lemma_row_positions(i, m, row as int, x0 as int, x1 as int);
            }
        }
        row = row + 1;
    }
}

/// Keep only the coverage inside the integer clip rectangle at (`x`, `y`) of `w` x `h` pixels:
/// every other mask pixel becomes 0; when the rectangle misses the mask, the whole mask does.
pub fn intersect_mask_rect(
    data: &mut [u8],
    mask_width: u32,
    mask_height: u32,
    x: i32,
    y: i32,
    w: u32,
    h: u32,
)
    requires
        mask_rect_fits(x, y, w, h, mask_width, mask_height),
        old(data)@.len() == mask_width * mask_height,
        mask_rect_writable(
            x as int,
            y as int,
            w as int,
            h as int,
            mask_width as int,
            mask_height as int,
        ),
    ensures
        final(data)@.len() == old(data)@.len(),
        forall|i: int|
            0 <= i < old(data)@.len() ==> #[trigger] final(data)@[i] == match mask_rect_bounds_spec(
                x as int,
                y as int,
                w as int,
                h as int,
                mask_width as int,
                mask_height as int,
            ) {
                Some((x0, y0, x1, y1)) => if in_mask_rect(
                    i,
                    mask_width as int,
                    x0 as int,
                    y0 as int,
                    x1 as int,
                    y1 as int,
                ) {
                    old(data)@[i]
                } else {
                    0u8
                },
                None => 0u8,
            },
{
    let n = data.len();
    let bounds = mask_rect_bounds(x, y, w, h, mask_width, mask_height);
    let (x0, y0, x1, y1) = match bounds {
        None => {
            fill_range(data, 0, n, 0u8);
            return;
        },
        Some(b) => b,
    };
    let ghost before = data@;
    let mw = mask_width as usize;
    let mh = mask_height as usize;
    let ghost m = mw as int;
    let mut row: usize = 0;
    while row < mh
        invariant
            n == before.len(),
            m == mw,
            mw == mask_width,
            mh == mask_height,
            0 <= x0 < x1 <= mw,
            y0 < y1 <= mh,
            row <= mh,
            before.len() == mask_width * mask_height,
            data@.len() == before.len(),
            forall|i: int|
                0 <= i < before.len() ==> #[trigger] data@[i] == if i / m < row && !in_mask_rect(
                    i,
                    m,
                    x0 as int,
                    y0 as int,
                    x1 as int,
                    y1 as int,
                ) {
                    0u8
                } else {
                    before[i]
                },
        decreases mh - row,
    {
        proof {
            lemma_cell_in_rows(row as int, (mw - 1) as int, m, mh as int);
            vstd::arithmetic::mul::lemma_mul_is_commutative(m, mh as int);
        }
        let base = row * mw;
        if row < y0 || row >= y1 {
            fill_range(data, base, base + mw, 0u8);
            proof {
                assert forall|i: int| 0 <= i < before.len() implies #[trigger] data@[i] == if i / m
                    < row + 1 && !in_mask_rect(i, m, x0 as int, y0 as int, x1 as int, y1 as int) {
                    0u8
                } else {
                    before[i]
                } by {
                    lemma_row_positions(i, m, row as int, 0, m);
                    lemma_index_split(i, m);
                }
            }
        } else {
            fill_range(data, base, base + x0, 0u8);
            let ghost mid = data@;
            fill_range(data, base + x1, base + mw, 0u8);
            proof {
                assert forall|i: int| 0 <= i < before.len() implies #[trigger] data@[i] == if i / m
                    < row + 1 && !in_mask_rect(i, m, x0 as int, y0 as int, x1 as int, y1 as int) {
                    0u8
                } else {
                    before[i]
                } by {
                    lemma_row_positions(i, m, row as int, 0, x0 as int);
                    lemma_row_positions(i, m, row as int, x1 as int, m);
                    lemma_row_positions(i, m, row as int, 0, m);
                    lemma_index_split(i, m);
                }
            }
        }
        row = row + 1;
    }
    proof {
        assert forall|i: int| 0 <= i < before.len() implies #[trigger] (i / m) < mh by {
            lemma_index_split(i, m);
            if i / m >= mh {
                assert((i / m) * m >= mh * m) by (nonlinear_arith)
                    requires
                        i / m >= mh,
                        m > 0,
                ;
                vstd::arithmetic::mul::lemma_mul_is_commutative(m, mh as int);
            }
        }
    }
}


/// Byte `i` of a full-size `tw`-pixel-wide RGBA8 image holding a `lw` x `lh` local layer placed
/// at (`ox`, `oy`): the layer's byte where it covers, transparent zero elsewhere.
pub open spec fn placed_byte(src: Seq<u8>, i: int, tw: int, ox: int, oy: int, lw: int, lh: int) -> u8 {
    if in_region(i, tw, ox, oy, lw, lh) {
        let px = (i / 4) % tw;
        let py = (i / 4) / tw;
        src[((py - oy) * lw + (px - ox)) * 4 + i % 4]
    } else {
        0u8
    }
}

/// Place the `local_width` x `local_height` RGBA8 pixels of a layer extracted at
/// (`origin_x`, `origin_y`) into a transparent `target_width` x `target_height` image.
pub fn place_into_full_size(
    src: &[u8],
    local_width: u32,
    local_height: u32,
    origin_x: i32,
    origin_y: i32,
    target_width: u32,
    target_height: u32,
) -> (r: Vec<u8>)
    requires
        origin_x >= 0,
        origin_y >= 0,
        src@.len() == local_width * local_height * 4,
        target_width * target_height * 4 <= usize::MAX,
        origin_x + local_width <= target_width,
        origin_y + local_height <= target_height,
    ensures
        r@.len() == target_width * target_height * 4,
        forall|i: int|
            0 <= i < r@.len() ==> #[trigger] r@[i] == placed_byte(
                src@,
                i,
                target_width as int,
                origin_x as int,
                origin_y as int,
                local_width as int,
                local_height as int,
            ),
{
    let tw = target_width as usize;
    let th = target_height as usize;
    let lw = local_width as usize;
    let lh = local_height as usize;
    let ox = origin_x as usize;
    let oy = origin_y as usize;
    let ghost s = src@;
    let ghost gtw = tw as int;
    proof {
        assert(tw * th * 4 == target_width * target_height * 4);
    }
    let total = tw * th * 4;
    let mut out: Vec<u8> = Vec::new();
    while out.len() < total
        invariant
            out@.len() <= total,
            forall|i: int| 0 <= i < out@.len() ==> out@[i] == 0u8,
        decreases total - out@.len(),
    {
        out.push(0u8);
    }
    if lw == 0 || lh == 0 {
        proof {
            assert forall|i: int| 0 <= i < out@.len() implies #[trigger] out@[i] == placed_byte(
                s,
                i,
                gtw,
                ox as int,
                oy as int,
                lw as int,
                lh as int,
            ) by {}
        }
        return out;
    }
    let sl = src.len();
    proof {
        assert(lw * 4 <= s.len()) by (nonlinear_arith)
            requires
                s.len() == lw * lh * 4,
                lh >= 1,
                lw >= 0,
        ;
        assert(tw * 4 <= total) by (nonlinear_arith)
            requires
                total == tw * th * 4,
                th >= 1,
                tw >= 0,
        ;
    }
    let ls = lw * 4;
    let ts = tw * 4;
    let mut row: usize = 0;
    while row < lh
        invariant
            s == src@,
            gtw == tw,
            tw == target_width,
            th == target_height,
            lw == local_width,
            lh == local_height,
            ox == origin_x,
            oy == origin_y,
            0 < lw,
            ls == lw * 4,
            ts == tw * 4,
            ox + lw <= tw,
            oy + lh <= th,
            total == tw * th * 4,
            s.len() == lw * lh * 4,
            out@.len() == total,
            sl == s.len(),
            row <= lh,
            forall|i: int|
                0 <= i < total ==> #[trigger] out@[i] == placed_byte(
                    s,
                    i,
                    gtw,
                    ox as int,
                    oy as int,
                    lw as int,
                    row as int,
                ),
        decreases lh - row,
    {
        proof {
            lemma_cell_in_rows((oy + row) as int, (ox + lw - 1) as int, tw as int, th as int);
            assert(((oy + row) * tw + ox + lw) * 4 <= th * tw * 4) by (nonlinear_arith)
                requires
                    (oy + row) * tw + (ox + lw - 1) < th * tw,
            ;
            vstd::arithmetic::mul::lemma_mul_is_commutative(tw as int, th as int);
            lemma_cell_in_rows(row as int, (lw - 1) as int, lw as int, lh as int);
            assert((row * lw + lw) * 4 <= lh * lw * 4) by (nonlinear_arith)
                requires
                    row * lw + (lw - 1) < lh * lw,
            ;
            vstd::arithmetic::mul::lemma_mul_is_commutative(lw as int, lh as int);
            assert(row * ls + ls <= s.len() && (oy + row) * ts + ox * 4 + ls <= total) by (
            nonlinear_arith)
                requires
                    ls == lw * 4,
                    ts == tw * 4,
                    (row * lw + lw) * 4 <= lh * lw * 4,
                    s.len() == lw * lh * 4,
                    ((oy + row) * tw + ox + lw) * 4 <= th * tw * 4,
                    total == tw * th * 4,
            ;
        }
        let src_start = row * ls;
        let dst_start = (oy + row) * ts + ox * 4;
        assert(src_start == (row * lw) * 4) by (nonlinear_arith)
            requires
                src_start == row * ls,
                ls == lw * 4,
        ;
        assert(dst_start == ((oy + row) * tw + ox) * 4) by (nonlinear_arith)
            requires
                dst_start == (oy + row) * ts + ox * 4,
                ts == tw * 4,
        ;
        let ghost before = out@;
        let mut k: usize = 0;
        while k < ls
            invariant
                s == src@,
                gtw == tw,
                tw == target_width,
                lw == local_width,
                lh == local_height,
                ox == origin_x,
                oy == origin_y,
                0 < lw,
                ls == lw * 4,
                ox + lw <= tw,
                row < lh,
                src_start == (row * lw) * 4,
                dst_start == ((oy + row) * tw + ox) * 4,
                src_start + ls <= s.len(),
                sl == s.len(),
                dst_start + ls <= total,
                out@.len() == total,
                k <= ls,
                forall|i: int|
                    0 <= i < total ==> #[trigger] out@[i] == if dst_start <= i < dst_start + k {
                        s[src_start + (i - dst_start)]
                    } else {
                        before[i]
                    },
            decreases ls - k,
        {
            out.set(dst_start + k, src[src_start + k]);
            k = k + 1;
        }
        proof {
            assert forall|i: int| 0 <= i < total implies #[trigger] out@[i] == placed_byte(
                s,
                i,
                gtw,
                ox as int,
                oy as int,
                lw as int,
                row + 1,
            ) by {
                lemma_index_split(i, 4);
                lemma_index_split(i / 4, gtw);
                let px = (i / 4) % gtw;
                let py = (i / 4) / gtw;
                if dst_start <= i < dst_start + ls {
                    let kk = i - dst_start;
                    lemma_cell_index((oy + row) * tw + ox + kk / 4, kk % 4, 4);
                    lemma_cell_index((oy + row) as int, ox + kk / 4, gtw);
                    lemma_index_split(kk, 4);
                    assert(i == ((oy + row) * tw + ox + kk / 4) * 4 + kk % 4);
                    assert(px == ox + kk / 4 && py == oy + row);
                    assert(src_start + kk == ((py - oy) * lw + (px - ox)) * 4 + i % 4) by (
                    nonlinear_arith)
                        requires
                            src_start == (row * lw) * 4,
                            py - oy == row,
                            px - ox == kk / 4,
                            kk == (kk / 4) * 4 + kk % 4,
                            i % 4 == kk % 4,
                    ;
                } else if in_region(i, gtw, ox as int, oy as int, lw as int, row + 1) && py
                    == oy + row {
                    assert(i == (py * tw + px) * 4 + i % 4);
                    assert(false);
                }
            }
        }
        row = row + 1;
    }
    out
}

} // verus!
