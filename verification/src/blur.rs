//! Separable box blur of premultiplied RGBA8 pixels.

use vstd::prelude::*;

use crate::grid::{lemma_cell_in_rows, lemma_cell_index, lemma_index_split};

verus! {

/// A premultiplied RGBA8 pixel.
#[derive(Clone, Copy, Debug, PartialEq, Eq, Structural)]
pub struct PremulRgba8 {
    /// Red, premultiplied by alpha.
    pub red: u8,
    /// Green, premultiplied by alpha.
    pub green: u8,
    /// Blue, premultiplied by alpha.
    pub blue: u8,
    /// Alpha.
    pub alpha: u8,
}

/// Color channels do not exceed alpha.
pub open spec fn is_premultiplied(p: PremulRgba8) -> bool {
    p.red <= p.alpha && p.green <= p.alpha && p.blue <= p.alpha
}

/// Channel `c` (0 red, 1 green, 2 blue, 3 alpha) of a pixel.
pub open spec fn channel(p: PremulRgba8, c: int) -> int {
    if c == 0 {
        p.red as int
    } else if c == 1 {
        p.green as int
    } else if c == 2 {
        p.blue as int
    } else {
        p.alpha as int
    }
}

/// Position in the pixel buffer of the `k`-th pixel of the line that starts at `start` and
/// advances by `stride`.
pub open spec fn line_index(start: int, stride: int, k: int) -> int {
    start + k * stride
}

/// Sum of channel `c` over the pixels of a line at positions `lo <= k < hi`.
pub open spec fn line_sum(src: Seq<PremulRgba8>, start: int, stride: int, lo: int, hi: int, c: int) -> int
    decreases hi - lo,
{
    if hi <= lo {
        0
    } else {
        line_sum(src, start, stride, lo, hi - 1, c) + channel(src[line_index(start, stride, hi - 1)], c)
    }
}

/// Box-filtered channel value: the window sum divided by the full window size, rounded.
pub open spec fn box_average(sum: int, window: int) -> int {
    (sum + window / 2) / window
}

/// First line position inside the window centred on `x`.
pub open spec fn window_lo(x: int, radius: int) -> int {
    if x - radius > 0 {
        x - radius
    } else {
        0
    }
}

/// One past the last line position inside the window centred on `x`, on a line of `extent`
/// pixels.
pub open spec fn window_hi(x: int, radius: int, extent: int) -> int {
    if x + radius + 1 < extent {
        x + radius + 1
    } else {
        extent
    }
}

/// Box-filtered pixel at position `x` of the line starting at `start` with `stride`, `extent`
/// pixels long: the sum of the pixels within `radius` of `x` that lie on the line, divided by the
/// full window of `2 * radius + 1` pixels and rounded to nearest.
pub open spec fn blurred_pixel(
    src: Seq<PremulRgba8>,
    start: int,
    stride: int,
    extent: int,
    radius: int,
    x: int,
) -> PremulRgba8 {
    let lo = window_lo(x, radius);
    let hi = window_hi(x, radius, extent);
    let window = 2 * radius + 1;
    PremulRgba8 {
        red: box_average(line_sum(src, start, stride, lo, hi, 0), window) as u8,
        green: box_average(line_sum(src, start, stride, lo, hi, 1), window) as u8,
        blue: box_average(line_sum(src, start, stride, lo, hi, 2), window) as u8,
        alpha: box_average(line_sum(src, start, stride, lo, hi, 3), window) as u8,
    }
}

/// Transparent black.
pub open spec fn transparent() -> PremulRgba8 {
    PremulRgba8 { red: 0, green: 0, blue: 0, alpha: 0 }
}

/// Every pixel of `s` is premultiplied.
pub open spec fn all_premultiplied(s: Seq<PremulRgba8>) -> bool {
    forall|i: int| 0 <= i < s.len() ==> is_premultiplied(#[trigger] s[i])
}

/// Pixel `i` after one box-blur pass of radius `radius` over a `width` x `height` row-major image
/// stored in `src`: unchanged for a non-positive radius; otherwise the box average along its row
/// (horizontal pass) or its column (vertical pass) inside the image, and transparent past it.
pub open spec fn box_blur_pass_pixel(
    src: Seq<PremulRgba8>,
    width: int,
    height: int,
    radius: int,
    horizontal: bool,
    i: int,
) -> PremulRgba8 {
    if radius <= 0 {
        src[i]
    } else if i < width * height {
        if horizontal {
            blurred_pixel(src, (i / width) * width, 1, width, radius, i % width)
        } else {
            blurred_pixel(src, i % width, width, height, radius, i / width)
        }
    } else {
        transparent()
    }
}

proof fn lemma_line_sum_bounds(src: Seq<PremulRgba8>, start: int, stride: int, lo: int, hi: int, c: int)
    requires
        lo <= hi,
        forall|j: int| lo <= j < hi ==> 0 <= #[trigger] line_index(start, stride, j) < src.len(),
    ensures
        0 <= line_sum(src, start, stride, lo, hi, c) <= 255 * (hi - lo),
    decreases hi - lo,
{
    if hi > lo {
        lemma_line_sum_bounds(src, start, stride, lo, hi - 1, c);
        assert(0 <= line_index(start, stride, hi - 1) < src.len());
    }
}

proof fn lemma_line_sum_premultiplied(src: Seq<PremulRgba8>, start: int, stride: int, lo: int, hi: int, c: int)
    requires
        0 <= c < 3,
        forall|j: int|
            lo <= j < hi ==> 0 <= #[trigger] line_index(start, stride, j) < src.len(),
        forall|i: int| 0 <= i < src.len() ==> is_premultiplied(#[trigger] src[i]),
    ensures
        line_sum(src, start, stride, lo, hi, c) <= line_sum(src, start, stride, lo, hi, 3),
    decreases hi - lo,
{
    if hi > lo {
        lemma_line_sum_premultiplied(src, start, stride, lo, hi - 1, c);
        assert(0 <= line_index(start, stride, hi - 1) < src.len());
        assert(is_premultiplied(src[line_index(start, stride, hi - 1)]));
    }
}

proof fn lemma_line_sum_drop_first(src: Seq<PremulRgba8>, start: int, stride: int, lo: int, hi: int, c: int)
    requires
        lo < hi,
    ensures
        line_sum(src, start, stride, lo, hi, c) == channel(src[line_index(start, stride, lo)], c) + line_sum(
            src,
            start,
            stride,
            lo + 1,
            hi,
            c,
        ),
    decreases hi - lo,
{
    if hi > lo + 1 {
        lemma_line_sum_drop_first(src, start, stride, lo, hi - 1, c);
        assert(line_sum(src, start, stride, lo + 1, hi, c) == line_sum(src, start, stride, lo + 1, hi - 1, c)
            + channel(src[line_index(start, stride, hi - 1)], c));
    } else {
        assert(hi - 1 == lo);
        assert(line_sum(src, start, stride, lo, hi - 1, c) == 0);
        assert(line_sum(src, start, stride, lo + 1, hi, c) == 0);
    }
}

/// Average four channel sums over a window of `window` pixels, rounding to nearest.
pub fn average_premultiplied_channels(sum_r: u64, sum_g: u64, sum_b: u64, sum_a: u64, window: u64) -> (r:
    PremulRgba8)
    requires
        0 < window <= u32::MAX,
        sum_a <= 255 * window,
        sum_r <= sum_a,
        sum_g <= sum_a,
        sum_b <= sum_a,
    ensures
        r.red == box_average(sum_r as int, window as int),
        r.green == box_average(sum_g as int, window as int),
        r.blue == box_average(sum_b as int, window as int),
        r.alpha == box_average(sum_a as int, window as int),
        is_premultiplied(r),
{
    proof {
        lemma_average_bounds(sum_r as int, sum_a as int, window as int);
        lemma_average_bounds(sum_g as int, sum_a as int, window as int);
        lemma_average_bounds(sum_b as int, sum_a as int, window as int);
        lemma_average_bounds(sum_a as int, sum_a as int, window as int);
    }
    let half = window / 2;
    PremulRgba8 {
        red: ((sum_r + half) / window) as u8,
        green: ((sum_g + half) / window) as u8,
        blue: ((sum_b + half) / window) as u8,
        alpha: ((sum_a + half) / window) as u8,
    }
}

proof fn lemma_average_bounds(s: int, t: int, window: int)
    requires
        window > 0,
        0 <= s <= t <= 255 * window,
    ensures
        0 <= box_average(s, window) <= box_average(t, window) <= 255,
{
    assert(box_average(s, window) <= box_average(t, window)) by (nonlinear_arith)
        requires
            window > 0,
            s <= t,
            box_average(s, window) == (s + window / 2) / window,
            box_average(t, window) == (t + window / 2) / window,
    ;
    assert(0 <= box_average(s, window)) by (nonlinear_arith)
        requires
            window > 0,
            0 <= s,
            box_average(s, window) == (s + window / 2) / window,
    ;
    assert(box_average(t, window) <= 255) by (nonlinear_arith)
        requires
            window > 0,
            t <= 255 * window,
            box_average(t, window) == (t + window / 2) / window,
    ;
}



/// The image after one box-blur pass: `box_blur_pass_pixel` at every position of `src`.
pub open spec fn pass_result(src: Seq<PremulRgba8>, width: int, height: int, radius: int, horizontal: bool) -> Seq<
    PremulRgba8,
> {
    Seq::new(src.len(), |i: int| box_blur_pass_pixel(src, width, height, radius, horizontal, i))
}

/// The image after box-blur passes with each radius of `radii` in turn, all in one direction.
pub open spec fn passes_result(
    src: Seq<PremulRgba8>,
    width: int,
    height: int,
    radii: Seq<i32>,
    horizontal: bool,
) -> Seq<PremulRgba8>
    decreases radii.len(),
{
    if radii.len() == 0 {
        src
    } else {
        pass_result(
            passes_result(src, width, height, radii.drop_last(), horizontal),
            width,
            height,
            radii.last() as int,
            horizontal,
        )
    }
}

/// Radii that a box-blur pass accepts: a positive radius keeps its window within `i32`.
pub open spec fn valid_radii(radii: Seq<i32>) -> bool {
    forall|k: int| 0 <= k < radii.len() ==> #[trigger] radii[k] > 0 ==> 2 * radii[k] + 1 <= i32::MAX
}

/// Blur one line of `extent` pixels (a row when `stride` is 1, a column otherwise) of `src` into
/// the same positions of `dst`, keeping running channel sums over a sliding window.
fn blur_line(
    src: &[PremulRgba8],
    dst: &mut Vec<PremulRgba8>,
    start: usize,
    stride: usize,
    extent: usize,
    radius: usize,
)
    requires
        radius > 0,
        stride > 0,
        extent <= i32::MAX,
        2 * radius + 1 <= i32::MAX,
        old(dst).len() == src.len(),
        forall|k: int|
            0 <= k < extent ==> #[trigger] line_index(start as int, stride as int, k) < src.len(),
        all_premultiplied(src@),
    ensures
        final(dst).len() == src.len(),
        forall|k: int|
            0 <= k < extent ==> final(dst)@[#[trigger] line_index(start as int, stride as int, k)]
                == blurred_pixel(src@, start as int, stride as int, extent as int, radius as int, k),
        forall|i: int|
            0 <= i < src.len() && (forall|k: int|
                0 <= k < extent ==> i != #[trigger] line_index(start as int, stride as int, k))
                ==> final(dst)@[i] == old(dst)@[i],
        all_premultiplied(old(dst)@) ==> all_premultiplied(final(dst)@),
{
    let ghost s = src@;
    let ghost st = start as int;
    let ghost sd = stride as int;
    let ghost ex = extent as int;
    let ghost r = radius as int;
    let window: u64 = (2 * radius + 1) as u64;
    let mut sum_r: u64 = 0;
    let mut sum_g: u64 = 0;
    let mut sum_b: u64 = 0;
    let mut sum_a: u64 = 0;
    let init_end: usize = if radius < extent {
        radius + 1
    } else {
        extent
    };
    let mut k: usize = 0;
    while k < init_end
        invariant
            s == src@,
            init_end <= extent <= i32::MAX,
            k <= init_end,
            init_end == window_hi(0, r, ex),
            forall|j: int| 0 <= j < extent ==> #[trigger] line_index(st, sd, j) < src.len(),
            st == start,
            sd == stride,
            sum_r == line_sum(s, st, sd, 0, k as int, 0),
            sum_g == line_sum(s, st, sd, 0, k as int, 1),
            sum_b == line_sum(s, st, sd, 0, k as int, 2),
            sum_a == line_sum(s, st, sd, 0, k as int, 3),
        decreases init_end - k,
    {
        proof {
            assert(line_index(st, sd, k as int) < src.len());
            lemma_line_sum_bounds(s, st, sd, 0, k as int, 0);
            lemma_line_sum_bounds(s, st, sd, 0, k as int, 1);
            lemma_line_sum_bounds(s, st, sd, 0, k as int, 2);
            lemma_line_sum_bounds(s, st, sd, 0, k as int, 3);
        }
        let px = src[start + k * stride];
        sum_r = sum_r + px.red as u64;
        sum_g = sum_g + px.green as u64;
        sum_b = sum_b + px.blue as u64;
        sum_a = sum_a + px.alpha as u64;
        k = k + 1;
    }
    let mut x: usize = 0;
    while x < extent
        invariant
            s == src@,
            st == start,
            sd == stride,
            ex == extent,
            r == radius,
            radius > 0,
            stride > 0,
            extent <= i32::MAX,
            2 * radius + 1 <= i32::MAX,
            window == 2 * radius + 1,
            x <= extent,
            dst.len() == src.len(),
            all_premultiplied(s),
            forall|j: int| 0 <= j < extent ==> #[trigger] line_index(st, sd, j) < src.len(),
            sum_r == line_sum(s, st, sd, window_lo(x as int, r), window_hi(x as int, r, ex), 0),
            sum_g == line_sum(s, st, sd, window_lo(x as int, r), window_hi(x as int, r, ex), 1),
            sum_b == line_sum(s, st, sd, window_lo(x as int, r), window_hi(x as int, r, ex), 2),
            sum_a == line_sum(s, st, sd, window_lo(x as int, r), window_hi(x as int, r, ex), 3),
            forall|j: int|
                0 <= j < x ==> dst@[#[trigger] line_index(st, sd, j)] == blurred_pixel(
                    s,
                    st,
                    sd,
                    ex,
                    r,
                    j,
                ),
            forall|i: int|
                0 <= i < src.len() && (forall|j: int|
                    0 <= j < x ==> i != #[trigger] line_index(st, sd, j)) ==> dst@[i] == old(
                    dst,
                )@[i],
            all_premultiplied(old(dst)@) ==> all_premultiplied(dst@),
        decreases extent - x,
    {
        let ghost lo = window_lo(x as int, r);
        let ghost hi = window_hi(x as int, r, ex);
        proof {
            lemma_line_sum_bounds(s, st, sd, lo, hi, 3);
            lemma_line_sum_premultiplied(s, st, sd, lo, hi, 0);
            lemma_line_sum_premultiplied(s, st, sd, lo, hi, 1);
            lemma_line_sum_premultiplied(s, st, sd, lo, hi, 2);
            lemma_line_sum_bounds(s, st, sd, lo, hi, 0);
            lemma_line_sum_bounds(s, st, sd, lo, hi, 1);
            lemma_line_sum_bounds(s, st, sd, lo, hi, 2);
            assert(255 * (hi - lo) <= 255 * window);
        }
        let p = average_premultiplied_channels(sum_r, sum_g, sum_b, sum_a, window);
        assert(p == blurred_pixel(s, st, sd, ex, r, x as int));
        proof {
            assert(line_index(st, sd, x as int) < src.len());
        }
        let idx = start + x * stride;
        let ghost before = dst@;
        dst[idx] = p;
        proof {
            assert forall|j: int| 0 <= j < x implies line_index(st, sd, j) != idx by {
                vstd::arithmetic::mul::lemma_mul_strict_inequality(j, x as int, sd);
            }
            assert forall|i: int|
                0 <= i < src.len() && (forall|j: int|
                    0 <= j < x + 1 ==> i != #[trigger] line_index(st, sd, j)) implies dst@[i]
                == old(dst)@[i] by {
                assert(i != line_index(st, sd, x as int));
                assert(dst@[i] == before[i]);
            }
        }
        if x >= radius {
            let rm = x - radius;
            proof {
                assert(line_index(st, sd, rm as int) < src.len());
                assert(lo == rm);
                lemma_line_sum_drop_first(s, st, sd, lo, hi, 0);
                lemma_line_sum_drop_first(s, st, sd, lo, hi, 1);
                lemma_line_sum_drop_first(s, st, sd, lo, hi, 2);
                lemma_line_sum_drop_first(s, st, sd, lo, hi, 3);
                lemma_line_sum_bounds(s, st, sd, lo + 1, hi, 0);
                lemma_line_sum_bounds(s, st, sd, lo + 1, hi, 1);
                lemma_line_sum_bounds(s, st, sd, lo + 1, hi, 2);
                lemma_line_sum_bounds(s, st, sd, lo + 1, hi, 3);
            }
            let px = src[start + rm * stride];
            sum_r = sum_r - px.red as u64;
            sum_g = sum_g - px.green as u64;
            sum_b = sum_b - px.blue as u64;
            sum_a = sum_a - px.alpha as u64;
        }
        let ghost lo2 = window_lo(x + 1, r);
        assert(sum_a == line_sum(s, st, sd, lo2, hi, 3));
        if x + radius + 1 < extent {
            let ad = x + radius + 1;
            proof {
                assert(line_index(st, sd, ad as int) < src.len());
                assert(hi == ad);
                lemma_line_sum_bounds(s, st, sd, lo2, hi, 0);
                lemma_line_sum_bounds(s, st, sd, lo2, hi, 1);
                lemma_line_sum_bounds(s, st, sd, lo2, hi, 2);
                lemma_line_sum_bounds(s, st, sd, lo2, hi, 3);
                assert(line_sum(s, st, sd, lo2, hi + 1, 0) == line_sum(s, st, sd, lo2, hi, 0) + channel(
                    s[line_index(st, sd, hi)],
                    0,
                ));
                assert(line_sum(s, st, sd, lo2, hi + 1, 1) == line_sum(s, st, sd, lo2, hi, 1) + channel(
                    s[line_index(st, sd, hi)],
                    1,
                ));
                assert(line_sum(s, st, sd, lo2, hi + 1, 2) == line_sum(s, st, sd, lo2, hi, 2) + channel(
                    s[line_index(st, sd, hi)],
                    2,
                ));
                assert(line_sum(s, st, sd, lo2, hi + 1, 3) == line_sum(s, st, sd, lo2, hi, 3) + channel(
                    s[line_index(st, sd, hi)],
                    3,
                ));
            }
            let px = src[start + ad * stride];
            sum_r = sum_r + px.red as u64;
            sum_g = sum_g + px.green as u64;
            sum_b = sum_b + px.blue as u64;
            sum_a = sum_a + px.alpha as u64;
        }
        x = x + 1;
    }
}


/// After blurring column `x` into `after`, the columns before `x + 1` hold their blurred pixels
/// and everything else is still transparent.
#[verifier::spinoff_prover]
#[verifier::rlimit(40)]
proof fn lemma_column_step(
    s: Seq<PremulRgba8>,
    before: Seq<PremulRgba8>,
    after: Seq<PremulRgba8>,
    w: int,
    h: int,
    radius: int,
    x: int,
)
    requires
        radius > 0,
        0 <= x < w,
        0 <= h,
        w * h <= s.len(),
        before.len() == s.len(),
        after.len() == s.len(),
        forall|i: int|
            0 <= i < s.len() ==> before[i] == (if w > 0 && i < w * h && i % w < x {
                box_blur_pass_pixel(s, w, h, radius, false, i)
            } else {
                transparent()
            }),
        forall|k: int|
            0 <= k < h ==> after[#[trigger] line_index(x, w, k)] == blurred_pixel(
                s,
                x,
                w,
                h,
                radius,
                k,
            ),
        forall|i: int|
            0 <= i < s.len() && (forall|k: int| 0 <= k < h ==> i != #[trigger] line_index(x, w, k))
                ==> after[i] == before[i],
    ensures
        forall|i: int|
            0 <= i < s.len() ==> after[i] == (if w > 0 && i < w * h && i % w < x + 1 {
                box_blur_pass_pixel(s, w, h, radius, false, i)
            } else {
                transparent()
            }),
{
    assert forall|i: int| 0 <= i < s.len() implies after[i] == (if w > 0 && i < w * h && i % w < x
        + 1 {
        box_blur_pass_pixel(s, w, h, radius, false, i)
    } else {
        transparent()
    }) by {
        lemma_index_split(i, w);
        let q = i / w;
        if i < w * h && i % w == x {
            assert(q < h) by (nonlinear_arith)
                requires
                    i == q * w + i % w,
                    0 <= i % w,
                    i < w * h,
                    w > 0,
            ;
            assert(line_index(x, w, q) == i);
        } else {
            assert forall|k: int| 0 <= k < h implies i != #[trigger] line_index(x, w, k) by {
                lemma_cell_index(k, x, w);
                lemma_cell_in_rows(k, x, w, h);
                vstd::arithmetic::mul::lemma_mul_is_commutative(w, h);
            }
        }
    }
}

/// One box-blur pass of radius `radius` over the `width` x `height` row-major image at the front of
/// `src`, along rows when `horizontal` and along columns otherwise. Positions past the image are
/// transparent in the result; a non-positive radius copies `src`.
pub fn box_blur_pass(src: &[PremulRgba8], width: usize, height: usize, radius: i32, horizontal: bool) -> (r:
    Vec<PremulRgba8>)
    requires
        all_premultiplied(src@),
        radius > 0 ==> width <= i32::MAX && height <= i32::MAX && 2 * radius + 1 <= i32::MAX
            && width * height <= src.len(),
    ensures
        r.len() == src.len(),
        forall|i: int|
            0 <= i < src.len() ==> r@[i] == box_blur_pass_pixel(
                src@,
                width as int,
                height as int,
                radius as int,
                horizontal,
                i,
            ),
        all_premultiplied(r@),
{
    if radius <= 0 {
        return vstd::slice::slice_to_vec(src);
    }
    let ghost s = src@;
    let ghost w = width as int;
    let ghost h = height as int;
    let rad: usize = radius as usize;
    let clear = PremulRgba8 { red: 0, green: 0, blue: 0, alpha: 0 };
    let mut dst: Vec<PremulRgba8> = Vec::new();
    let n = src.len();
    while dst.len() < n
        invariant
            n == src.len(),
            dst.len() <= n,
            clear == transparent(),
            forall|i: int| 0 <= i < dst.len() ==> dst@[i] == transparent(),
        decreases n - dst.len(),
    {
        dst.push(clear);
    }
    proof {
        vstd::arithmetic::mul::lemma_mul_is_commutative(w, h);
    }
    if horizontal {
        let mut y: usize = 0;
        while y < height
            invariant
                s == src@,
                w == width,
                h == height,
                rad == radius,
                radius > 0,
                width <= i32::MAX,
                2 * radius + 1 <= i32::MAX,
                width * height <= src.len(),
                height * width <= src.len(),
                all_premultiplied(s),
                y <= height,
                dst.len() == src.len(),
                all_premultiplied(dst@),
                forall|i: int|
                    0 <= i < src.len() ==> dst@[i] == (if i < y * w {
                        box_blur_pass_pixel(s, w, h, radius as int, true, i)
                    } else {
                        transparent()
                    }),
            decreases height - y,
        {
            proof {
                assert(y * w <= h * w) by (nonlinear_arith)
                    requires
                        y < h,
                        w >= 0,
                ;
                assert forall|k: int| 0 <= k < width implies #[trigger] line_index(
                    (y * w) as int,
                    1,
                    k,
                ) < src.len() by {
                    lemma_cell_in_rows(y as int, k, w, h);
                }
            }
            let row = y * width;
            let ghost before = dst@;
            blur_line(src, &mut dst, row, 1, width, rad);
            proof {
                assert forall|i: int| 0 <= i < src.len() implies dst@[i] == (if i < (y + 1) * w {
                    box_blur_pass_pixel(s, w, h, radius as int, true, i)
                } else {
                    transparent()
                }) by {
                    assert((y + 1) * w == y * w + w) by (nonlinear_arith);
                    if row <= i < row + width {
                        let k = i - row;
                        assert(line_index(row as int, 1, k) == i);
                        lemma_cell_index(y as int, k, w);
                        lemma_cell_in_rows(y as int, k, w, h);
                    } else {
                        assert forall|k: int| 0 <= k < width implies i != #[trigger] line_index(
                            row as int,
                            1,
                            k,
                        ) by {}
                        assert(dst@[i] == before[i]);
                    }
                }
            }
            y = y + 1;
        }
    } else {
        let mut x: usize = 0;
        while x < width
            invariant
                s == src@,
                w == width,
                h == height,
                rad == radius,
                radius > 0,
                height <= i32::MAX,
                2 * radius + 1 <= i32::MAX,
                width * height <= src.len(),
                height * width <= src.len(),
                all_premultiplied(s),
                x <= width,
                dst.len() == src.len(),
                all_premultiplied(dst@),
                forall|i: int|
                    0 <= i < src.len() ==> dst@[i] == (if width > 0 && i < w * h && i % w < x {
                        box_blur_pass_pixel(s, w, h, radius as int, false, i)
                    } else {
                        transparent()
                    }),
            decreases width - x,
        {
            proof {
                assert forall|k: int| 0 <= k < height implies #[trigger] line_index(
                    x as int,
                    w,
                    k,
                ) < src.len() by {
                    lemma_cell_in_rows(k, x as int, w, h);
                }
            }
            let ghost before = dst@;
            blur_line(src, &mut dst, x, width, height, rad);
            proof {
                lemma_column_step(s, before, dst@, w, h, radius as int, x as int);
            }
            x = x + 1;
        }
    }
    dst
}


/// Apply box-blur passes over the `width` x `height` image at the front of `src`: first along rows
/// with each radius of `radii_x` in turn, then along columns with each radius of `radii_y`.
pub fn blur_pixels(src: &[PremulRgba8], width: usize, height: usize, radii_x: &[i32], radii_y: &[i32]) -> (r:
    Vec<PremulRgba8>)
    requires
        all_premultiplied(src@),
        width <= i32::MAX,
        height <= i32::MAX,
        width * height <= src.len(),
        valid_radii(radii_x@),
        valid_radii(radii_y@),
    ensures
        r@ == passes_result(
            passes_result(src@, width as int, height as int, radii_x@, true),
            width as int,
            height as int,
            radii_y@,
            false,
        ),
        all_premultiplied(r@),
{
    let mut current = vstd::slice::slice_to_vec(src);
    let mut k: usize = 0;
    while k < radii_x.len()
        invariant
            k <= radii_x.len(),
            width <= i32::MAX,
            height <= i32::MAX,
            width * height <= src.len(),
            valid_radii(radii_x@),
            current.len() == src.len(),
            all_premultiplied(current@),
            current@ == passes_result(src@, width as int, height as int, radii_x@.take(k as int), true),
        decreases radii_x.len() - k,
    {
        let radius = radii_x[k];
        assert(radius > 0 ==> 2 * radius + 1 <= i32::MAX);
        let next = box_blur_pass(current.as_slice(), width, height, radius, true);
        proof {
            assert(radii_x@.take(k + 1).drop_last() == radii_x@.take(k as int));
            assert(next@ == pass_result(current@, width as int, height as int, radius as int, true));
        }
        current = next;
        k = k + 1;
    }
    assert(radii_x@.take(radii_x.len() as int) == radii_x@);
    let ghost after_x = current@;
    let mut k: usize = 0;
    while k < radii_y.len()
        invariant
            k <= radii_y.len(),
            width <= i32::MAX,
            height <= i32::MAX,
            width * height <= src.len(),
            valid_radii(radii_y@),
            current.len() == src.len(),
            all_premultiplied(current@),
            current@ == passes_result(after_x, width as int, height as int, radii_y@.take(k as int), false),
        decreases radii_y.len() - k,
    {
        let radius = radii_y[k];
        assert(radius > 0 ==> 2 * radius + 1 <= i32::MAX);
        let next = box_blur_pass(current.as_slice(), width, height, radius, false);
        proof {
            assert(radii_y@.take(k + 1).drop_last() == radii_y@.take(k as int));
            assert(next@ == pass_result(current@, width as int, height as int, radius as int, false));
        }
        current = next;
        k = k + 1;
    }
    assert(radii_y@.take(radii_y.len() as int) == radii_y@);
    current
}

/// `a` and `b` hold the same pixels in column `x` of a `width` x `height` image.
pub open spec fn same_column(a: Seq<PremulRgba8>, b: Seq<PremulRgba8>, width: int, height: int, x: int) -> bool {
    forall|k: int| 0 <= k < height ==> #[trigger] a[x + k * width] == b[x + k * width]
}

/// Line sums read only the pixels on the line within the range.
proof fn lemma_line_sum_same(
    a: Seq<PremulRgba8>,
    b: Seq<PremulRgba8>,
    start: int,
    stride: int,
    lo: int,
    hi: int,
    c: int,
)
    requires
        forall|k: int| lo <= k < hi ==> a[#[trigger] line_index(start, stride, k)] == b[line_index(start, stride, k)],
    ensures
        line_sum(a, start, stride, lo, hi, c) == line_sum(b, start, stride, lo, hi, c),
    decreases hi - lo,
{
    if hi > lo {
        lemma_line_sum_same(a, b, start, stride, lo, hi - 1, c);
        assert(a[line_index(start, stride, hi - 1)] == b[line_index(start, stride, hi - 1)]);
    }
}

/// A pixel of column `x` lies inside the image, at that column and its row.
proof fn lemma_column_cell(width: int, height: int, x: int, k: int)
    requires
        0 <= x < width,
        0 <= k < height,
    ensures
        0 <= x + k * width < width * height,
        (x + k * width) % width == x,
        (x + k * width) / width == k,
{
    crate::grid::lemma_cell_index(k, x, width);
    crate::grid::lemma_cell_in_rows(k, x, width, height);
    assert(k * width + x == x + k * width);
    vstd::arithmetic::mul::lemma_mul_is_commutative(width, height);
}

/// One pass along columns keeps column `x` apart from the others.
proof fn lemma_vertical_pass_keeps_column(
    a: Seq<PremulRgba8>,
    b: Seq<PremulRgba8>,
    width: int,
    height: int,
    radius: int,
    x: int,
)
    requires
        a.len() == b.len(),
        width * height <= a.len(),
        0 <= x < width,
        0 <= height,
        same_column(a, b, width, height, x),
    ensures
        same_column(
            pass_result(a, width, height, radius, false),
            pass_result(b, width, height, radius, false),
            width,
            height,
            x,
        ),
{
    assert forall|k: int| 0 <= k < height implies #[trigger] pass_result(a, width, height, radius, false)[x + k * width]
        == pass_result(b, width, height, radius, false)[x + k * width] by {
        lemma_column_cell(width, height, x, k);
        let i = x + k * width;
        assert(a[i] == b[i]);
        if radius > 0 {
            let lo = window_lo(k, radius);
            let hi = window_hi(k, radius, height);
            assert forall|j: int| lo <= j < hi implies a[#[trigger] line_index(x, width, j)] == b[line_index(
                x,
                width,
                j,
            )] by {
                assert(a[x + j * width] == b[x + j * width]);
            }
            lemma_line_sum_same(a, b, x, width, lo, hi, 0);
            lemma_line_sum_same(a, b, x, width, lo, hi, 1);
            lemma_line_sum_same(a, b, x, width, lo, hi, 2);
            lemma_line_sum_same(a, b, x, width, lo, hi, 3);
        }
    }
}

/// Passes keep the length of the image buffer.
proof fn lemma_passes_len(src: Seq<PremulRgba8>, width: int, height: int, radii: Seq<i32>, horizontal: bool)
    ensures
        passes_result(src, width, height, radii, horizontal).len() == src.len(),
    decreases radii.len(),
{
    if radii.len() > 0 {
        lemma_passes_len(src, width, height, radii.drop_last(), horizontal);
    }
}

/// Law: the column passes of [`blur_pixels`] blur each column on its own: two images that agree
/// on column `x` still agree on it after any sequence of column passes, whatever the other
/// columns hold.
pub proof fn law_column_passes_keep_columns_apart(
    a: Seq<PremulRgba8>,
    b: Seq<PremulRgba8>,
    width: int,
    height: int,
    radii: Seq<i32>,
    x: int,
)
    requires
        a.len() == b.len(),
        width * height <= a.len(),
        0 <= x < width,
        0 <= height,
        same_column(a, b, width, height, x),
    ensures
        same_column(
            passes_result(a, width, height, radii, false),
            passes_result(b, width, height, radii, false),
            width,
            height,
            x,
        ),
    decreases radii.len(),
{
    if radii.len() > 0 {
        law_column_passes_keep_columns_apart(a, b, width, height, radii.drop_last(), x);
        lemma_passes_len(a, width, height, radii.drop_last(), false);
        lemma_passes_len(b, width, height, radii.drop_last(), false);
        lemma_vertical_pass_keeps_column(
            passes_result(a, width, height, radii.drop_last(), false),
            passes_result(b, width, height, radii.drop_last(), false),
            width,
            height,
            radii.last() as int,
            x,
        );
    }
}

/// Law: a column pass of [`blur_pixels`] averages along the column. With a single vertical radius
/// `radius > 0`, the pixel at column `x` and row `y` becomes the box average of the pixels of
/// column `x` within `radius` rows of `y`.
pub proof fn law_column_pass_averages_the_column(
    src: Seq<PremulRgba8>,
    width: int,
    height: int,
    radius: i32,
    x: int,
    y: int,
)
    requires
        width * height <= src.len(),
        radius > 0,
        0 <= x < width,
        0 <= y < height,
    ensures
        passes_result(src, width, height, seq![radius], false)[x + y * width] == blurred_pixel(
            src,
            x,
            width,
            height,
            radius as int,
            y,
        ),
{
    lemma_column_cell(width, height, x, y);
    let radii = seq![radius];
    assert(radii.drop_last() =~= Seq::<i32>::empty());
    assert(passes_result(src, width, height, radii.drop_last(), false) == src);
}

} // verus!
