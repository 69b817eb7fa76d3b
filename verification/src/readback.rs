//! Copying GPU readback buffers, whose rows are padded, into tightly packed images.

use vstd::prelude::*;

use crate::grid::{lemma_cell_in_rows, lemma_cell_index};

verus! {

/// Failures while reading a texture back from the GPU.
#[derive(Clone, Copy, Debug, PartialEq, Eq, Structural)]
pub enum ReadbackError {
    /// Waiting for the device failed.
    DevicePoll,
    /// The buffer-mapping callback was dropped without reporting.
    CallbackDropped,
    /// Mapping the readback buffer failed.
    BufferMap,
}

/// The message a renderer reports for a readback failure.
pub fn readback_error_message(err: ReadbackError) -> (r: &'static str)
    ensures
        r@ == match err {
            ReadbackError::DevicePoll => "device poll failed"@,
            ReadbackError::CallbackDropped => "map_async callback dropped"@,
            ReadbackError::BufferMap => "buffer map failed"@,
        },
{
    match err {
        ReadbackError::DevicePoll => "device poll failed",
        ReadbackError::CallbackDropped => "map_async callback dropped",
        ReadbackError::BufferMap => "buffer map failed",
    }
}

/// Row stride of a readback buffer for RGBA8 rows of `width` pixels: the row size rounded up to
/// a multiple of 256 bytes.
pub fn padded_bytes_per_row(width: u32) -> (r: u32)
    requires
        width * 4 + 255 <= u32::MAX,
    ensures
        r == (width * 4 + 255) / 256 * 256,
        r >= width * 4,
        r < width * 4 + 256,
        r % 256 == 0,
{
    let width_bytes = width * 4;
    let rows = ((width_bytes as u64) + 255) / 256;
    (rows * 256) as u32
}

/// Copy the first `width_bytes` bytes of each `bytes_per_row`-strided row of `mapped` into the
/// consecutive `width_bytes`-long rows of `out`, for as many rows as both hold.
pub fn copy_padded_rows(mapped: &[u8], bytes_per_row: usize, out: &mut [u8], width_bytes: usize)
    requires
        0 < width_bytes <= bytes_per_row,
    ensures
        final(out)@.len() == old(out)@.len(),
        forall|y: int, x: int|
            0 <= y < copied_rows(mapped@.len() as int, bytes_per_row as int, old(out)@.len() as int, width_bytes as int)
                && 0 <= x < width_bytes ==> #[trigger] final(out)@[y * width_bytes + x]
                == mapped@[y * bytes_per_row + x],
        forall|i: int|
            copied_rows(mapped@.len() as int, bytes_per_row as int, old(out)@.len() as int, width_bytes as int) * width_bytes
                <= i < old(out)@.len() ==> #[trigger] final(out)@[i] == old(out)@[i],
{
    let rows = if mapped.len() / bytes_per_row < out.len() / width_bytes {
        mapped.len() / bytes_per_row
    } else {
        out.len() / width_bytes
    };
    let ghost initial = out@;
    let mapped_len = mapped.len();
    let out_len = out.len();
    proof {
        vstd::arithmetic::div_mod::lemma_div_is_ordered_by_denominator(out_len as int, 1, width_bytes as int);
        vstd::arithmetic::mul::lemma_mul_inequality(rows as int, (out_len / width_bytes) as int, width_bytes as int);
        vstd::arithmetic::div_mod::lemma_fundamental_div_mod(out_len as int, width_bytes as int);
        vstd::arithmetic::mul::lemma_mul_inequality(rows as int, (mapped_len / bytes_per_row) as int, bytes_per_row as int);
        vstd::arithmetic::div_mod::lemma_fundamental_div_mod(mapped_len as int, bytes_per_row as int);
        vstd::arithmetic::mul::lemma_mul_is_commutative(rows as int, width_bytes as int);
    }
    let mut y: usize = 0;
    while y < rows
        invariant
            0 < width_bytes <= bytes_per_row,
            mapped_len == mapped@.len(),
            out_len == initial.len(),
            out@.len() == initial.len(),
            rows == copied_rows(mapped@.len() as int, bytes_per_row as int, initial.len() as int, width_bytes as int),
            rows * width_bytes <= out_len,
            rows * bytes_per_row <= mapped_len,
            y <= rows,
            forall|yy: int, x: int|
                0 <= yy < y && 0 <= x < width_bytes ==> #[trigger] out@[yy * width_bytes + x]
                    == mapped@[yy * bytes_per_row + x],
            forall|i: int| y * width_bytes <= i < initial.len() ==> #[trigger] out@[i] == initial[i],
        decreases rows - y,
    {
        proof {
            lemma_cell_in_rows(y as int, 0, width_bytes as int, rows as int);
            lemma_cell_in_rows(y as int, 0, bytes_per_row as int, rows as int);
        }
        let out_row = y * width_bytes;
        let in_row = y * bytes_per_row;
        let mut x: usize = 0;
        while x < width_bytes
            invariant
                0 < width_bytes <= bytes_per_row,
                mapped_len == mapped@.len(),
                out@.len() == initial.len(),
                y < rows,
                out_row == y * width_bytes,
                in_row == y * bytes_per_row,
                out_row + width_bytes <= initial.len(),
                out_len == initial.len(),
                in_row + bytes_per_row <= mapped_len,
                x <= width_bytes,
                forall|yy: int, xx: int|
                    0 <= yy < y && 0 <= xx < width_bytes ==> #[trigger] out@[yy * width_bytes + xx]
                        == mapped@[yy * bytes_per_row + xx],
                forall|xx: int| 0 <= xx < x ==> #[trigger] out@[out_row + xx] == mapped@[in_row + xx],
                forall|i: int| out_row + x <= i < initial.len() ==> #[trigger] out@[i] == initial[i],
            decreases width_bytes - x,
        {
            let ghost before = out@;
            out[out_row + x] = mapped[in_row + x];
            proof {
                assert forall|yy: int, xx: int|
                    0 <= yy < y && 0 <= xx < width_bytes implies #[trigger] out@[yy * width_bytes
                    + xx] == mapped@[yy * bytes_per_row + xx] by {
                    lemma_cell_in_rows(yy, xx, width_bytes as int, y as int);
                    assert(before[yy * width_bytes + xx] == mapped@[yy * bytes_per_row + xx]);
                }
            }
            x += 1;
        }
        proof {
            lemma_cell_in_rows(y as int, 0, width_bytes as int, y + 1);
            assert forall|yy: int, xx: int|
                0 <= yy < y + 1 && 0 <= xx < width_bytes implies #[trigger] out@[yy * width_bytes + xx]
                == mapped@[yy * bytes_per_row + xx] by {
                if yy == y {
                    assert(out@[out_row + xx] == mapped@[in_row + xx]);
                }
            }
        }
        y += 1;
    }
}

/// Number of rows [`copy_padded_rows`] copies: as many as both buffers hold.
pub open spec fn copied_rows(mapped_len: int, bytes_per_row: int, out_len: int, width_bytes: int) -> int {
    if mapped_len / bytes_per_row < out_len / width_bytes {
        mapped_len / bytes_per_row
    } else {
        out_len / width_bytes
    }
}

/// Convert render dimensions to the `i32` sizes a raster surface takes.
pub fn checked_size_i32(width: u32, height: u32) -> (r: Result<(i32, i32), &'static str>)
    ensures
        width <= i32::MAX && height <= i32::MAX ==> r == Ok::<(i32, i32), &'static str>(
            (width as i32, height as i32),
        ),
        width > i32::MAX ==> (r matches Err(m) && m@ == "render width too large"@),
        width <= i32::MAX && height > i32::MAX ==> (r matches Err(m) && m@
            == "render height too large"@),
{
    if width > (i32::MAX as u32) {
        return Err("render width too large");
    }
    if height > (i32::MAX as u32) {
        return Err("render height too large");
    }
    Ok((width as i32, height as i32))
}

/// Convert render dimensions to the `u16` sizes a GPU scene renderer takes.
pub fn checked_size_u16(width: u32, height: u32) -> (r: Result<(u16, u16), &'static str>)
    ensures
        width <= u16::MAX && height <= u16::MAX ==> r == Ok::<(u16, u16), &'static str>(
            (width as u16, height as u16),
        ),
        width > u16::MAX ==> (r matches Err(m) && m@ == "render width too large"@),
        width <= u16::MAX && height > u16::MAX ==> (r matches Err(m) && m@
            == "render height too large"@),
{
    if width > (u16::MAX as u32) {
        return Err("render width too large");
    }
    if height > (u16::MAX as u32) {
        return Err("render height too large");
    }
    Ok((width as u16, height as u16))
}

} // verus!
