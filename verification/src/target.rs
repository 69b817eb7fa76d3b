//! Caller-owned CPU pixel targets and the formats a CPU renderer can draw into directly.

use vstd::prelude::*;

use crate::record::ValidateError;

verus! {

/// Errors that can occur when rendering into a caller-owned CPU target.
#[derive(Debug)]
pub enum Error {
    /// The scene is invalid (unbalanced stacks).
    InvalidScene(ValidateError),
    /// The caller-provided buffer format is not supported by this renderer.
    UnsupportedTargetFormat,
    /// The caller-provided buffer shape is not large enough for the target dimensions.
    InvalidTargetBuffer,
    /// An internal invariant was violated.
    Internal(&'static str),
}

/// Byte channel ordering for caller-owned CPU targets.
#[derive(Clone, Copy, Debug, PartialEq, Eq, Structural)]
pub enum CpuBufferChannelOrder {
    /// RGBA8 byte order.
    Rgba8,
    /// BGRA8 byte order.
    Bgra8,
}

/// Alpha encoding for caller-owned CPU targets.
#[derive(Clone, Copy, Debug, PartialEq, Eq, Structural)]
pub enum CpuBufferAlphaMode {
    /// Output alpha is forced opaque.
    Opaque,
    /// Output bytes retain premultiplied alpha.
    Premultiplied,
}

/// Pixel format description for caller-owned CPU targets.
#[derive(Clone, Copy, Debug, PartialEq, Eq, Structural)]
pub struct CpuBufferFormat {
    /// Byte channel ordering.
    pub channel_order: CpuBufferChannelOrder,
    /// Alpha encoding.
    pub alpha_mode: CpuBufferAlphaMode,
}

impl CpuBufferFormat {
    /// Packed opaque `RGBA8`.
    pub fn rgba8_opaque() -> (r: Self)
        ensures
            r.channel_order == CpuBufferChannelOrder::Rgba8,
            r.alpha_mode == CpuBufferAlphaMode::Opaque,
    {
        Self { channel_order: CpuBufferChannelOrder::Rgba8, alpha_mode: CpuBufferAlphaMode::Opaque }
    }

    /// Packed opaque `BGRA8`.
    pub fn bgra8_opaque() -> (r: Self)
        ensures
            r.channel_order == CpuBufferChannelOrder::Bgra8,
            r.alpha_mode == CpuBufferAlphaMode::Opaque,
    {
        Self { channel_order: CpuBufferChannelOrder::Bgra8, alpha_mode: CpuBufferAlphaMode::Opaque }
    }
}

/// Metadata used to validate whether a caller-owned CPU target is supported.
#[derive(Clone, Copy, Debug)]
pub struct CpuBufferTargetInfo {
    /// Target width in pixels.
    pub width: u32,
    /// Target height in pixels.
    pub height: u32,
    /// Row stride in bytes.
    pub bytes_per_row: usize,
    /// Target pixel format.
    pub format: CpuBufferFormat,
}

/// Borrowed caller-owned CPU pixel target.
#[derive(Debug)]
pub struct CpuBufferTarget<'a> {
    /// Pixel storage.
    pub buffer: &'a mut [u8],
    /// Target width in pixels.
    pub width: u32,
    /// Target height in pixels.
    pub height: u32,
    /// Row stride in bytes.
    pub bytes_per_row: usize,
    /// Target pixel format.
    pub format: CpuBufferFormat,
}

/// A target shape the CPU renderer draws into directly: tightly packed opaque RGBA8 rows.
pub open spec fn supported_target(format: CpuBufferFormat, width: u32, bytes_per_row: usize) -> bool {
    &&& format.channel_order == CpuBufferChannelOrder::Rgba8
    &&& format.alpha_mode == CpuBufferAlphaMode::Opaque
    &&& bytes_per_row == width * 4
}

/// Widen a `u32` to `usize`.
pub fn usize_from_u32(value: u32) -> (r: usize)
    ensures
        r == value,
{
    value as usize
}

/// Validate whether the renderer can draw directly into the provided target shape: only
/// tightly packed opaque `RGBA8` rows are supported.
pub fn supports_target_info(target: &CpuBufferTargetInfo) -> (r: Result<(), Error>)
    requires
        target.width * 4 <= usize::MAX,
    ensures
        r is Ok <==> supported_target(target.format, target.width, target.bytes_per_row),
        r is Err ==> r matches Err(Error::UnsupportedTargetFormat),
{
    if target.format == CpuBufferFormat::rgba8_opaque() && target.bytes_per_row == usize_from_u32(
        target.width,
    ) * 4 {
        return Ok(());
    }
    Err(Error::UnsupportedTargetFormat)
}

} // verus!
