//! Which GPU texture formats the Skia GPU backends render into, and how each backend names them.

use vstd::prelude::*;

verus! {

/// Formats of a GPU texture handed to the renderer.
#[derive(Copy, Clone, Debug, PartialEq, Eq, Structural)]
pub enum GpuTextureFormat {
    /// 8-bit RGBA, linear.
    Rgba8Unorm,
    /// 8-bit RGBA, sRGB encoded.
    Rgba8UnormSrgb,
    /// 8-bit BGRA, linear.
    Bgra8Unorm,
    /// 8-bit BGRA, sRGB encoded.
    Bgra8UnormSrgb,
    /// 10-bit RGB with 2-bit alpha.
    Rgb10a2Unorm,
    /// 16-bit normalized RGBA.
    Rgba16Unorm,
    /// 16-bit float RGBA.
    Rgba16Float,
    /// Any other format.
    Other,
}

/// The texture format cannot be rendered into.
#[derive(Copy, Clone, Debug, PartialEq, Eq, Structural)]
pub enum GpuFormatError {
    /// The format is not one of the supported render-target formats.
    UnsupportedGpuTextureFormat,
}

/// Skia color types of the supported formats.
#[derive(Copy, Clone, Debug, PartialEq, Eq, Structural)]
pub enum SkColorType {
    /// `RGBA8888`.
    Rgba8888,
    /// `SRGBA8888`.
    Srgba8888,
    /// `BGRA8888`.
    Bgra8888,
    /// `RGBA1010102`.
    Rgba1010102,
    /// `R16G16B16A16UNorm`.
    R16G16B16A16Unorm,
    /// `RGBAF16`.
    RgbaF16,
}

/// DXGI formats of the supported formats.
#[derive(Copy, Clone, Debug, PartialEq, Eq, Structural)]
pub enum DxgiFormat {
    /// `DXGI_FORMAT_R8G8B8A8_UNORM`.
    R8G8B8A8Unorm,
    /// `DXGI_FORMAT_R8G8B8A8_UNORM_SRGB`.
    R8G8B8A8UnormSrgb,
    /// `DXGI_FORMAT_B8G8R8A8_UNORM`.
    B8G8R8A8Unorm,
    /// `DXGI_FORMAT_B8G8R8A8_UNORM_SRGB`.
    B8G8R8A8UnormSrgb,
    /// `DXGI_FORMAT_R10G10B10A2_UNORM`.
    R10G10B10A2Unorm,
    /// `DXGI_FORMAT_R16G16B16A16_UNORM`.
    R16G16B16A16Unorm,
    /// `DXGI_FORMAT_R16G16B16A16_FLOAT`.
    R16G16B16A16Float,
}

/// Vulkan formats of the supported formats.
#[derive(Copy, Clone, Debug, PartialEq, Eq, Structural)]
pub enum VkFormat {
    /// `R8G8B8A8_UNORM`.
    R8G8B8A8Unorm,
    /// `R8G8B8A8_SRGB`.
    R8G8B8A8Srgb,
    /// `B8G8R8A8_UNORM`.
    B8G8R8A8Unorm,
    /// `B8G8R8A8_SRGB`.
    B8G8R8A8Srgb,
    /// `A2B10G10R10_UNORM_PACK32`.
    A2B10G10R10UnormPack32,
    /// `R16G16B16A16_UNORM`.
    R16G16B16A16Unorm,
    /// `R16G16B16A16_SFLOAT`.
    R16G16B16A16Sfloat,
}

/// The formats the backends render into: 8-bit RGBA and BGRA (linear or sRGB), 10-bit RGB with
/// 2-bit alpha, and 16-bit RGBA (normalized or float).
pub open spec fn supported_format(format: GpuTextureFormat) -> bool {
    format != GpuTextureFormat::Other
}

/// Skia color type of `format`; BGRA formats share one color type.
pub fn color_type_for_texture_format(format: GpuTextureFormat) -> (r: Result<SkColorType, GpuFormatError>)
    ensures
        r is Ok <==> supported_format(format),
        r is Err ==> r == Err::<SkColorType, GpuFormatError>(GpuFormatError::UnsupportedGpuTextureFormat),
        r == match format {
            GpuTextureFormat::Rgba8Unorm => Ok(SkColorType::Rgba8888),
            GpuTextureFormat::Rgba8UnormSrgb => Ok(SkColorType::Srgba8888),
            GpuTextureFormat::Bgra8Unorm => Ok(SkColorType::Bgra8888),
            GpuTextureFormat::Bgra8UnormSrgb => Ok(SkColorType::Bgra8888),
            GpuTextureFormat::Rgb10a2Unorm => Ok(SkColorType::Rgba1010102),
            GpuTextureFormat::Rgba16Unorm => Ok(SkColorType::R16G16B16A16Unorm),
            GpuTextureFormat::Rgba16Float => Ok(SkColorType::RgbaF16),
            GpuTextureFormat::Other => Err(GpuFormatError::UnsupportedGpuTextureFormat),
        },
{
    match format {
        GpuTextureFormat::Rgba8Unorm => Ok(SkColorType::Rgba8888),
        GpuTextureFormat::Rgba8UnormSrgb => Ok(SkColorType::Srgba8888),
        GpuTextureFormat::Bgra8Unorm | GpuTextureFormat::Bgra8UnormSrgb => Ok(SkColorType::Bgra8888),
        GpuTextureFormat::Rgb10a2Unorm => Ok(SkColorType::Rgba1010102),
        GpuTextureFormat::Rgba16Unorm => Ok(SkColorType::R16G16B16A16Unorm),
        GpuTextureFormat::Rgba16Float => Ok(SkColorType::RgbaF16),
        _ => Err(GpuFormatError::UnsupportedGpuTextureFormat),
    }
}

/// Whether `format` is sRGB encoded, so that its surface gets an sRGB color space.
pub fn is_srgb_texture_format(format: GpuTextureFormat) -> (r: bool)
    ensures
        r == (format == GpuTextureFormat::Rgba8UnormSrgb || format == GpuTextureFormat::Bgra8UnormSrgb),
{
    match format {
        GpuTextureFormat::Rgba8UnormSrgb | GpuTextureFormat::Bgra8UnormSrgb => true,
        _ => false,
    }
}

/// DXGI format of `format` for the Direct3D backend.
pub fn dxgi_format_for_texture_format(format: GpuTextureFormat) -> (r: Result<DxgiFormat, GpuFormatError>)
    ensures
        r is Ok <==> supported_format(format),
        r is Err ==> r == Err::<DxgiFormat, GpuFormatError>(GpuFormatError::UnsupportedGpuTextureFormat),
        r == match format {
            GpuTextureFormat::Rgba8Unorm => Ok(DxgiFormat::R8G8B8A8Unorm),
            GpuTextureFormat::Rgba8UnormSrgb => Ok(DxgiFormat::R8G8B8A8UnormSrgb),
            GpuTextureFormat::Bgra8Unorm => Ok(DxgiFormat::B8G8R8A8Unorm),
            GpuTextureFormat::Bgra8UnormSrgb => Ok(DxgiFormat::B8G8R8A8UnormSrgb),
            GpuTextureFormat::Rgb10a2Unorm => Ok(DxgiFormat::R10G10B10A2Unorm),
            GpuTextureFormat::Rgba16Unorm => Ok(DxgiFormat::R16G16B16A16Unorm),
            GpuTextureFormat::Rgba16Float => Ok(DxgiFormat::R16G16B16A16Float),
            GpuTextureFormat::Other => Err(GpuFormatError::UnsupportedGpuTextureFormat),
        },
{
    match format {
        GpuTextureFormat::Rgba8Unorm => Ok(DxgiFormat::R8G8B8A8Unorm),
        GpuTextureFormat::Rgba8UnormSrgb => Ok(DxgiFormat::R8G8B8A8UnormSrgb),
        GpuTextureFormat::Bgra8Unorm => Ok(DxgiFormat::B8G8R8A8Unorm),
        GpuTextureFormat::Bgra8UnormSrgb => Ok(DxgiFormat::B8G8R8A8UnormSrgb),
        GpuTextureFormat::Rgb10a2Unorm => Ok(DxgiFormat::R10G10B10A2Unorm),
        GpuTextureFormat::Rgba16Unorm => Ok(DxgiFormat::R16G16B16A16Unorm),
        GpuTextureFormat::Rgba16Float => Ok(DxgiFormat::R16G16B16A16Float),
        _ => Err(GpuFormatError::UnsupportedGpuTextureFormat),
    }
}

/// Vulkan format of `format` for the Vulkan backend.
pub fn vk_format_for_texture_format(format: GpuTextureFormat) -> (r: Result<VkFormat, GpuFormatError>)
    ensures
        r is Ok <==> supported_format(format),
        r is Err ==> r == Err::<VkFormat, GpuFormatError>(GpuFormatError::UnsupportedGpuTextureFormat),
        r == match format {
            GpuTextureFormat::Rgba8Unorm => Ok(VkFormat::R8G8B8A8Unorm),
            GpuTextureFormat::Rgba8UnormSrgb => Ok(VkFormat::R8G8B8A8Srgb),
            GpuTextureFormat::Bgra8Unorm => Ok(VkFormat::B8G8R8A8Unorm),
            GpuTextureFormat::Bgra8UnormSrgb => Ok(VkFormat::B8G8R8A8Srgb),
            GpuTextureFormat::Rgb10a2Unorm => Ok(VkFormat::A2B10G10R10UnormPack32),
            GpuTextureFormat::Rgba16Unorm => Ok(VkFormat::R16G16B16A16Unorm),
            GpuTextureFormat::Rgba16Float => Ok(VkFormat::R16G16B16A16Sfloat),
            GpuTextureFormat::Other => Err(GpuFormatError::UnsupportedGpuTextureFormat),
        },
{
    match format {
        GpuTextureFormat::Rgba8Unorm => Ok(VkFormat::R8G8B8A8Unorm),
        GpuTextureFormat::Rgba8UnormSrgb => Ok(VkFormat::R8G8B8A8Srgb),
        GpuTextureFormat::Bgra8Unorm => Ok(VkFormat::B8G8R8A8Unorm),
        GpuTextureFormat::Bgra8UnormSrgb => Ok(VkFormat::B8G8R8A8Srgb),
        GpuTextureFormat::Rgb10a2Unorm => Ok(VkFormat::A2B10G10R10UnormPack32),
        GpuTextureFormat::Rgba16Unorm => Ok(VkFormat::R16G16B16A16Unorm),
        GpuTextureFormat::Rgba16Float => Ok(VkFormat::R16G16B16A16Sfloat),
        _ => Err(GpuFormatError::UnsupportedGpuTextureFormat),
    }
}

/// Size of a texture the GPU renderer draws into: only single-sampled 2D textures qualify.
pub fn checked_texture_size(is_2d: bool, sample_count: u32, width: u32, height: u32) -> (r: Result<
    (u32, u32),
    &'static str,
>)
    ensures
        !is_2d ==> (r matches Err(m) && m@ == "Skia GPU renderer only supports 2D textures"@),
        is_2d && sample_count != 1 ==> (r matches Err(m) && m@
            == "Skia GPU renderer only supports single-sampled textures"@),
        is_2d && sample_count == 1 ==> r == Ok::<(u32, u32), &'static str>((width, height)),
{
    if !is_2d {
        return Err("Skia GPU renderer only supports 2D textures");
    }
    if sample_count != 1 {
        return Err("Skia GPU renderer only supports single-sampled textures");
    }
    Ok((width, height))
}

} // verus!
