use imaging::gpu_format::{
    checked_texture_size, color_type_for_texture_format, dxgi_format_for_texture_format,
    is_srgb_texture_format, vk_format_for_texture_format, DxgiFormat, GpuFormatError,
    GpuTextureFormat, SkColorType, VkFormat,
};

const ALL: [GpuTextureFormat; 8] = [
    GpuTextureFormat::Rgba8Unorm,
    GpuTextureFormat::Rgba8UnormSrgb,
    GpuTextureFormat::Bgra8Unorm,
    GpuTextureFormat::Bgra8UnormSrgb,
    GpuTextureFormat::Rgb10a2Unorm,
    GpuTextureFormat::Rgba16Unorm,
    GpuTextureFormat::Rgba16Float,
    GpuTextureFormat::Other,
];

#[test]
fn every_backend_accepts_the_same_formats() {
    for f in ALL {
        let ok = color_type_for_texture_format(f).is_ok();
        assert_eq!(dxgi_format_for_texture_format(f).is_ok(), ok);
        assert_eq!(vk_format_for_texture_format(f).is_ok(), ok);
        assert_eq!(ok, f != GpuTextureFormat::Other);
    }
}

#[test]
fn formats_map_to_backend_names() {
    assert_eq!(
        color_type_for_texture_format(GpuTextureFormat::Bgra8UnormSrgb),
        Ok(SkColorType::Bgra8888)
    );
    assert_eq!(
        dxgi_format_for_texture_format(GpuTextureFormat::Rgb10a2Unorm),
        Ok(DxgiFormat::R10G10B10A2Unorm)
    );
    assert_eq!(
        vk_format_for_texture_format(GpuTextureFormat::Rgb10a2Unorm),
        Ok(VkFormat::A2B10G10R10UnormPack32)
    );
    assert_eq!(
        vk_format_for_texture_format(GpuTextureFormat::Other),
        Err(GpuFormatError::UnsupportedGpuTextureFormat)
    );
}

#[test]
fn only_srgb_formats_get_an_srgb_color_space() {
    let srgb: Vec<_> = ALL.into_iter().filter(|f| is_srgb_texture_format(*f)).collect();
    assert_eq!(
        srgb,
        vec![GpuTextureFormat::Rgba8UnormSrgb, GpuTextureFormat::Bgra8UnormSrgb]
    );
}

#[test]
fn only_single_sampled_2d_textures_are_rendered() {
    assert_eq!(checked_texture_size(true, 1, 64, 32), Ok((64, 32)));
    assert_eq!(
        checked_texture_size(false, 1, 64, 32),
        Err("Skia GPU renderer only supports 2D textures")
    );
    assert_eq!(
        checked_texture_size(true, 4, 64, 32),
        Err("Skia GPU renderer only supports single-sampled textures")
    );
}
