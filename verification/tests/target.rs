use imaging::target::{
    supports_target_info, usize_from_u32, CpuBufferAlphaMode, CpuBufferChannelOrder,
    CpuBufferFormat, CpuBufferTargetInfo, Error,
};

#[test]
fn target_renderer_supports_only_packed_rgba8_targets() {
    assert!(supports_target_info(&CpuBufferTargetInfo {
        width: 2,
        height: 2,
        bytes_per_row: 8,
        format: CpuBufferFormat::rgba8_opaque(),
    })
    .is_ok());

    assert!(supports_target_info(&CpuBufferTargetInfo {
        width: 2,
        height: 2,
        bytes_per_row: 8,
        format: CpuBufferFormat::bgra8_opaque(),
    })
    .is_err());

    assert!(supports_target_info(&CpuBufferTargetInfo {
        width: 2,
        height: 2,
        bytes_per_row: 16,
        format: CpuBufferFormat::rgba8_opaque(),
    })
    .is_err());
}

#[test]
fn premultiplied_targets_are_unsupported() {
    let r = supports_target_info(&CpuBufferTargetInfo {
        width: 3,
        height: 1,
        bytes_per_row: 12,
        format: CpuBufferFormat {
            channel_order: CpuBufferChannelOrder::Rgba8,
            alpha_mode: CpuBufferAlphaMode::Premultiplied,
        },
    });
    assert!(matches!(r, Err(Error::UnsupportedTargetFormat)));
}

#[test]
fn named_formats_have_their_fields() {
    let f = CpuBufferFormat::bgra8_opaque();
    assert_eq!(f.channel_order, CpuBufferChannelOrder::Bgra8);
    assert_eq!(f.alpha_mode, CpuBufferAlphaMode::Opaque);
    assert_eq!(usize_from_u32(7), 7);
}
