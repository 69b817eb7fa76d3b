use imaging::pixel::{
    apply_group_mask, apply_mask_to_premul_rgba, blend_source_over_packed, force_opaque,
    image_checksum, mask_coverage, mask_value, mul_div_255, mul_div_255_packed,
    scale_packed_premultiplied_color, unpremultiply_channel, unpremultiply_into,
};
use imaging::MaskMode;

fn pack(r: u8, g: u8, b: u8, a: u8) -> u32 {
    u32::from_le_bytes([r, g, b, a])
}

#[test]
fn unpremultiply_lookup_matches_exact_formula() {
    for alpha in 0..=u8::MAX {
        for channel in 0..=u8::MAX {
            let expected = if alpha == 0 {
                0
            } else if alpha == u8::MAX {
                channel
            } else {
                let value = (u32::from(channel) * 255 + u32::from(alpha) / 2) / u32::from(alpha);
                u8::try_from(value.min(u32::from(u8::MAX))).expect("fits u8")
            };
            assert_eq!(unpremultiply_channel(channel, alpha), expected);
        }
    }
}

#[test]
fn mul_div_255_rounds_to_nearest() {
    assert_eq!(mul_div_255(255, 255), 255);
    assert_eq!(mul_div_255(0, 200), 0);
    assert_eq!(mul_div_255(128, 128), 64);
    assert_eq!(mul_div_255(200, 128), 100);
    assert_eq!(mul_div_255(1, 128), 1);
    assert_eq!(mul_div_255(1, 127), 0);
}

#[test]
fn packed_lanes_match_scalar_scaling() {
    for factor in 0..=255u32 {
        for lane in 0..=255u32 {
            let other = 255 - lane;
            let packed = (other << 16) | lane;
            let r = mul_div_255_packed(packed, factor);
            assert_eq!(r & 0xff, u32::from(mul_div_255(lane as u8, factor as u8)));
            assert_eq!(r >> 16, u32::from(mul_div_255(other as u8, factor as u8)));
            assert_eq!(r & 0xff00_ff00, 0);
        }
    }
}

#[test]
fn scaling_a_pixel_scales_every_byte() {
    let p = pack(200, 100, 50, 255);
    assert_eq!(scale_packed_premultiplied_color(p, 128), pack(100, 50, 25, 128));
    assert_eq!(scale_packed_premultiplied_color(p, 255), p);
    assert_eq!(scale_packed_premultiplied_color(p, 0), 0);
}

#[test]
fn source_over_blends_premultiplied_pixels() {
    let dst = pack(0, 0, 255, 255);
    let src = pack(128, 0, 0, 128);
    assert_eq!(blend_source_over_packed(src, dst), pack(128, 0, 127, 255));
    // Opaque sources replace; transparent ones leave the destination.
    assert_eq!(blend_source_over_packed(pack(1, 2, 3, 255), dst), pack(1, 2, 3, 255));
    assert_eq!(blend_source_over_packed(pack(0, 0, 0, 0), dst), dst);
}

#[test]
fn mask_value_reads_alpha_or_luminance() {
    assert_eq!(mask_value(&[10, 20, 30, 40], MaskMode::Alpha), 40);
    assert_eq!(mask_value(&[10, 20, 30, 40], MaskMode::Luminance), 19);
    assert_eq!(mask_value(&[255, 255, 255, 255], MaskMode::Luminance), 255);
    assert_eq!(mask_value(&[0, 0, 0, 255], MaskMode::Luminance), 0);
    // Luminance reads only the color bytes.
    assert_eq!(mask_value(&[255, 255, 255], MaskMode::Luminance), 255);
    assert_eq!(mask_value(&[10, 20, 30], MaskMode::Luminance), 19);
}

#[test]
fn apply_mask_scales_content_by_mask_coverage() {
    let mut content = [200, 100, 50, 255, 10, 20, 30, 40, 7];
    let mask = [0, 0, 0, 128, 0, 0, 0, 255];
    apply_mask_to_premul_rgba(&mut content, &mask, MaskMode::Alpha);
    assert_eq!(content, [100, 50, 25, 128, 10, 20, 30, 40, 7]);

    let mut content = [200, 100, 50, 255];
    apply_mask_to_premul_rgba(&mut content, &[0, 0, 0, 0], MaskMode::Luminance);
    assert_eq!(content, [0, 0, 0, 0]);
}

#[test]
fn mask_coverage_has_one_byte_per_pixel() {
    let data = [10, 20, 30, 40, 255, 255, 255, 255, 1, 2];
    assert_eq!(mask_coverage(&data, MaskMode::Alpha), vec![40, 255]);
    assert_eq!(mask_coverage(&data, MaskMode::Luminance), vec![19, 255]);
    assert!(mask_coverage(&[1, 2, 3], MaskMode::Alpha).is_empty());
}

#[test]
fn force_opaque_sets_whole_pixel_alpha() {
    let mut data = [1, 2, 3, 4, 5, 6, 7, 8, 9];
    force_opaque(&mut data);
    assert_eq!(data, [1, 2, 3, 255, 5, 6, 7, 255, 9]);
}

#[test]
fn checksum_is_the_wrapping_byte_sum() {
    assert_eq!(image_checksum(&[]), 0);
    assert_eq!(image_checksum(&[1, 2, 3, 250]), 256);
    let big = vec![255u8; 1000];
    assert_eq!(image_checksum(&big), 255_000);
}

#[test]
fn unpremultiply_into_writes_straight_alpha_rows() {
    let src = [128, 64, 0, 128, 10, 20, 30, 255];
    let mut dst = [9u8; 10];
    assert_eq!(unpremultiply_into(&src, 1, 2, &mut dst, 5, true), Some(()));
    assert_eq!(dst, [255, 128, 0, 128, 9, 10, 20, 30, 255, 9]);

    let mut bgra = [0u8; 4];
    assert_eq!(unpremultiply_into(&src[..4], 1, 1, &mut bgra, 4, false), Some(()));
    assert_eq!(bgra, [0, 128, 255, 128]);
}

#[test]
fn unpremultiply_into_rejects_short_targets() {
    let src = [128, 64, 0, 128];
    let mut dst = [7u8; 3];
    assert_eq!(unpremultiply_into(&src, 1, 1, &mut dst, 4, true), None);
    assert_eq!(dst, [7, 7, 7]);
    let mut dst = [7u8; 8];
    assert_eq!(unpremultiply_into(&src, 1, 1, &mut dst, 3, true), None);
    assert_eq!(dst, [7u8; 8]);
}

#[test]
fn group_mask_scales_only_the_region() {
    let mut target = [200u8; 16];
    apply_group_mask(&mut target, 2, &[255, 0], 1, 0, 1, 2);
    assert_eq!(
        target,
        [200, 200, 200, 200, 200, 200, 200, 200, 200, 200, 200, 200, 0, 0, 0, 0]
    );
}

#[test]
fn scaling_and_blending_keep_pixels_premultiplied() {
    for a in 0..=255u8 {
        for c in [0, a / 3, a / 2, a] {
            for f in 0..=255u8 {
                assert!(mul_div_255(c, f) <= mul_div_255(a, f));
            }
        }
    }
    for sa in (0..=255u8).step_by(5) {
        for da in (0..=255u8).step_by(5) {
            let src = pack(sa / 2, sa, sa / 3, sa);
            let dst = pack(da, da / 2, 0, da);
            let out = blend_source_over_packed(src, dst).to_le_bytes();
            assert!(out[0] <= out[3] && out[1] <= out[3] && out[2] <= out[3]);
        }
    }
}
