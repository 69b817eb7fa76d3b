use imaging::blit::{
    blit_bounds, blit_pixmap_source_over, blit_pixmap_source_over_masked,
    blit_pixmap_source_over_unmasked, ClipRect, SimpleClip,
};

fn pack(r: u8, g: u8, b: u8, a: u8) -> u32 {
    u32::from_le_bytes([r, g, b, a])
}

#[test]
fn render_pixmap_direct_blends_premultiplied_pixels() {
    let mut target = vec![pack(0, 0, 255, 255); 16];
    let src = [pack(128, 0, 0, 128)];
    assert!(blit_pixmap_source_over(
        &src,
        1,
        1,
        &mut target,
        4,
        4,
        SimpleClip::Absent,
        None,
        1,
        1
    ));
    assert_eq!(target[4 + 1], pack(128, 0, 127, 255));
    assert_eq!(target[0], pack(0, 0, 255, 255));
    assert_eq!(target[4 + 2], pack(0, 0, 255, 255));
}

#[test]
fn bounds_intersect_pixmap_target_and_clip() {
    assert_eq!(
        blit_bounds(-2, 1, 5, 5, 4, 4, SimpleClip::Absent),
        Some((0, 1, 3, 4))
    );
    assert_eq!(blit_bounds(4, 0, 5, 5, 4, 4, SimpleClip::Absent), None);
    let clip = SimpleClip::Rect(ClipRect {
        x: 1,
        y: 2,
        width: 1,
        height: 1,
    });
    assert_eq!(blit_bounds(0, 0, 4, 4, 4, 4, clip), Some((1, 2, 2, 3)));
    assert_eq!(blit_bounds(0, 0, 4, 4, 4, 4, SimpleClip::Unrepresentable), None);
    assert_eq!(blit_bounds(0, 0, 1 << 31, 4, 4, 4, SimpleClip::Absent), None);
    let huge = SimpleClip::Rect(ClipRect {
        x: 0,
        y: 0,
        width: 1 << 31,
        height: 1,
    });
    assert_eq!(blit_bounds(0, 0, 4, 4, 4, 4, huge), None);
}

#[test]
fn clipped_blit_writes_only_inside_the_clip() {
    let mut target = vec![0u32; 9];
    let src = vec![pack(9, 9, 9, 255); 9];
    let clip = SimpleClip::Rect(ClipRect {
        x: 1,
        y: 1,
        width: 1,
        height: 1,
    });
    assert!(blit_pixmap_source_over(&src, 3, 3, &mut target, 3, 3, clip, None, 0, 0));
    let mut expected = vec![0u32; 9];
    expected[4] = pack(9, 9, 9, 255);
    assert_eq!(target, expected);
}

#[test]
fn masked_blit_scales_by_coverage() {
    let mut target = vec![0u32; 2];
    let src = [pack(200, 100, 50, 255), pack(200, 100, 50, 255)];
    let mask = [128u8, 0];
    assert!(blit_pixmap_source_over(
        &src,
        2,
        1,
        &mut target,
        2,
        1,
        SimpleClip::Absent,
        Some(&mask),
        0,
        0
    ));
    assert_eq!(target, vec![pack(100, 50, 25, 128), 0]);
}

#[test]
fn unmasked_blit_reports_rows_it_cannot_place() {
    let src = [pack(1, 1, 1, 255); 4];
    let mut target = [0u32; 4];
    // The first column lies left of the pixmap: nothing is written.
    assert!(!blit_pixmap_source_over_unmasked(&src, &mut target, 2, 2, 1, 0, 0, 0, 2, 2));
    assert_eq!(target, [0; 4]);
    // The first row lies above the pixmap.
    assert!(!blit_pixmap_source_over_unmasked(&src, &mut target, 2, 2, 0, 1, 0, 0, 2, 2));
    assert_eq!(target, [0; 4]);
    // An empty row range succeeds without writing.
    assert!(blit_pixmap_source_over_unmasked(&src, &mut target, 2, 2, 0, 0, 0, 1, 2, 1));
    assert_eq!(target, [0; 4]);
    assert!(blit_pixmap_source_over_unmasked(&src, &mut target, 2, 2, 0, 0, 0, 0, 2, 2));
    assert_eq!(target, [pack(1, 1, 1, 255); 4]);
}

#[test]
fn masked_blit_reads_mask_rows_with_their_own_width() {
    let src = [pack(255, 255, 255, 255); 2];
    let mut target = [0u32; 2];
    let mask = [255u8, 0, 7, 0, 255, 9];
    assert!(blit_pixmap_source_over_masked(
        &src, &mut target, &mask, 1, 1, 3, 0, 0, 0, 0, 1, 2
    ));
    assert_eq!(target, [pack(255, 255, 255, 255), 0]);
}
