use imaging::blur::{average_premultiplied_channels, blur_pixels, box_blur_pass, PremulRgba8};

const CLEAR: PremulRgba8 = PremulRgba8 {
    red: 0,
    green: 0,
    blue: 0,
    alpha: 0,
};
const BLACK: PremulRgba8 = PremulRgba8 {
    red: 0,
    green: 0,
    blue: 0,
    alpha: 255,
};

fn gray(v: u8) -> PremulRgba8 {
    PremulRgba8 {
        red: v,
        green: v,
        blue: v,
        alpha: 255,
    }
}

#[test]
fn blur_pixmap_spreads_alpha_outside_source_pixels() {
    let mut pixels = vec![CLEAR; 49];
    pixels[3 * 7 + 3] = BLACK;
    // A standard deviation of 1.5 gives three box passes of radius 1 in each direction.
    let blurred = blur_pixels(&pixels, 7, 7, &[1, 1, 1], &[1, 1, 1]);
    let neighbor = blurred[3 * 7 + 2];
    assert!(neighbor.alpha > 0);
}

#[test]
fn horizontal_pass_averages_over_the_full_window() {
    let src = [gray(30), gray(60), gray(90)];
    let out = box_blur_pass(&src, 3, 1, 1, true);
    // Edges divide by the full window of 3, so they darken.
    assert_eq!(out[0].alpha, 170);
    assert_eq!(out[0].red, 30);
    assert_eq!(out[1].red, 60);
    assert_eq!(out[1].alpha, 255);
    assert_eq!(out[2].red, 50);
}

#[test]
fn vertical_pass_blurs_columns_independently() {
    // 2 x 3 image: column 0 opaque white at the middle row, column 1 clear.
    let mut src = vec![CLEAR; 6];
    src[2] = gray(255);
    let out = box_blur_pass(&src, 2, 3, 1, false);
    for y in 0..3 {
        assert_eq!(out[y * 2].alpha, 85);
        assert_eq!(out[y * 2 + 1], CLEAR);
    }
}

#[test]
fn non_positive_radius_copies() {
    let src = [gray(1), gray(2), CLEAR];
    assert_eq!(box_blur_pass(&src, 3, 1, 0, true), src.to_vec());
    assert_eq!(box_blur_pass(&src, 3, 1, -4, false), src.to_vec());
}

#[test]
fn pixels_past_the_image_become_clear() {
    let src = [gray(10), gray(10), gray(10)];
    let out = box_blur_pass(&src, 2, 1, 1, true);
    assert_eq!(out.len(), 3);
    assert_eq!(out[2], CLEAR);
}

#[test]
fn averaging_rounds_to_nearest() {
    let p = average_premultiplied_channels(10, 20, 30, 40, 3);
    assert_eq!(p, PremulRgba8 {
        red: 3,
        green: 7,
        blue: 10,
        alpha: 13,
    });
}

#[test]
fn blur_keeps_premultiplied_colors() {
    let mut src = vec![CLEAR; 25];
    src[12] = PremulRgba8 {
        red: 200,
        green: 10,
        blue: 99,
        alpha: 200,
    };
    src[13] = gray(255);
    let out = blur_pixels(&src, 5, 5, &[2, 1], &[1, 2, 3]);
    for p in out {
        assert!(p.red <= p.alpha && p.green <= p.alpha && p.blue <= p.alpha);
    }
}
