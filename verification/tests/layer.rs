use imaging::layer::{intersect_mask_rect, mask_rect_bounds, place_into_full_size, write_mask_rect};

#[test]
fn mask_bounds_are_cut_to_the_mask() {
    assert_eq!(mask_rect_bounds(1, 1, 2, 2, 4, 4), Some((1, 1, 3, 3)));
    assert_eq!(mask_rect_bounds(-1, 0, 2, 1, 4, 4), Some((0, 0, 1, 1)));
    assert_eq!(mask_rect_bounds(3, 0, 5, 1, 4, 4), Some((3, 0, 4, 1)));
    assert_eq!(mask_rect_bounds(4, 0, 1, 1, 4, 4), None);
    assert_eq!(mask_rect_bounds(0, 4, 1, 1, 4, 4), None);
}

#[test]
fn writing_a_mask_rect_fills_full_coverage() {
    let mut mask = [0u8; 8];
    write_mask_rect(&mut mask, 4, 2, 1, 0, 2, 2);
    assert_eq!(mask, [0, 255, 255, 0, 0, 255, 255, 0]);
    let mut mask = [7u8; 4];
    write_mask_rect(&mut mask, 2, 2, 5, 5, 1, 1);
    assert_eq!(mask, [7; 4]);
}

#[test]
fn intersecting_keeps_only_the_rect() {
    let mut mask = [9u8; 8];
    intersect_mask_rect(&mut mask, 4, 2, 1, 1, 2, 1);
    assert_eq!(mask, [0, 0, 0, 0, 0, 9, 9, 0]);
    let mut mask = [9u8; 8];
    intersect_mask_rect(&mut mask, 4, 2, 10, 0, 1, 1);
    assert_eq!(mask, [0; 8]);
}

#[test]
fn local_layer_is_placed_at_its_origin() {
    let local = [1, 2, 3, 4, 5, 6, 7, 8];
    let out = place_into_full_size(&local, 1, 2, 1, 0, 2, 2);
    assert_eq!(
        out,
        vec![0, 0, 0, 0, 1, 2, 3, 4, 0, 0, 0, 0, 5, 6, 7, 8]
    );
    let out = place_into_full_size(&[], 0, 0, 0, 0, 1, 1);
    assert_eq!(out, vec![0, 0, 0, 0]);
}
