use imaging::skia_config::SkiaCacheConfig;

#[test]
fn cache_config_defaults() {
    let c = SkiaCacheConfig::new();
    assert_eq!(c.font_cache_count_limit, 100);
    assert_eq!(c.typeface_cache_count_limit, 100);
    assert_eq!(c.resource_cache_total_bytes_limit, 10 * 1024 * 1024);
    assert_eq!(c.resource_cache_single_allocation_byte_limit, None);
    assert_eq!(c.image_cache_total_bytes_limit, 64 * 1024 * 1024);
    assert_eq!(c.mask_cache_total_bytes_limit, 64 * 1024 * 1024);
}

#[test]
fn cache_config_builders_override_one_limit() {
    let c = SkiaCacheConfig::default()
        .with_font_cache_count_limit(1)
        .with_typeface_cache_count_limit(2)
        .with_resource_cache_total_bytes_limit(3)
        .with_resource_cache_single_allocation_byte_limit(Some(4))
        .with_image_cache_total_bytes_limit(5)
        .with_mask_cache_total_bytes_limit(6);
    assert_eq!(c.font_cache_count_limit, 1);
    assert_eq!(c.typeface_cache_count_limit, 2);
    assert_eq!(c.resource_cache_total_bytes_limit, 3);
    assert_eq!(c.resource_cache_single_allocation_byte_limit, Some(4));
    assert_eq!(c.image_cache_total_bytes_limit, 5);
    assert_eq!(c.mask_cache_total_bytes_limit, 6);

    let d = SkiaCacheConfig::new().with_image_cache_total_bytes_limit(0);
    assert_eq!(d.image_cache_total_bytes_limit, 0);
    assert_eq!(d.mask_cache_total_bytes_limit, 64 * 1024 * 1024);
}
