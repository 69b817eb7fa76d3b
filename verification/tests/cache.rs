use imaging::cache::{should_retain_glyph_entry, ImageCache, ImageCacheKey};

fn key(id: u64) -> ImageCacheKey {
    ImageCacheKey {
        blob_id: id,
        format: 0,
        alpha_type: 0,
        width: 4,
        height: 4,
    }
}

#[test]
fn glyph_cache_entries_get_a_minimum_ttl() {
    // An entry last used in the previous frame, 50 ms ago, survives.
    assert!(should_retain_glyph_entry(true, false, 50));
    // One last used 150 ms ago in the previous frame does not.
    assert!(!should_retain_glyph_entry(true, false, 150));
    // One used during the current frame survives however old.
    assert!(should_retain_glyph_entry(true, true, 150));
}

#[test]
fn glyph_ttl_boundary_is_exclusive() {
    assert!(should_retain_glyph_entry(false, true, 99));
    assert!(!should_retain_glyph_entry(false, true, 100));
}

#[test]
fn image_cache_evicts_least_recently_used_first() {
    let mut cache: ImageCache<&'static str> = ImageCache::new(100);
    cache.insert(key(1), "one", 60);
    cache.insert(key(2), "two", 30);
    assert_eq!(cache.len(), 2);
    assert_eq!(cache.get(key(1)), Some("one"));
    cache.insert(key(3), "three", 30);
    assert_eq!(cache.len(), 2);
    assert_eq!(cache.get(key(2)), None);
    assert_eq!(cache.get(key(1)), Some("one"));
    assert_eq!(cache.get(key(3)), Some("three"));
}

#[test]
fn image_cache_keys_compare_every_field() {
    let mut cache: ImageCache<u8> = ImageCache::new(1000);
    cache.insert(key(1), 1, 10);
    let mut other = key(1);
    other.width = 5;
    assert_eq!(cache.get(other), None);
    other = key(1);
    other.format = 1;
    assert_eq!(cache.get(other), None);
    assert_eq!(cache.get(key(1)), Some(1));
}

#[test]
fn shrinking_the_budget_evicts_and_clear_empties() {
    let mut cache: ImageCache<u8> = ImageCache::new(100);
    cache.insert(key(1), 1, 40);
    cache.insert(key(2), 2, 40);
    cache.set_max_bytes(50);
    assert_eq!(cache.len(), 1);
    assert_eq!(cache.get(key(1)), None);
    assert_eq!(cache.get(key(2)), Some(2));
    cache.set_max_bytes(0);
    assert_eq!(cache.len(), 0);
    cache.insert(key(3), 3, 10);
    assert_eq!(cache.len(), 0);
    let mut cache: ImageCache<u8> = ImageCache::default();
    cache.insert(key(4), 4, 1024);
    assert_eq!(cache.len(), 1);
    cache.clear();
    assert_eq!(cache.len(), 0);
}

#[test]
fn oversized_image_is_not_retained() {
    let mut cache: ImageCache<u8> = ImageCache::new(10);
    cache.insert(key(1), 1, 5);
    cache.insert(key(2), 2, 11);
    assert_eq!(cache.len(), 0);
}

#[test]
fn get_or_create_realizes_only_on_a_miss() {
    let mut cache: ImageCache<u32> = ImageCache::new(100);
    let mut calls = 0;
    let first = cache.get_or_create(key(1), || {
        calls += 1;
        Some((7, 16))
    });
    assert_eq!(first, Some(7));
    assert_eq!(calls, 1);
    assert_eq!(cache.len(), 1);
    let again = cache.get_or_create(key(1), || {
        calls += 1;
        Some((9, 16))
    });
    assert_eq!(again, Some(7));
    assert_eq!(calls, 1);
    assert_eq!(cache.len(), 1);
}

#[test]
fn get_or_create_leaves_the_cache_when_nothing_is_made() {
    let mut cache: ImageCache<u32> = ImageCache::new(100);
    assert_eq!(cache.get_or_create(key(1), || None), None);
    assert_eq!(cache.len(), 0);
    assert_eq!(cache.get(key(1)), None);
}

#[test]
fn get_or_create_evicts_like_insert() {
    let mut cache: ImageCache<u32> = ImageCache::new(32);
    assert_eq!(cache.get_or_create(key(1), || Some((1, 16))), Some(1));
    assert_eq!(cache.get_or_create(key(2), || Some((2, 16))), Some(2));
    assert_eq!(cache.get_or_create(key(3), || Some((3, 16))), Some(3));
    assert_eq!(cache.len(), 2);
    assert_eq!(cache.get(key(1)), None);
    assert_eq!(cache.get(key(3)), Some(3));
}

#[test]
fn images_are_charged_their_byte_size_or_data_length() {
    assert_eq!(imaging::cache::image_charge_bytes(peniko::ImageFormat::Rgba8, 3, 2, 5), 24);
    assert_eq!(imaging::cache::image_charge_bytes(peniko::ImageFormat::Bgra8, 0, 9, 5), 0);
    assert_eq!(
        imaging::cache::image_charge_bytes(peniko::ImageFormat::Rgba8, u32::MAX, u32::MAX, 77),
        77
    );
}
