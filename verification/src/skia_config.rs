//! Cache and resource budgets for Skia-backed rendering.

use vstd::prelude::*;

verus! {

/// Configurable cache and resource budgets for Skia-backed rendering.
///
/// These limits are applied through Skia's process-global cache settings when a renderer is
/// constructed; the most recently constructed renderer wins for Skia's global resource limits.
#[derive(Clone, Copy, Debug)]
pub struct SkiaCacheConfig {
    /// Maximum number of entries Skia keeps in its global font cache.
    pub font_cache_count_limit: i32,
    /// Maximum number of cached typefaces Skia keeps globally.
    pub typeface_cache_count_limit: i32,
    /// Maximum number of bytes Skia keeps in its global resource cache.
    pub resource_cache_total_bytes_limit: usize,
    /// Maximum size of a single entry in Skia's global resource cache.
    pub resource_cache_single_allocation_byte_limit: Option<usize>,
    /// Maximum number of bytes retained by the shared realized-image cache.
    pub image_cache_total_bytes_limit: usize,
    /// Maximum number of bytes retained by the shared realized mask cache.
    pub mask_cache_total_bytes_limit: usize,
}

/// The default budgets: 100 fonts, 100 typefaces, a 10 MiB resource cache without a single
/// allocation limit, and 64 MiB each for realized images and masks.
pub open spec fn default_cache_config() -> SkiaCacheConfig {
    SkiaCacheConfig {
        font_cache_count_limit: 100,
        typeface_cache_count_limit: 100,
        resource_cache_total_bytes_limit: 10_485_760usize,
        resource_cache_single_allocation_byte_limit: None,
        image_cache_total_bytes_limit: 67_108_864usize,
        mask_cache_total_bytes_limit: 67_108_864usize,
    }
}

impl Default for SkiaCacheConfig {
    fn default() -> (r: Self)
        ensures
            r == default_cache_config(),
    {
        SkiaCacheConfig {
            font_cache_count_limit: 100,
            typeface_cache_count_limit: 100,
            resource_cache_total_bytes_limit: 10 * 1024 * 1024,
            resource_cache_single_allocation_byte_limit: None,
            image_cache_total_bytes_limit: 64 * 1024 * 1024,
            mask_cache_total_bytes_limit: 64 * 1024 * 1024,
        }
    }
}

impl SkiaCacheConfig {
    /// Create cache budgets with the default limits.
    pub fn new() -> (r: Self)
        ensures
            r == default_cache_config(),
    {
        Self::default()
    }

    /// Override the Skia global font-cache entry limit.
    pub fn with_font_cache_count_limit(self, limit: i32) -> (r: Self)
        ensures
            r == (SkiaCacheConfig { font_cache_count_limit: limit, ..self }),
    {
        let mut this = self;
        this.font_cache_count_limit = limit;
        this
    }

    /// Override the Skia global typeface-cache entry limit.
    pub fn with_typeface_cache_count_limit(self, limit: i32) -> (r: Self)
        ensures
            r == (SkiaCacheConfig { typeface_cache_count_limit: limit, ..self }),
    {
        let mut this = self;
        this.typeface_cache_count_limit = limit;
        this
    }

    /// Override the Skia global resource-cache byte limit.
    pub fn with_resource_cache_total_bytes_limit(self, limit: usize) -> (r: Self)
        ensures
            r == (SkiaCacheConfig { resource_cache_total_bytes_limit: limit, ..self }),
    {
        let mut this = self;
        this.resource_cache_total_bytes_limit = limit;
        this
    }

    /// Override the Skia global single-allocation resource-cache byte limit.
    pub fn with_resource_cache_single_allocation_byte_limit(self, limit: Option<usize>) -> (r:
        Self)
        ensures
            r == (SkiaCacheConfig { resource_cache_single_allocation_byte_limit: limit, ..self }),
    {
        let mut this = self;
        this.resource_cache_single_allocation_byte_limit = limit;
        this
    }

    /// Override the shared realized-image cache byte limit.
    pub fn with_image_cache_total_bytes_limit(self, limit: usize) -> (r: Self)
        ensures
            r == (SkiaCacheConfig { image_cache_total_bytes_limit: limit, ..self }),
    {
        let mut this = self;
        this.image_cache_total_bytes_limit = limit;
        this
    }

    /// Override the shared realized-mask cache byte limit.
    pub fn with_mask_cache_total_bytes_limit(self, limit: usize) -> (r: Self)
        ensures
            r == (SkiaCacheConfig { mask_cache_total_bytes_limit: limit, ..self }),
    {
        let mut this = self;
        this.mask_cache_total_bytes_limit = limit;
        this
    }
}

} // verus!
