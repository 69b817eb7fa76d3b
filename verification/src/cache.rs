//! Retention policies of renderer caches.
//!
//! [`ImageCache`] keeps realized images in least-recently-used order under a byte budget;
//! [`should_retain_glyph_entry`] decides which rasterized glyphs survive the end of a frame.

use vstd::prelude::*;

use std::collections::VecDeque;

verus! {

/// Identity of a realized image: the source blob, its pixel format and alpha type tags, and its
/// size.
#[derive(Clone, Copy, Debug, PartialEq, Eq, Hash, Structural)]
pub struct ImageCacheKey {
    /// Identity of the image's data blob.
    pub blob_id: u64,
    /// Tag of the image's pixel format.
    pub format: u32,
    /// Tag of the image's alpha type.
    pub alpha_type: u32,
    /// Width in pixels.
    pub width: u32,
    /// Height in pixels.
    pub height: u32,
}

/// One realized image held by an [`ImageCache`].
#[derive(Clone, Debug)]
pub struct CachedImage<V> {
    /// Identity of the source image.
    pub key: ImageCacheKey,
    /// The realized image.
    pub image: V,
    /// Bytes charged to the cache budget for this entry.
    pub bytes: usize,
}

/// Total bytes charged by `entries`.
pub open spec fn total_bytes<V>(entries: Seq<CachedImage<V>>) -> int
    decreases entries.len(),
{
    if entries.len() == 0 {
        0
    } else {
        total_bytes(entries.drop_last()) + entries.last().bytes
    }
}

/// `part` is what remains of `whole` after dropping some of its first entries.
pub open spec fn suffix_of<T>(part: Seq<T>, whole: Seq<T>) -> bool {
    exists|k: int| 0 <= k <= whole.len() && part == whole.subrange(k, whole.len() as int)
}

/// The charged byte count after evicting the first `j` of `entries`, starting from `used`: each
/// eviction subtracts the entry's size, stopping at zero.
pub open spec fn bytes_after_evicting<V>(entries: Seq<CachedImage<V>>, used: int, j: int) -> int
    decreases j,
{
    if j <= 0 {
        used
    } else {
        let prev = bytes_after_evicting(entries, used, j - 1);
        let b = entries[j - 1].bytes as int;
        if prev > b {
            prev - b
        } else {
            0
        }
    }
}

/// Number of least recently used entries, from position `j` on, that eviction drops: it stops at
/// the first point where the charged bytes fit `max`, or when no entry is left.
pub open spec fn eviction_count_from<V>(entries: Seq<CachedImage<V>>, used: int, max: int, j: int) -> int
    decreases entries.len() - j,
{
    if j >= entries.len() || bytes_after_evicting(entries, used, j) <= max {
        j
    } else {
        eviction_count_from(entries, used, max, j + 1)
    }
}

/// Number of least recently used entries that eviction under budget `max` drops.
pub open spec fn eviction_count<V>(entries: Seq<CachedImage<V>>, used: int, max: int) -> int {
    eviction_count_from(entries, used, max, 0)
}

/// Bytes charged after adding `bytes` to `used`, saturating at `usize::MAX`.
pub open spec fn charged(used: usize, bytes: usize) -> int {
    if used + bytes > usize::MAX {
        usize::MAX as int
    } else {
        used + bytes
    }
}

/// The entries after appending `entry` as the most recently used one to `entries`, charged
/// `used` bytes, and evicting under budget `max`.
pub open spec fn entries_after_insert<V>(
    entries: Seq<CachedImage<V>>,
    used: usize,
    max: usize,
    entry: CachedImage<V>,
) -> Seq<CachedImage<V>> {
    let all = entries.push(entry);
    let k = eviction_count(all, charged(used, entry.bytes), max as int);
    all.subrange(k, all.len() as int)
}

/// The charged bytes after the same insertion and eviction.
pub open spec fn bytes_after_insert<V>(
    entries: Seq<CachedImage<V>>,
    used: usize,
    max: usize,
    entry: CachedImage<V>,
) -> int {
    let all = entries.push(entry);
    let total = charged(used, entry.bytes);
    bytes_after_evicting(all, total, eviction_count(all, total, max as int))
}

/// A byte-budgeted cache of realized images, least recently used first.
#[derive(Debug)]
pub struct ImageCache<V> {
    bytes_used: usize,
    max_bytes: usize,
    entries: VecDeque<CachedImage<V>>,
}

proof fn lemma_total_bytes_drop_first<V>(entries: Seq<CachedImage<V>>)
    requires
        entries.len() > 0,
    ensures
        total_bytes(entries) == entries[0].bytes + total_bytes(entries.subrange(1, entries.len() as int)),
    decreases entries.len(),
{
    if entries.len() > 1 {
        let rest = entries.subrange(1, entries.len() as int);
        lemma_total_bytes_drop_first(entries.drop_last());
        assert(entries.drop_last().subrange(1, entries.len() - 1) =~= rest.drop_last());
        assert(entries.drop_last()[0] == entries[0]);
    } else {
        assert(entries.drop_last() =~= Seq::<CachedImage<V>>::empty());
        assert(entries.subrange(1, entries.len() as int) =~= Seq::<CachedImage<V>>::empty());
    }
}

proof fn lemma_total_bytes_concat<V>(a: Seq<CachedImage<V>>, b: Seq<CachedImage<V>>)
    ensures
        total_bytes(a + b) == total_bytes(a) + total_bytes(b),
    decreases b.len(),
{
    if b.len() > 0 {
        lemma_total_bytes_concat(a, b.drop_last());
        assert((a + b).drop_last() =~= a + b.drop_last());
    } else {
        assert(a + b =~= a);
    }
}

proof fn lemma_total_bytes_nonneg<V>(entries: Seq<CachedImage<V>>)
    ensures
        total_bytes(entries) >= 0,
    decreases entries.len(),
{
    if entries.len() > 0 {
        lemma_total_bytes_nonneg(entries.drop_last());
    }
}

impl<V> ImageCache<V> {
    /// Bytes charged to the budget so far.
    pub closed spec fn bytes_used_view(self) -> usize {
        self.bytes_used
    }

    /// The byte budget.
    pub closed spec fn max_bytes_view(self) -> usize {
        self.max_bytes
    }

    /// The cached entries, least recently used first.
    pub closed spec fn entries_view(self) -> Seq<CachedImage<V>> {
        self.entries@
    }

    /// The charged byte count is the sum of the entries' sizes.
    pub open spec fn accounted(self) -> bool {
        self.bytes_used_view() == total_bytes(self.entries_view())
    }

    /// The cache is within its budget, or holds nothing more to evict.
    pub open spec fn within_budget(self) -> bool {
        self.bytes_used_view() <= self.max_bytes_view() || self.entries_view().len() == 0
    }

    /// Create an empty cache with a byte budget.
    pub fn new(max_bytes: usize) -> (r: Self)
        ensures
            r.max_bytes_view() == max_bytes,
            r.bytes_used_view() == 0,
            r.entries_view() == Seq::<CachedImage<V>>::empty(),
            r.accounted(),
    {
        ImageCache { bytes_used: 0, max_bytes, entries: VecDeque::new() }
    }

    /// Number of cached entries.
    pub fn len(&self) -> (r: usize)
        ensures
            r == self.entries_view().len(),
    {
        self.entries.len()
    }

    /// Drop every entry.
    pub fn clear(&mut self)
        ensures
            final(self).bytes_used_view() == 0,
            final(self).max_bytes_view() == old(self).max_bytes_view(),
            final(self).entries_view() == Seq::<CachedImage<V>>::empty(),
            final(self).accounted(),
    {
        self.bytes_used = 0;
        self.entries.clear();
    }

    /// Drop least recently used entries until the cache is within its budget.
    fn evict_to_budget(&mut self)
        ensures
            final(self).max_bytes_view() == old(self).max_bytes_view(),
            ({
                let k = eviction_count(
                    old(self).entries_view(),
                    old(self).bytes_used_view() as int,
                    old(self).max_bytes_view() as int,
                );
                &&& 0 <= k <= old(self).entries_view().len()
                &&& final(self).entries_view() == old(self).entries_view().subrange(
                    k,
                    old(self).entries_view().len() as int,
                )
                &&& final(self).bytes_used_view() == bytes_after_evicting(
                    old(self).entries_view(),
                    old(self).bytes_used_view() as int,
                    k,
                )
            }),
            final(self).within_budget(),
            suffix_of(final(self).entries_view(), old(self).entries_view()),
            old(self).accounted() ==> final(self).accounted(),
    {
        let ghost start = self.entries@;
        let ghost used0 = self.bytes_used as int;
        let ghost max = self.max_bytes as int;
        let ghost mut j: int = 0;
        proof {
            assert(start.subrange(0, start.len() as int) =~= start);
        }
        while self.bytes_used > self.max_bytes
            invariant
                self.max_bytes == old(self).max_bytes,
                max == self.max_bytes,
                start == old(self).entries@,
                used0 == old(self).bytes_used,
                0 <= j <= start.len(),
                self.entries@ == start.subrange(j, start.len() as int),
                self.bytes_used == bytes_after_evicting(start, used0, j),
                eviction_count(start, used0, max) == eviction_count_from(start, used0, max, j),
                old(self).accounted() ==> self.bytes_used == total_bytes(self.entries@),
            ensures
                self.max_bytes == old(self).max_bytes,
                0 <= j <= start.len(),
                self.entries@ == start.subrange(j, start.len() as int),
                self.bytes_used == bytes_after_evicting(start, used0, j),
                eviction_count(start, used0, max) == j,
                self.bytes_used <= self.max_bytes || self.entries@.len() == 0,
                old(self).accounted() ==> self.bytes_used == total_bytes(self.entries@),
            decreases self.entries@.len(),
        {
            let ghost before = self.entries@;
            match self.entries.pop_front() {
                Some(oldest) => {
                    proof {
                        lemma_total_bytes_drop_first(before);
                        lemma_total_bytes_nonneg(self.entries@);
                        assert(self.entries@ =~= start.subrange(j + 1, start.len() as int));
                        assert(oldest == start[j]);
                        assert(eviction_count_from(start, used0, max, j) == eviction_count_from(
                            start,
                            used0,
                            max,
                            j + 1,
                        ));
                    }
                    self.bytes_used = self.bytes_used.saturating_sub(oldest.bytes);
                    proof {
                        j = j + 1;
                    }
                },
                None => {
                    proof {
                        assert(j == start.len());
                    }
                    break ;
                },
            }
        }
        proof {
            assert(start.subrange(j, start.len() as int) =~= self.entries@);
            if j < start.len() {
                assert(eviction_count_from(start, used0, max, j) == j);
            }
            assert(suffix_of(self.entries@, start));
        }
    }

    /// Change the byte budget, evicting least recently used entries that no longer fit.
    pub fn set_max_bytes(&mut self, max_bytes: usize)
        ensures
            final(self).max_bytes_view() == max_bytes,
            ({
                let k = eviction_count(
                    old(self).entries_view(),
                    old(self).bytes_used_view() as int,
                    max_bytes as int,
                );
                &&& final(self).entries_view() == old(self).entries_view().subrange(
                    k,
                    old(self).entries_view().len() as int,
                )
                &&& final(self).bytes_used_view() == bytes_after_evicting(
                    old(self).entries_view(),
                    old(self).bytes_used_view() as int,
                    k,
                )
            }),
            final(self).within_budget(),
            suffix_of(final(self).entries_view(), old(self).entries_view()),
            old(self).accounted() ==> final(self).accounted(),
    {
        self.max_bytes = max_bytes;
        self.evict_to_budget();
    }

    /// Mark entry `index` as most recently used by moving it to the back.
    fn touch(&mut self, index: usize)
        requires
            index < old(self).entries_view().len(),
        ensures
            final(self).entries_view() == old(self).entries_view().remove(index as int).push(
                old(self).entries_view()[index as int],
            ),
            final(self).bytes_used_view() == old(self).bytes_used_view(),
            final(self).max_bytes_view() == old(self).max_bytes_view(),
    {
        let n = self.entries.len();
        if index + 1 == n {
            proof {
                assert(self.entries@.remove(index as int).push(self.entries@[index as int])
                    =~= self.entries@);
            }
            return;
        }
        if let Some(entry) = self.entries.remove(index) {
            self.entries.push_back(entry);
        }
    }

    /// Position of the entry cached for `key`, if any.
    fn position(&self, key: ImageCacheKey) -> (r: Option<usize>)
        ensures
            match r {
                Some(i) => i < self.entries_view().len() && self.entries_view()[i as int].key == key
                    && forall|j: int| 0 <= j < i ==> #[trigger] self.entries_view()[j].key != key,
                None => forall|j: int|
                    0 <= j < self.entries_view().len() ==> #[trigger] self.entries_view()[j].key
                        != key,
            },
    {
        let n = self.entries.len();
        let mut i: usize = 0;
        while i < n
            invariant
                n == self.entries@.len(),
                i <= n,
                forall|j: int| 0 <= j < i ==> #[trigger] self.entries@[j].key != key,
            decreases n - i,
        {
            if self.entries[i].key == key {
                return Some(i);
            }
            i += 1;
        }
        None
    }

    /// Look up the image cached for `key`, marking it most recently used.
    pub fn get(&mut self, key: ImageCacheKey) -> (r: Option<V>) where V: Clone
        ensures
            final(self).bytes_used_view() == old(self).bytes_used_view(),
            final(self).max_bytes_view() == old(self).max_bytes_view(),
            match r {
                Some(image) => exists|i: int|
                    0 <= i < old(self).entries_view().len() && old(self).entries_view()[i].key
                        == key && (forall|j: int|
                        0 <= j < i ==> #[trigger] old(self).entries_view()[j].key != key) && cloned::<
                        V,
                    >(old(self).entries_view()[i].image, image) && final(self).entries_view()
                        == old(self).entries_view().remove(i).push(old(self).entries_view()[i]),
                None => (forall|j: int|
                    0 <= j < old(self).entries_view().len() ==> #[trigger] old(self).entries_view()[j].key != key) && final(self).entries_view() == old(self).entries_view(),
            },
    {
        match self.position(key) {
            Some(index) => {
                let cached = self.entries[index].image.clone();
                self.touch(index);
                Some(cached)
            },
            None => None,
        }
    }

    /// Add a newly realized image as the most recently used entry, then evict least recently
    /// used entries until the cache is within its budget.
    pub fn insert(&mut self, key: ImageCacheKey, image: V, bytes: usize)
        ensures
            final(self).max_bytes_view() == old(self).max_bytes_view(),
            final(self).entries_view() == entries_after_insert(
                old(self).entries_view(),
                old(self).bytes_used_view(),
                old(self).max_bytes_view(),
                CachedImage { key, image, bytes },
            ),
            final(self).bytes_used_view() == bytes_after_insert(
                old(self).entries_view(),
                old(self).bytes_used_view(),
                old(self).max_bytes_view(),
                CachedImage { key, image, bytes },
            ),
            final(self).within_budget(),
            suffix_of(
                final(self).entries_view(),
                old(self).entries_view().push(CachedImage { key, image, bytes }),
            ),
            old(self).accounted() && old(self).bytes_used_view() + bytes <= usize::MAX ==> final(self).accounted(),
    {
        let ghost before = self.entries@;
        self.bytes_used = self.bytes_used.saturating_add(bytes);
        self.entries.push_back(CachedImage { key, image, bytes });
        proof {
            assert(before.push(CachedImage { key, image, bytes }).drop_last() =~= before);
        }
        self.evict_to_budget();
    }
}

impl<V: Clone> ImageCache<V> {
    /// The image cached for `key`, marked most recently used; on a miss, the image and byte
    /// count that `realize` makes, inserted as by [`ImageCache::insert`]. `realize` runs only on
    /// a miss, and when it makes nothing the cache is left as it was.
    pub fn get_or_create<F: FnOnce() -> Option<(V, usize)>>(&mut self, key: ImageCacheKey, realize: F) -> (r: Option<V>)
        requires
            call_requires(realize, ()),
        ensures
            final(self).max_bytes_view() == old(self).max_bytes_view(),
            (exists|i: int| 0 <= i < old(self).entries_view().len() && #[trigger] old(self).entries_view()[i].key == key)
                ==> final(self).bytes_used_view() == old(self).bytes_used_view() && exists|i: int|
                0 <= i < old(self).entries_view().len() && old(self).entries_view()[i].key == key
                    && (forall|j: int| 0 <= j < i ==> #[trigger] old(self).entries_view()[j].key != key)
                    && (match r {
                    Some(image) => cloned::<V>(old(self).entries_view()[i].image, image),
                    None => false,
                }) && final(self).entries_view() == old(self).entries_view().remove(i).push(
                    old(self).entries_view()[i],
                ),
            (forall|j: int| 0 <= j < old(self).entries_view().len() ==> #[trigger] old(self).entries_view()[j].key != key)
                ==> exists|made: Option<(V, usize)>|
                call_ensures(realize, (), made) && match made {
                    None => r is None && final(self).entries_view() == old(self).entries_view()
                        && final(self).bytes_used_view() == old(self).bytes_used_view(),
                    Some((image, bytes)) => (match r {
                        Some(out) => cloned::<V>(image, out),
                        None => false,
                    }) && final(self).entries_view() == entries_after_insert(
                        old(self).entries_view(),
                        old(self).bytes_used_view(),
                        old(self).max_bytes_view(),
                        CachedImage { key, image, bytes },
                    ) && final(self).bytes_used_view() == bytes_after_insert(
                        old(self).entries_view(),
                        old(self).bytes_used_view(),
                        old(self).max_bytes_view(),
                        CachedImage { key, image, bytes },
                    ),
                },
    {
        let cached = self.get(key);
        if cached.is_some() {
            return cached;
        }
        let made = realize();
        match made {
            None => None,
            Some((image, bytes)) => {
                let out = image.clone();
                self.insert(key, image, bytes);
                Some(out)
            },
        }
    }
}

/// Bytes charged to the cache for an image: its size in bytes by format and dimensions, or the
/// length of its data when that size overflows `usize`.
pub fn image_charge_bytes(format: peniko::ImageFormat, width: u32, height: u32, data_len: usize) -> (r: usize)
    ensures
        r == (if 4 * width > usize::MAX || 4 * width * height > usize::MAX {
            data_len as int
        } else {
            4 * width * height
        }),
{
    match crate::validation::image_size_in_bytes(format, width, height) {
        Some(bytes) => bytes,
        None => data_len,
    }
}

/// Default image cache budget: 64 MiB.
pub const DEFAULT_IMAGE_CACHE_BYTES: usize = 67_108_864usize;

impl<V> Default for ImageCache<V> {
    fn default() -> (r: Self)
        ensures
            r.max_bytes_view() == DEFAULT_IMAGE_CACHE_BYTES,
            r.bytes_used_view() == 0,
            r.entries_view() == Seq::<CachedImage<V>>::empty(),
    {
        Self::new(DEFAULT_IMAGE_CACHE_BYTES)
    }
}

/// Whether a rasterized glyph survives the end of a frame: it was used during the frame (its
/// frame color is the current one), or it was last used less than 100 ms ago.
pub fn should_retain_glyph_entry(entry_color: bool, current_color: bool, age_millis: u128) -> (r:
    bool)
    ensures
        r == (entry_color == current_color || age_millis < 100),
{
    entry_color == current_color || age_millis < 100
}

} // verus!
