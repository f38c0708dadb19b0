//! Composite cache: the last layer-composite result, a dirty flag that
//! invalidates it, and hit / miss statistics.
use vstd::prelude::*;
use crate::sprite::SpriteData;

verus! {

/// Cache statistics.
#[derive(Clone, Debug)]
pub struct CacheStats {
    /// Number of composites stored.
    pub compose_count: u64,
    /// Number of lookups that found a valid entry.
    pub hit_count: u64,
    /// Number of lookups that found none.
    pub miss_count: u64,
}

impl Default for CacheStats {
    fn default() -> (s: CacheStats)
        ensures
            s.compose_count == 0 && s.hit_count == 0 && s.miss_count == 0,
    {
        CacheStats { compose_count: 0, hit_count: 0, miss_count: 0 }
    }
}

/// Cache of one composite sprite.
pub struct CompositeCache {
    cached: Option<SpriteData>,
    is_dirty: bool,
    stats: CacheStats,
}

impl CompositeCache {
    /// The stored composite, if any.
    pub closed spec fn entry(&self) -> Option<SpriteData> {
        self.cached
    }

    /// The stored composite must be recomputed.
    pub closed spec fn dirty(&self) -> bool {
        self.is_dirty
    }

    /// The statistics so far.
    pub closed spec fn counters(&self) -> CacheStats {
        self.stats
    }

    /// A lookup would hit: a composite is stored and not invalidated.
    pub open spec fn valid(&self) -> bool {
        !self.dirty() && self.entry() is Some
    }

    /// An empty cache with zero statistics.
    pub fn new() -> (c: CompositeCache)
        ensures
            c.entry() is None,
            c.dirty(),
            c.counters() == (CacheStats { compose_count: 0, hit_count: 0, miss_count: 0 }),
    {
        CompositeCache { cached: None, is_dirty: true, stats: CacheStats::default() }
    }

    /// The cache holds a composite that is still valid.
    pub fn is_valid(&self) -> (b: bool)
        ensures
            b == self.valid(),
    {
        !self.is_dirty && self.cached.is_some()
    }

    /// Look up the composite: on a valid entry count a hit and return it,
    /// otherwise count a miss and return `None`.
    pub fn get(&mut self) -> (r: Option<&SpriteData>)
        requires
            old(self).valid() ==> old(self).counters().hit_count < u64::MAX,
            !old(self).valid() ==> old(self).counters().miss_count < u64::MAX,
        ensures
            final(self).entry() == old(self).entry(),
            final(self).dirty() == old(self).dirty(),
            final(self).counters().compose_count == old(self).counters().compose_count,
            old(self).valid() ==> r == Some(&old(self).entry().unwrap())
                && final(self).counters().hit_count == old(self).counters().hit_count + 1
                && final(self).counters().miss_count == old(self).counters().miss_count,
            !old(self).valid() ==> r is None
                && final(self).counters().hit_count == old(self).counters().hit_count
                && final(self).counters().miss_count == old(self).counters().miss_count + 1,
    {
        if self.is_valid() {
            self.stats.hit_count = self.stats.hit_count + 1;
            self.cached.as_ref()
        } else {
            self.stats.miss_count = self.stats.miss_count + 1;
            None
        }
    }

    /// Store a freshly computed composite: the entry becomes valid and a
    /// composition is counted.
    pub fn set(&mut self, sprite: SpriteData)
        requires
            old(self).counters().compose_count < u64::MAX,
        ensures
            final(self).entry() == Some(sprite),
            !final(self).dirty(),
            final(self).counters() == (CacheStats {
                compose_count: (old(self).counters().compose_count + 1) as u64,
                ..old(self).counters()
            }),
    {
        self.cached = Some(sprite);
        self.is_dirty = false;
        self.stats.compose_count = self.stats.compose_count + 1;
    }

    /// Mark the entry stale (a layer changed); it is kept but no longer
    /// returned.
    pub fn invalidate(&mut self)
        ensures
            final(self).entry() == old(self).entry(),
            final(self).dirty(),
            final(self).counters() == old(self).counters(),
    {
        self.is_dirty = true;
    }

    /// Drop the entry.
    pub fn clear(&mut self)
        ensures
            final(self).entry() is None,
            final(self).dirty(),
            final(self).counters() == old(self).counters(),
    {
        self.cached = None;
        self.is_dirty = true;
    }

    /// The stored composite, valid or not.
    pub fn cached(&self) -> (r: Option<&SpriteData>)
        ensures
            match r {
                Some(s) => self.entry() == Some(*s),
                None => self.entry() is None,
            },
    {
        self.cached.as_ref()
    }

    /// A copy of the statistics.
    pub fn stats(&self) -> (s: CacheStats)
        ensures
            s == self.counters(),
    {
        CacheStats {
            compose_count: self.stats.compose_count,
            hit_count: self.stats.hit_count,
            miss_count: self.stats.miss_count,
        }
    }

    /// Zero the statistics.
    pub fn reset_stats(&mut self)
        ensures
            final(self).entry() == old(self).entry(),
            final(self).dirty() == old(self).dirty(),
            final(self).counters() == (CacheStats { compose_count: 0, hit_count: 0, miss_count: 0 }),
    {
        self.stats = CacheStats::default();
    }

    /// Rough memory use in bytes: the stored pixel bytes plus 128 for the
    /// metadata, or 0 with no entry.
    pub fn estimated_size(&self) -> (n: usize)
        requires
            self.entry() matches Some(s) ==> s.pixels@.len() + 128 <= usize::MAX,
        ensures
            n == (match self.entry() {
                Some(s) => s.pixels@.len() + 128,
                None => 0,
            }),
    {
        match &self.cached {
            Some(s) => s.pixels.len() + 128,
            None => 0,
        }
    }
}

impl Default for CompositeCache {
    fn default() -> (c: CompositeCache)
        ensures
            c.entry() is None,
            c.dirty(),
            c.counters() == (CacheStats { compose_count: 0, hit_count: 0, miss_count: 0 }),
    {
        CompositeCache::new()
    }
}

/// Caching strategy.
#[derive(Clone, Copy, Debug, PartialEq, Eq, Structural)]
pub enum CacheStrategy {
    /// Keep only the latest composite.
    Simple,
}

impl Default for CacheStrategy {
    fn default() -> (s: CacheStrategy)
        ensures
            s == CacheStrategy::Simple,
    {
        CacheStrategy::Simple
    }
}

} // verus!
