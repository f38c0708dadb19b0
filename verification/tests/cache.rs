use nantaraquad::editor::cache::CompositeCache;
use nantaraquad::sprite::{ColorMode, SpriteData};

#[test]
fn test_cache_creation() {
    let mut cache = CompositeCache::new();
    assert!(!cache.is_valid());
    assert!(cache.get().is_none());
}

#[test]
fn test_cache_set_and_get() {
    let mut cache = CompositeCache::new();
    let sprite = SpriteData::new(32, 32, ColorMode::FullColor);

    cache.set(sprite.clone());
    assert!(cache.is_valid());
    assert!(cache.get().is_some());
}

#[test]
fn test_cache_invalidate() {
    let mut cache = CompositeCache::new();
    let sprite = SpriteData::new(32, 32, ColorMode::FullColor);

    cache.set(sprite);
    assert!(cache.is_valid());

    cache.invalidate();
    assert!(!cache.is_valid());
    assert!(cache.get().is_none());
}

#[test]
fn test_cache_stats() {
    let mut cache = CompositeCache::new();
    let sprite = SpriteData::new(32, 32, ColorMode::FullColor);

    cache.set(sprite);
    let _ = cache.get(); // hit
    let _ = cache.get(); // hit

    cache.invalidate();
    let _ = cache.get(); // miss

    let stats = cache.stats();
    assert_eq!(stats.compose_count, 1);
    assert_eq!(stats.hit_count, 2);
    assert_eq!(stats.miss_count, 1);
}

#[test]
fn test_cache_clear() {
    let mut cache = CompositeCache::new();
    let sprite = SpriteData::new(32, 32, ColorMode::FullColor);

    cache.set(sprite);
    assert!(cache.is_valid());

    cache.clear();
    assert!(!cache.is_valid());
    assert!(cache.cached().is_none());
}

#[test]
fn test_estimated_size() {
    let mut cache = CompositeCache::new();
    assert_eq!(cache.estimated_size(), 0);

    let sprite = SpriteData::new(32, 32, ColorMode::FullColor);
    cache.set(sprite);

    let size = cache.estimated_size();
    assert!(size > 0); // 32 * 32 * 4 + overhead
}
