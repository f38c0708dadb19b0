use nantaraquad::api;
use nantaraquad::editor::perf::{GridCache, MemoryPool, PixelBatch};
use nantaraquad::engine::Engine;

#[test]
fn pixel_batch_applies_in_order() {
    let mut e = Engine::new();
    api::create_sprite(&mut e, 4, 4);
    let mut batch = PixelBatch::new();
    assert!(batch.is_empty());
    batch.add_change(0, 1, 1, vec![1, 1, 1, 1]);
    batch.add_change(0, 1, 1, vec![2, 2, 2, 2]);
    batch.add_change(5, 0, 0, vec![3, 3, 3, 3]);
    batch.add_change(0, 9, 9, vec![4, 4, 4, 4]);
    assert_eq!(batch.len(), 4);
    assert_eq!(batch.iter()[1].3, vec![2, 2, 2, 2]);
    batch.execute(&mut e);
    assert!(batch.is_empty());
    // the later write wins, failing writes are skipped
    assert_eq!(api::get_pixel(&e, 0, 1, 1), Some(vec![2, 2, 2, 2]));
    assert_eq!(api::sprite_count(&e), 1);
}

#[test]
fn pixel_batch_clear() {
    let mut batch = PixelBatch::default();
    batch.add_change(0, 0, 0, vec![1]);
    batch.clear();
    assert_eq!(batch.len(), 0);
}

#[test]
fn memory_pool_reuses_empty_buffers() {
    let mut pool = MemoryPool::new();
    let mut buf = pool.acquire(16);
    assert!(buf.is_empty());
    buf.extend_from_slice(&[1, 2, 3]);
    pool.release(buf);
    let again = pool.acquire(2);
    assert!(again.is_empty());
    for _ in 0..6 {
        pool.release(vec![9; 4]);
    }
    for _ in 0..6 {
        assert!(pool.acquire(1).is_empty());
    }
}

#[test]
fn grid_cache_builds_lines_and_keeps_them_near_last_zoom() {
    let mut g = GridCache::new();
    assert!(g.columns().is_empty());
    g.update_cache(256.0f32.to_bits(), 10.0f32.to_bits(), 0.0f32.to_bits(), false, 256, 10, 0);
    assert_eq!(g.columns(), &[10, 266, 522, 778][..]);
    assert_eq!(g.rows(), &[0, 256, 512][..]);
    assert_eq!(f32::from_bits(g.last_zoom()), 256.0);
    assert_eq!(f32::from_bits(g.pan_bits().0), 10.0);
    // near the last zoom and valid: nothing changes
    g.update_cache(256.005f32.to_bits(), 99.0f32.to_bits(), 0.0f32.to_bits(), true, 256, 99, 0);
    assert_eq!(g.columns(), &[10, 266, 522, 778][..]);
    assert_eq!(f32::from_bits(g.pan_bits().0), 10.0);
    // once invalidated it is rebuilt
    g.invalidate();
    g.update_cache(300.0f32.to_bits(), 0.0f32.to_bits(), 700.0f32.to_bits(), true, 300, 0, 700);
    assert_eq!(g.columns(), &[0, 300, 600, 900][..]);
    assert_eq!(g.rows(), &[700][..]);
}

#[test]
fn grid_cache_zero_size_drops_lines() {
    let mut g = GridCache::default();
    g.update_cache(8.0f32.to_bits(), 0, 0, false, 8, 1020, 765);
    assert_eq!(g.columns(), &[1020][..]);
    assert_eq!(g.rows(), &[765][..]);
    g.update_cache(0.5f32.to_bits(), 0, 0, false, 0, 0, 0);
    assert!(g.columns().is_empty());
    assert!(g.rows().is_empty());
    assert_eq!(f32::from_bits(g.last_zoom()), 0.5);
    g.update_cache(4.0f32.to_bits(), 0, 0, false, 4, 2000, -2);
    assert!(g.columns().is_empty());
    assert_eq!(g.rows().len(), 193);
    assert_eq!(g.rows()[0], -2);
    assert_eq!(*g.rows().last().unwrap(), 766);
}
