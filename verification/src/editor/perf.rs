//! Batched pixel writes, cached grid lines and a small pool of reusable
//! byte buffers.
use vstd::prelude::*;
use crate::engine::{Engine, buffers, same_meta, write_ok, write_result};
use crate::sprite::SpriteData;

verus! {

/// The pixel buffers after applying the writes `ch` in order, each as
/// `Engine::set_pixel` would (a write that fails changes nothing).
pub open spec fn batch_result(
    meta: Seq<SpriteData>,
    bufs: Seq<Seq<u8>>,
    ch: Seq<(usize, u32, u32, Seq<u8>)>,
) -> Seq<Seq<u8>>
    decreases ch.len(),
{
    if ch.len() == 0 {
        bufs
    } else {
        let c = ch.last();
        write_result(meta, batch_result(meta, bufs, ch.drop_last()), c.0 as int, c.1 as int, c.2 as int, c.3)
    }
}

/// A write depends on the sprites only through their sizes and modes.
pub proof fn lemma_write_result_meta(
    a: Seq<SpriteData>,
    b: Seq<SpriteData>,
    bufs: Seq<Seq<u8>>,
    id: int,
    x: int,
    y: int,
    data: Seq<u8>,
)
    requires
        same_meta(a, b),
    ensures
        write_ok(a, id, x, y, data) == write_ok(b, id, x, y, data),
        write_result(a, bufs, id, x, y, data) == write_result(b, bufs, id, x, y, data),
{
    if 0 <= id < a.len() {
        assert(a[id].width == b[id].width && a[id].height == b[id].height && a[id].mode == b[id].mode);
    }
}

/// A list of pending pixel writes `(sprite_id, x, y, colour)`, applied
/// together.
pub struct PixelBatch {
    changes: Vec<(usize, u32, u32, Vec<u8>)>,
}

impl View for PixelBatch {
    type V = Seq<(usize, u32, u32, Seq<u8>)>;

    closed spec fn view(&self) -> Seq<(usize, u32, u32, Seq<u8>)> {
        self.changes@.map_values(|c: (usize, u32, u32, Vec<u8>)| (c.0, c.1, c.2, c.3@))
    }
}

impl PixelBatch {
    /// An empty batch.
    pub fn new() -> (b: PixelBatch)
        ensures
            b@ == Seq::<(usize, u32, u32, Seq<u8>)>::empty(),
    {
        let b = PixelBatch { changes: Vec::new() };
        assert(b@ =~= Seq::<(usize, u32, u32, Seq<u8>)>::empty());
        b
    }

    /// Queue one pixel write at the end of the batch.
    pub fn add_change(&mut self, sprite_id: usize, x: u32, y: u32, color: Vec<u8>)
        ensures
            final(self)@ == old(self)@.push((sprite_id, x, y, color@)),
    {
        self.changes.push((sprite_id, x, y, color));
        assert(self@ =~= old(self)@.push((sprite_id, x, y, color@)));
    }

    /// Number of queued writes.
    pub fn len(&self) -> (n: usize)
        ensures
            n == self@.len(),
    {
        self.changes.len()
    }

    /// No write is queued.
    pub fn is_empty(&self) -> (r: bool)
        ensures
            r == (self@.len() == 0),
    {
        self.changes.len() == 0
    }

    /// The queued writes, in order.
    pub fn iter(&self) -> (r: &[(usize, u32, u32, Vec<u8>)])
        ensures
            r@.len() == self@.len(),
            forall|i: int| 0 <= i < r@.len() ==> {
                let c = #[trigger] r@[i];
                (c.0, c.1, c.2, c.3@) == self@[i]
            },
    {
        self.changes.as_slice()
    }

    /// Drop every queued write.
    pub fn clear(&mut self)
        ensures
            final(self)@ == Seq::<(usize, u32, u32, Seq<u8>)>::empty(),
    {
        self.changes.clear();
        assert(self@ =~= Seq::<(usize, u32, u32, Seq<u8>)>::empty());
    }

    /// Apply every queued write to the engine, in order (a write that fails
    /// is skipped), and empty the batch.
    pub fn execute(&mut self, engine: &mut Engine)
        requires
            old(engine).wf(),
        ensures
            final(engine).wf(),
            same_meta(old(engine).sprites@, final(engine).sprites@),
            buffers(final(engine).sprites@) == batch_result(old(engine).sprites@,
                buffers(old(engine).sprites@), old(self)@),
            final(self)@ == Seq::<(usize, u32, u32, Seq<u8>)>::empty(),
    {
        let ghost s0 = engine.sprites@;
        let n = self.changes.len();
        let mut i: usize = 0;
        while i < n
            invariant
                n == self.changes@.len(),
                self@ == old(self)@,
                i <= n,
                engine.wf(),
                same_meta(s0, engine.sprites@),
                buffers(engine.sprites@) == batch_result(s0, buffers(s0), old(self)@.take(i as int)),
            decreases n - i,
        {
            let ghost before = engine.sprites@;
            let c = &self.changes[i];
            let _ = engine.set_pixel(c.0, c.1, c.2, c.3.as_slice());
            proof {
                let t = old(self)@.take(i + 1);
                assert(t.drop_last() =~= old(self)@.take(i as int));
                assert(t.last() == old(self)@[i as int]);
                assert(old(self)@[i as int] == (c.0, c.1, c.2, c.3@));
                lemma_write_result_meta(before, s0, buffers(before), c.0 as int, c.1 as int, c.2 as int, c.3@);
                assert(same_meta(s0, engine.sprites@)) by {
                    assert forall|k: int| 0 <= k < s0.len() implies {
                        &&& (#[trigger] s0[k]).width == engine.sprites@[k].width
                        &&& s0[k].height == engine.sprites@[k].height
                        &&& s0[k].mode == engine.sprites@[k].mode
                    } by {
                        assert(before[k].width == s0[k].width);
                    }
                }
            }
            i = i + 1;
        }
        proof {
            assert(old(self)@.take(n as int) =~= old(self)@);
        }
        self.changes.clear();
        assert(self@ =~= Seq::<(usize, u32, u32, Seq<u8>)>::empty());
    }
}

impl Default for PixelBatch {
    fn default() -> (b: PixelBatch)
        ensures
            b@ == Seq::<(usize, u32, u32, Seq<u8>)>::empty(),
    {
        PixelBatch::new()
    }
}

/// `Vec::capacity`: how many bytes the buffer can hold without
/// reallocating; at least its length. The exact value is the allocator's
/// choice and is not stated.
#[verifier::external_body]
fn buffer_capacity(buf: &Vec<u8>) -> (n: usize)
    ensures
        n >= buf@.len(),
{
    buf.capacity()
}

/// At most this many spare buffers are kept.
pub const POOL_SLOTS: usize = 4;

/// Spare byte buffers kept for reuse; every spare buffer is empty.
pub struct MemoryPool {
    buffers: Vec<Vec<u8>>,
}

impl MemoryPool {
    /// Number of spare buffers held.
    pub closed spec fn spare(&self) -> nat {
        self.buffers@.len()
    }

    /// At most four spares are held, all empty.
    pub closed spec fn wf(&self) -> bool {
        &&& self.buffers@.len() <= POOL_SLOTS
        &&& forall|i: int| 0 <= i < self.buffers@.len() ==> (#[trigger] self.buffers@[i])@.len() == 0
    }

    /// An empty pool.
    pub fn new() -> (p: MemoryPool)
        ensures
            p.wf(),
            p.spare() == 0,
    {
        MemoryPool { buffers: Vec::with_capacity(POOL_SLOTS) }
    }

    /// An empty buffer for `size` bytes: the most recently returned spare
    /// buffer when there is one (it leaves the pool either way; it is kept
    /// as the result when it can hold `size` bytes), else a fresh one.
    pub fn acquire(&mut self, size: usize) -> (buf: Vec<u8>)
        requires
            old(self).wf(),
        ensures
            final(self).wf(),
            buf@.len() == 0,
            final(self).spare() == if old(self).spare() > 0 { old(self).spare() - 1 } else { 0 },
    {
        if let Some(buf) = self.buffers.pop() {
            if buffer_capacity(&buf) >= size {
                return buf;
            }
        }
        Vec::with_capacity(size)
    }

    /// Give a buffer back: it is emptied and kept when fewer than four
    /// spares are held, else dropped.
    pub fn release(&mut self, buffer: Vec<u8>)
        requires
            old(self).wf(),
        ensures
            final(self).wf(),
            final(self).spare() == if old(self).spare() < POOL_SLOTS { old(self).spare() + 1 } else {
                old(self).spare()
            },
    {
        let mut buffer = buffer;
        buffer.clear();
        if self.buffers.len() < POOL_SLOTS {
            self.buffers.push(buffer);
        }
    }
}

impl Default for MemoryPool {
    fn default() -> (p: MemoryPool)
        ensures
            p.wf(),
            p.spare() == 0,
    {
        MemoryPool::new()
    }
}

/// Width of the canvas area the grid covers, in pixels.
pub const GRID_AREA_WIDTH: i32 = 1024;

/// Height of the canvas area the grid covers, in pixels.
pub const GRID_AREA_HEIGHT: i32 = 768;

/// `ps` are the positions `start`, `start + step`, `start + 2 * step`, ...
/// that lie below `limit`, in that order.
pub open spec fn grid_positions(ps: Seq<i32>, start: int, step: int, limit: int) -> bool {
    &&& forall|j: int| 0 <= j < ps.len() ==> #[trigger] ps[j] == start + j * step
    &&& ps.len() == 0 ==> start >= limit
    &&& ps.len() > 0 ==> ps[ps.len() - 1] < limit && ps[ps.len() - 1] + step >= limit
}

/// Positions from `start` in steps of `step` while below `limit`.
fn positions_below(start: i32, step: i32, limit: i32) -> (ps: Vec<i32>)
    requires
        step > 0,
    ensures
        grid_positions(ps@, start as int, step as int, limit as int),
{
    let mut ps: Vec<i32> = Vec::new();
    let mut x: i64 = start as i64;
    while x < limit as i64
        invariant
            step > 0,
            x == start + ps@.len() * step,
            forall|j: int| 0 <= j < ps@.len() ==> #[trigger] ps@[j] == start + j * step,
            ps@.len() > 0 ==> ps@[ps@.len() - 1] < limit && x == ps@[ps@.len() - 1] + step,
            ps@.len() == 0 ==> x == start,
            i32::MIN <= x <= i32::MAX as int + i32::MAX as int,
        decreases limit - x + step,
    {
        let ghost n = ps@.len();
        ps.push(x as i32);
        x = x + step as i64;
        assert((n + 1) * step == n * step + step) by (nonlinear_arith);
    }
    ps
}

/// Cached grid lines of the canvas view: the columns and rows at which
/// lines are drawn, with the zoom and pan (`f32` encodings) they were made
/// for. Turning them into line end points is floating-point work done by
/// the caller.
pub struct GridCache {
    columns: Vec<i32>,
    rows: Vec<i32>,
    last_zoom: u32,
    pan_x: u32,
    pan_y: u32,
    is_valid: bool,
}

impl GridCache {
    pub closed spec fn cols(&self) -> Seq<i32> {
        self.columns@
    }

    pub closed spec fn rws(&self) -> Seq<i32> {
        self.rows@
    }

    pub closed spec fn zoom(&self) -> u32 {
        self.last_zoom
    }

    pub closed spec fn pan(&self) -> (u32, u32) {
        (self.pan_x, self.pan_y)
    }

    pub closed spec fn valid(&self) -> bool {
        self.is_valid
    }

    /// No lines, made for zoom `0.0`, not valid.
    pub fn new() -> (g: GridCache)
        ensures
            g.cols() == Seq::<i32>::empty(),
            g.rws() == Seq::<i32>::empty(),
            g.zoom() == crate::f32_bits::ZERO,
            g.pan() == (crate::f32_bits::ZERO, crate::f32_bits::ZERO),
            !g.valid(),
    {
        GridCache {
            columns: Vec::new(),
            rows: Vec::new(),
            last_zoom: crate::f32_bits::ZERO,
            pan_x: crate::f32_bits::ZERO,
            pan_y: crate::f32_bits::ZERO,
            is_valid: false,
        }
    }

    /// Zoom the lines were last made for.
    pub fn last_zoom(&self) -> (z: u32)
        ensures
            z == self.zoom(),
    {
        self.last_zoom
    }

    /// Bring the lines up to date for `zoom` and pan (`f32` encodings).
    /// `near_last` is whether the zoom lies within `0.01` of the last one;
    /// `grid_size`, `start_x` and `start_y` are the zoom and the pan as
    /// whole pixels. A valid cache near the last zoom is kept as it is.
    /// Otherwise the lines are dropped and the zoom recorded; with a grid
    /// size of one pixel or more, columns run from `start_x` and rows from
    /// `start_y` in steps of the grid size across the 1024 by 768 area, the
    /// pan is recorded and the cache becomes valid.
    pub fn update_cache(
        &mut self,
        zoom: u32,
        pan_x: u32,
        pan_y: u32,
        near_last: bool,
        grid_size: i32,
        start_x: i32,
        start_y: i32,
    )
        ensures
            near_last && old(self).valid() ==> *final(self) == *old(self),
            !(near_last && old(self).valid()) ==> {
                &&& final(self).zoom() == zoom
                &&& grid_size <= 0 ==> final(self).cols() == Seq::<i32>::empty() && final(self).rws()
                    == Seq::<i32>::empty() && final(self).valid() == old(self).valid() && final(self).pan()
                    == old(self).pan()
                &&& grid_size > 0 ==> grid_positions(final(self).cols(), start_x as int, grid_size as int, 1024)
                    && grid_positions(final(self).rws(), start_y as int, grid_size as int, 768) && final(self).valid()
                    && final(self).pan() == (pan_x, pan_y)
            },
    {
        if near_last && self.is_valid {
            return;
        }
        self.columns.clear();
        self.rows.clear();
        self.last_zoom = zoom;
        if grid_size <= 0 {
            return;
        }
        self.columns = positions_below(start_x, grid_size, GRID_AREA_WIDTH);
        self.rows = positions_below(start_y, grid_size, GRID_AREA_HEIGHT);
        self.pan_x = pan_x;
        self.pan_y = pan_y;
        self.is_valid = true;
    }

    /// Columns of the vertical lines, left to right.
    pub fn columns(&self) -> (c: &[i32])
        ensures
            c@ == self.cols(),
    {
        self.columns.as_slice()
    }

    /// Rows of the horizontal lines, top to bottom.
    pub fn rows(&self) -> (r: &[i32])
        ensures
            r@ == self.rws(),
    {
        self.rows.as_slice()
    }

    /// Pan (`f32` encodings) the lines were made for.
    pub fn pan_bits(&self) -> (p: (u32, u32))
        ensures
            p == self.pan(),
    {
        (self.pan_x, self.pan_y)
    }

    /// Mark the cache out of date.
    pub fn invalidate(&mut self)
        ensures
            !final(self).valid(),
            final(self).cols() == old(self).cols(),
            final(self).rws() == old(self).rws(),
            final(self).zoom() == old(self).zoom(),
            final(self).pan() == old(self).pan(),
    {
        self.is_valid = false;
    }
}

impl Default for GridCache {
    fn default() -> (g: GridCache)
        ensures
            g.cols() == Seq::<i32>::empty(),
            g.rws() == Seq::<i32>::empty(),
            !g.valid(),
    {
        GridCache::new()
    }
}

} // verus!
