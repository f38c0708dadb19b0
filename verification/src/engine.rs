//! The sprite store: every sprite that has been registered, addressed by the
//! index it was given when added.
use vstd::prelude::*;
use crate::sprite::{SpriteData, spec_write};

verus! {

/// The pixel buffers of a list of sprites.
pub open spec fn buffers(s: Seq<SpriteData>) -> Seq<Seq<u8>> {
    s.map_values(|sp: SpriteData| sp.pixels@)
}

/// Two lists of sprites agree on everything but the pixel buffers.
pub open spec fn same_meta(a: Seq<SpriteData>, b: Seq<SpriteData>) -> bool {
    &&& a.len() == b.len()
    &&& forall|i: int| 0 <= i < a.len() ==> {
        &&& (#[trigger] a[i]).width == b[i].width
        &&& a[i].height == b[i].height
        &&& a[i].mode == b[i].mode
    }
}

/// A pixel write to sprite `id` succeeds: the id names a sprite, the pixel
/// lies on it, and the data is one pixel long.
pub open spec fn write_ok(meta: Seq<SpriteData>, id: int, x: int, y: int, data: Seq<u8>) -> bool {
    0 <= id < meta.len() && meta[id].in_bounds(x, y) && data.len() == meta[id].bpp()
}

/// The message of a failed pixel write to sprite `id`: the id names no
/// sprite, or the pixel lies off it, or else the data is the wrong size.
pub open spec fn write_error(meta: Seq<SpriteData>, id: int, x: int, y: int, data: Seq<u8>) -> Seq<char> {
    if !(0 <= id < meta.len()) {
        "Invalid sprite ID"@
    } else if !meta[id].in_bounds(x, y) {
        "Pixel out of bounds"@
    } else {
        "Invalid pixel data size"@
    }
}

/// The pixel buffers after writing `data` at `(x, y)` of sprite `id` (no
/// change when the write fails).
pub open spec fn write_result(meta: Seq<SpriteData>, bufs: Seq<Seq<u8>>, id: int, x: int, y: int, data: Seq<u8>) -> Seq<Seq<u8>> {
    if write_ok(meta, id, x, y, data) {
        bufs.update(id, spec_write(bufs[id], meta[id].offset(x, y), data))
    } else {
        bufs
    }
}

/// Registered sprites; a sprite's id is its index.
pub struct Engine {
    pub sprites: Vec<SpriteData>,
}

impl Engine {
    /// Every registered sprite is well formed.
    pub open spec fn wf(&self) -> bool {
        forall|i: int| 0 <= i < self.sprites@.len() ==> (#[trigger] self.sprites@[i]).wf()
    }

    /// An empty store.
    pub fn new() -> (e: Engine)
        ensures
            e.sprites@.len() == 0,
            e.wf(),
    {
        Engine { sprites: Vec::new() }
    }

    /// Register a sprite; its id is the number of sprites registered before.
    pub fn add_sprite(&mut self, sprite: SpriteData) -> (id: usize)
        requires
            old(self).wf(),
            sprite.wf(),
        ensures
            final(self).wf(),
            id == old(self).sprites@.len(),
            final(self).sprites@ == old(self).sprites@.push(sprite),
    {
        let id = self.sprites.len();
        self.sprites.push(sprite);
        id
    }

    /// Number of registered sprites.
    pub fn sprite_count(&self) -> (n: usize)
        ensures
            n == self.sprites@.len(),
    {
        self.sprites.len()
    }

    /// Write one pixel of sprite `id`.
    ///
    /// Fails, leaving every sprite unchanged, when `id` names no sprite, when
    /// `(x, y)` lies outside it, or when `data` is not one pixel long.
    pub fn set_pixel(&mut self, id: usize, x: u32, y: u32, data: &[u8]) -> (r: Result<(), String>)
        requires
            old(self).wf(),
        ensures
            final(self).wf(),
            final(self).sprites@.len() == old(self).sprites@.len(),
            r is Ok <==> (id < old(self).sprites@.len() && old(self).sprites@[id as int].in_bounds(
                x as int,
                y as int,
            ) && data@.len() == old(self).sprites@[id as int].bpp()),
            r is Err ==> final(self).sprites@ == old(self).sprites@,
            r matches Err(e) ==> e@ == write_error(old(self).sprites@, id as int, x as int, y as int, data@),
            same_meta(old(self).sprites@, final(self).sprites@),
            buffers(final(self).sprites@) == write_result(old(self).sprites@, buffers(old(self).sprites@),
                id as int, x as int, y as int, data@),
            r is Ok ==> final(self).sprites@ == old(self).sprites@.update(
                id as int,
                SpriteData {
                    pixels: final(self).sprites@[id as int].pixels,
                    ..old(self).sprites@[id as int]
                },
            ),
            r is Ok ==> final(self).sprites@[id as int].pixels@ == spec_write(
                old(self).sprites@[id as int].pixels@,
                old(self).sprites@[id as int].offset(x as int, y as int),
                data@,
            ),
    {
        if id >= self.sprites.len() {
            let e = String::from_str("Invalid sprite ID");
            proof {
                reveal_strlit("Invalid sprite ID");
            }
            return Err(e);
        }
        let r = self.sprites[id].set_pixel(x, y, data);
        proof {
            if r is Err {
                assert(self.sprites@ =~= old(self).sprites@);
            } else {
                assert(buffers(self.sprites@) =~= write_result(old(self).sprites@, buffers(old(self).sprites@),
                    id as int, x as int, y as int, data@));
            }
        }
        r
    }

    /// Read one pixel of sprite `id`: `None` when `id` names no sprite or
    /// `(x, y)` lies outside it.
    pub fn get_pixel(&self, id: usize, x: u32, y: u32) -> (r: Option<Vec<u8>>)
        requires
            self.wf(),
        ensures
            match r {
                None => id >= self.sprites@.len() || !self.sprites@[id as int].in_bounds(x as int, y as int),
                Some(v) => id < self.sprites@.len()
                    && self.sprites@[id as int].in_bounds(x as int, y as int)
                    && v@ == self.sprites@[id as int].pixel(x as int, y as int),
            },
    {
        if id >= self.sprites.len() {
            return None;
        }
        self.sprites[id].get_pixel(x, y)
    }
}

} // verus!
