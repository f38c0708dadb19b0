//! Painting pixels with undo and redo: a painted pixel's previous colour is
//! recorded in the history, undo writes it back, redo writes the new colour
//! again.
use vstd::prelude::*;
use crate::engine::{Engine, buffers, same_meta, write_result};
use crate::editor::history::{UndoRedoStack, PixelChange, ChangeView, spec_record, spec_undo, spec_redo};
use crate::sprite::{SpriteData, spec_write, spec_read};
use crate::paint::{cell_off, lemma_cells_disjoint};

verus! {

/// The change `paint_pixel` records for pixel `(x, y)` of sprite `id` in
/// the sprites `s`: its colour before, and `color`.
pub open spec fn paint_change(s: Seq<SpriteData>, id: int, x: u32, y: u32, color: Seq<u8>) -> ChangeView {
    (id as usize, x, y, s[id].pixel(x as int, y as int), color)
}

/// Paint pixel `(x, y)` of sprite `sprite_id` with `color` and record the
/// change: when the pixel exists its colour is read, `color` is written (a
/// write of the wrong size changes nothing) and the change from the old
/// colour to `color` is recorded; when it does not exist nothing happens.
pub fn paint_pixel(engine: &mut Engine, history: &mut UndoRedoStack, sprite_id: usize, x: u32, y: u32, color: [u8; 4])
    requires
        old(engine).wf(),
    ensures
        final(engine).wf(),
        same_meta(old(engine).sprites@, final(engine).sprites@),
        ({
            let s = old(engine).sprites@;
            let ok = sprite_id < s.len() && s[sprite_id as int].in_bounds(x as int, y as int);
            &&& ok ==> buffers(final(engine).sprites@) == write_result(s, buffers(s), sprite_id as int, x as int,
                y as int, color@)
            &&& ok ==> final(history)@ == spec_record(old(history)@, paint_change(s, sprite_id as int, x, y, color@))
            &&& !ok ==> final(engine).sprites@ == s && final(history)@ == old(history)@
        }),
{
    match engine.get_pixel(sprite_id, x, y) {
        Some(old_color) => {
            let _ = engine.set_pixel(sprite_id, x, y, color.as_slice());
            let mut new_color: Vec<u8> = Vec::new();
            new_color.push(color[0]);
            new_color.push(color[1]);
            new_color.push(color[2]);
            new_color.push(color[3]);
            assert(new_color@ =~= color@);
            history.record(PixelChange { sprite_id, x, y, old_color, new_color });
        },
        None => {
            proof {
                assert(buffers(engine.sprites@) =~= buffers(old(engine).sprites@));
            }
        },
    }
}

/// Undo the most recent paint: the change is taken off the undo stack and
/// its old colour written back (a failing write changes nothing). Returns
/// whether there was a change to undo.
pub fn undo_paint(engine: &mut Engine, history: &mut UndoRedoStack) -> (undone: bool)
    requires
        old(engine).wf(),
    ensures
        final(engine).wf(),
        same_meta(old(engine).sprites@, final(engine).sprites@),
        final(history)@ == spec_undo(old(history)@).0,
        undone == spec_undo(old(history)@).1 is Some,
        match spec_undo(old(history)@).1 {
            Some(c) => buffers(final(engine).sprites@) == write_result(old(engine).sprites@,
                buffers(old(engine).sprites@), c.0 as int, c.1 as int, c.2 as int, c.3),
            None => final(engine).sprites@ == old(engine).sprites@,
        },
{
    match history.undo() {
        Some(change) => {
            let _ = engine.set_pixel(change.sprite_id, change.x, change.y, change.old_color.as_slice());
            true
        },
        None => false,
    }
}

/// Redo the most recently undone paint: the change goes back on the undo
/// stack and its new colour is written again (a failing write changes
/// nothing). Returns whether there was a change to redo.
pub fn redo_paint(engine: &mut Engine, history: &mut UndoRedoStack) -> (redone: bool)
    requires
        old(engine).wf(),
    ensures
        final(engine).wf(),
        same_meta(old(engine).sprites@, final(engine).sprites@),
        final(history)@ == spec_redo(old(history)@).0,
        redone == spec_redo(old(history)@).1 is Some,
        match spec_redo(old(history)@).1 {
            Some(c) => buffers(final(engine).sprites@) == write_result(old(engine).sprites@,
                buffers(old(engine).sprites@), c.0 as int, c.1 as int, c.2 as int, c.4),
            None => final(engine).sprites@ == old(engine).sprites@,
        },
{
    match history.redo() {
        Some(change) => {
            let _ = engine.set_pixel(change.sprite_id, change.x, change.y, change.new_color.as_slice());
            true
        },
        None => false,
    }
}

/// Writing back what was read restores every read: after writing `c` at
/// `off` and then the `n` bytes read there before, every `n`-byte pixel
/// that lies wholly before, at, or after that one reads as before.
pub proof fn law_write_back_restores(b: Seq<u8>, off: int, n: nat, c: Seq<u8>, off2: int)
    requires
        0 <= off,
        0 <= off2,
        c.len() == n,
        off2 + n <= off || off + n <= off2 || off2 == off,
    ensures
        spec_read(spec_write(spec_write(b, off, c), off, spec_read(b, off, n)), off2, n) == spec_read(b, off2, n),
{
    let b1 = spec_write(b, off, c);
    let b2 = spec_write(b1, off, spec_read(b, off, n));
    assert forall|i: int| 0 <= i < n implies #[trigger] spec_read(b2, off2, n)[i] == spec_read(b, off2, n)[i] by {
        let k = off2 + i;
        if k < b.len() {
            assert(b2[k] == b[k]);
        } else if k < b2.len() {
            assert(b2[k] == 0u8);
        }
    }
    assert(spec_read(b2, off2, n) =~= spec_read(b, off2, n));
}

/// Painting a pixel and undoing it leaves every pixel of the sprite
/// reading as it did before the paint (the stored buffer may have grown, with
/// zeros, which read as before).
pub proof fn law_paint_undo_restores(s: SpriteData, x: int, y: int, color: Seq<u8>, i: int, j: int)
    requires
        s.wf(),
        s.in_bounds(x, y),
        s.in_bounds(i, j),
        color.len() == s.bpp(),
    ensures
        spec_read(spec_write(spec_write(s.pixels@, s.offset(x, y), color), s.offset(x, y), s.pixel(x, y)),
            s.offset(i, j), s.bpp()) == s.pixel(i, j),
{
    let w = s.width as int;
    let h = s.height as int;
    let bpp = s.bpp() as int;
    assert(s.offset(x, y) == cell_off(w, bpp, x, y));
    assert(s.offset(i, j) == cell_off(w, bpp, i, j));
    assert(0 <= cell_off(w, bpp, x, y)) by (nonlinear_arith) requires 0 <= x, 0 <= y, 0 <= w, 0 < bpp,
        cell_off(w, bpp, x, y) == (y * w + x) * bpp;
    assert(0 <= cell_off(w, bpp, i, j)) by (nonlinear_arith) requires 0 <= i, 0 <= j, 0 <= w, 0 < bpp,
        cell_off(w, bpp, i, j) == (j * w + i) * bpp;
    if i != x || j != y {
        lemma_cells_disjoint(w, h, bpp, i, j, x, y);
    }
    law_write_back_restores(s.pixels@, s.offset(x, y), s.bpp(), color, s.offset(i, j));
}

/// Undoing and then redoing a paint leaves every pixel reading as right
/// after the paint.
pub proof fn law_undo_redo_repaints(b: Seq<u8>, off: int, n: nat, c: Seq<u8>, off2: int)
    requires
        0 <= off,
        0 <= off2,
        c.len() == n,
        off2 + n <= off || off + n <= off2 || off2 == off,
    ensures
        spec_read(spec_write(spec_write(spec_write(b, off, c), off, spec_read(b, off, n)), off, c), off2, n)
            == spec_read(spec_write(b, off, c), off2, n),
{
    let b1 = spec_write(b, off, c);
    let b3 = spec_write(spec_write(b1, off, spec_read(b, off, n)), off, c);
    assert(b3 =~= b1);
}

} // verus!
