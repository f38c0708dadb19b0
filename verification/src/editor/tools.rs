//! Editing tools on engine sprites: eraser, bucket fill, colour picker.
use vstd::prelude::*;
use std::collections::HashSet;
use crate::engine::{Engine, buffers, same_meta, write_error, write_ok, write_result};
use crate::paint::{cell_off, painted_cells, lemma_cells_refl, lemma_cells_ext, lemma_cells_step, lemma_cells_unpainted};
use vstd::set_lib::{set_int_range, lemma_int_range};
use crate::sprite::SpriteData;

verus! {

broadcast use vstd::std_specs::hash::group_hash_axioms;

/// Tool kinds.
#[derive(Clone, Copy, Debug, PartialEq, Eq, Structural)]
pub enum ToolType {
    Pencil,
    Eraser,
    BucketFill,
}

/// The tools of the editor's tool bar.
#[derive(Clone, Copy, Debug, PartialEq, Eq, Structural)]
pub enum EditorTool {
    Pencil,
    Eraser,
    Fill,
    ColorPicker,
}

/// The transparent colour the eraser writes.
pub open spec fn clear_color() -> Seq<u8> {
    seq![0u8, 0u8, 0u8, 0u8]
}

/// The engine's sprites after only sprite `id`'s buffer was painted with
/// `region` in colour `c`: every other sprite and all metadata unchanged.
pub open spec fn engine_painted(
    old: Seq<SpriteData>,
    new: Seq<SpriteData>,
    id: int,
    region: spec_fn(int, int) -> bool,
    c: Seq<u8>,
) -> bool {
    &&& same_meta(old, new)
    &&& 0 <= id < old.len()
    &&& forall|k: int| 0 <= k < old.len() && k != id ==> #[trigger] new[k].pixels@ == old[k].pixels@
    &&& painted_cells(old[id].pixels@, new[id].pixels@, old[id].width as int, old[id].height as int,
            old[id].bpp() as int, region, c)
}

/// Eraser.
pub struct EraserTool;

impl EraserTool {
    /// Erase one pixel (write transparent `[0, 0, 0, 0]`); fails, changing
    /// nothing, on a bad id, a pixel off the sprite, or a sprite that is not
    /// full-colour.
    pub fn erase(engine: &mut Engine, sprite_id: usize, x: u32, y: u32) -> (r: Result<(), String>)
        requires
            old(engine).wf(),
        ensures
            final(engine).wf(),
            r is Ok <==> write_ok(old(engine).sprites@, sprite_id as int, x as int, y as int, clear_color()),
            r is Err ==> final(engine).sprites@ == old(engine).sprites@,
            r matches Err(e) ==> e@ == write_error(old(engine).sprites@, sprite_id as int, x as int, y as int, clear_color()),
            same_meta(old(engine).sprites@, final(engine).sprites@),
            buffers(final(engine).sprites@) == write_result(old(engine).sprites@, buffers(old(engine).sprites@),
                sprite_id as int, x as int, y as int, clear_color()),
    {
        let data: [u8; 4] = [0u8, 0u8, 0u8, 0u8];
        assert(data@ =~= clear_color());
        engine.set_pixel(sprite_id, x, y, data.as_slice())
    }

    /// Erase the pixel `(x, y)` of a full-colour sprite, extending the region
    /// erased so far; on failure nothing changes.
    fn erase_step(
        engine: &mut Engine,
        sprite_id: usize,
        x: u32,
        y: u32,
        Ghost(o): Ghost<Seq<SpriteData>>,
        Ghost(region): Ghost<spec_fn(int, int) -> bool>,
        Ghost(next): Ghost<spec_fn(int, int) -> bool>,
    ) -> (r: Result<(), String>)
        requires
            old(engine).wf(),
            engine_painted(o, old(engine).sprites@, sprite_id as int, region, clear_color()),
            o[sprite_id as int].bpp() == 4,
            forall|i: int, j: int| #[trigger] next(i, j) == (region(i, j) || (i == x && j == y)),
        ensures
            final(engine).wf(),
            r is Ok <==> o[sprite_id as int].in_bounds(x as int, y as int),
            r is Ok ==> engine_painted(o, final(engine).sprites@, sprite_id as int, next, clear_color()),
            r is Err ==> final(engine).sprites@ == old(engine).sprites@,
            r matches Err(e) ==> e@ == "Pixel out of bounds"@,
    {
        let ghost before = old(engine).sprites@;
        let r = Self::erase(engine, sprite_id, x, y);
        proof {
            let id = sprite_id as int;
            if r is Ok {
                assert(buffers(engine.sprites@)[id] == engine.sprites@[id].pixels@);
                assert(buffers(before)[id] == before[id].pixels@);
                assert(before[id].offset(x as int, y as int) == cell_off(o[id].width as int, 4, x as int, y as int));
                lemma_cells_step(o[id].pixels@, before[id].pixels@, engine.sprites@[id].pixels@,
                    o[id].width as int, o[id].height as int, 4, region, clear_color(), x as int, y as int);
                lemma_cells_ext(o[id].pixels@, engine.sprites@[id].pixels@, o[id].width as int, o[id].height as int, 4,
                    |i: int, j: int| region(i, j) || (i == x as int && j == y as int), next, clear_color());
                assert forall|k: int| 0 <= k < o.len() && k != id implies
                    #[trigger] engine.sprites@[k].pixels@ == o[k].pixels@ by {
                    assert(buffers(engine.sprites@)[k] == buffers(before)[k]);
                }
            } else {
                assert(buffers(engine.sprites@) == buffers(before));
            }
        }
        r
    }

    /// Erase the rectangle spanned by the two corners, row by row from the
    /// top left; stops at the first pixel that cannot be erased, returning
    /// its error with the pixels before it erased. On a full-colour sprite
    /// that error is `Pixel out of bounds`; on a missing or other sprite the
    /// first erase, at the top-left corner, fails with `erase`'s error.
    pub fn erase_rect(engine: &mut Engine, sprite_id: usize, x1: u32, y1: u32, x2: u32, y2: u32) -> (r: Result<(), String>)
        requires
            old(engine).wf(),
        ensures
            final(engine).wf(),
            ({
                let s = old(engine).sprites@;
                let ok = sprite_id < s.len() && s[sprite_id as int].bpp() == 4;
                let lo_x = if x1 <= x2 { x1 as int } else { x2 as int };
                let hi_x = if x1 <= x2 { x2 as int } else { x1 as int };
                let lo_y = if y1 <= y2 { y1 as int } else { y2 as int };
                let hi_y = if y1 <= y2 { y2 as int } else { y1 as int };
                &&& r is Ok <==> (ok && hi_x < s[sprite_id as int].width && hi_y < s[sprite_id as int].height)
                &&& r matches Err(e) ==> e@ == (if ok {
                    "Pixel out of bounds"@
                } else {
                    write_error(s, sprite_id as int, lo_x, lo_y, clear_color())
                })
                &&& !ok ==> final(engine).sprites@ == s
                &&& ok ==> engine_painted(s, final(engine).sprites@, sprite_id as int,
                    erased_region(lo_x, hi_x, lo_y, hi_y, s[sprite_id as int].width as int), clear_color())
            }),
    {
        let ghost s = engine.sprites@;
        let min_x = if x1 <= x2 { x1 } else { x2 };
        let max_x = if x1 <= x2 { x2 } else { x1 };
        let min_y = if y1 <= y2 { y1 } else { y2 };
        let max_y = if y1 <= y2 { y2 } else { y1 };
        if sprite_id >= engine.sprites.len() || engine.sprites[sprite_id].bytes_per_pixel() != 4 {
            // The first erase fails and changes nothing.
            let r = Self::erase(engine, sprite_id, min_x, min_y);
            return r;
        }
        let ghost id = sprite_id as int;
        let ghost w = s[id].width as int;
        let ghost h = s[id].height as int;
        proof {
            lemma_cells_refl(s[id].pixels@, w, h, 4, clear_color());
            assert(engine_painted(s, engine.sprites@, id, erase_done(min_x as int, max_x as int, min_y as int, min_y as int, min_x as int), clear_color()));
        }
        let mut y: u32 = min_y;
        loop
            invariant_except_break
                engine.wf(),
                id == sprite_id,
                s == old(engine).sprites@,
                0 <= id < s.len(),
                s[id].bpp() == 4,
                w == s[id].width,
                h == s[id].height,
                min_x <= max_x,
                min_y <= y <= max_y,
                min_x == (if x1 <= x2 { x1 } else { x2 }),
                max_x == (if x1 <= x2 { x2 } else { x1 }),
                min_y == (if y1 <= y2 { y1 } else { y2 }),
                max_y == (if y1 <= y2 { y2 } else { y1 }),
                y > min_y ==> max_x < w && y - 1 < h,
                engine_painted(s, engine.sprites@, id, erase_done(min_x as int, max_x as int, min_y as int, y as int, min_x as int), clear_color()),
            ensures
                engine.wf(),
                max_x < w && max_y < h,
                engine_painted(s, engine.sprites@, id, erase_done(min_x as int, max_x as int, min_y as int, max_y + 1, min_x as int), clear_color()),
            decreases max_y - y,
        {
            let mut x: u32 = min_x;
            loop
                invariant_except_break
                    engine.wf(),
                    id == sprite_id,
                    s == old(engine).sprites@,
                    0 <= id < s.len(),
                    s[id].bpp() == 4,
                    w == s[id].width,
                    h == s[id].height,
                    min_x <= x <= max_x,
                    min_y <= y <= max_y,
                    min_x == (if x1 <= x2 { x1 } else { x2 }),
                    max_x == (if x1 <= x2 { x2 } else { x1 }),
                    min_y == (if y1 <= y2 { y1 } else { y2 }),
                    max_y == (if y1 <= y2 { y2 } else { y1 }),
                    y > min_y ==> max_x < w && y - 1 < h,
                    x > min_x ==> x - 1 < w && y < h,
                    engine_painted(s, engine.sprites@, id, erase_done(min_x as int, max_x as int, min_y as int, y as int, x as int), clear_color()),
                ensures
                    engine.wf(),
                    max_x < w && y < h,
                    engine_painted(s, engine.sprites@, id, erase_done(min_x as int, max_x as int, min_y as int, y + 1, min_x as int), clear_color()),
                decreases max_x - x,
            {
                let r = Self::erase_step(engine, sprite_id, x, y, Ghost(s),
                    Ghost(erase_done(min_x as int, max_x as int, min_y as int, y as int, x as int)),
                    Ghost(erase_done(min_x as int, max_x as int, min_y as int, y as int, x + 1)));
                if r.is_err() {
                    proof {
                        assert(x >= w || y >= h);
                        assert forall|i: int, j: int| 0 <= i < w && 0 <= j < h implies
                            #[trigger] erase_done(min_x as int, max_x as int, min_y as int, y as int, x as int)(i, j)
                                == erased_region(min_x as int, max_x as int, min_y as int, max_y as int, w)(i, j) by {
                            if y > min_y {
                                assert(y >= h);
                                assert(x == min_x);
                            } else {
                                if y >= h {
                                } else {
                                    assert(x >= w);
                                }
                            }
                        }
                        lemma_cells_ext(s[id].pixels@, engine.sprites@[id].pixels@, w, h, 4,
                            erase_done(min_x as int, max_x as int, min_y as int, y as int, x as int),
                            erased_region(min_x as int, max_x as int, min_y as int, max_y as int, w), clear_color());
                        assert(r is Err);
                        assert(!(max_x < w && max_y < h));
                        assert(engine_painted(s, engine.sprites@, id,
                            erased_region(min_x as int, max_x as int, min_y as int, max_y as int, w), clear_color()));
                    }
                    return r;
                }
                if x == max_x {
                    proof {
                        lemma_cells_ext(s[id].pixels@, engine.sprites@[id].pixels@, w, h, 4,
                            erase_done(min_x as int, max_x as int, min_y as int, y as int, x + 1),
                            erase_done(min_x as int, max_x as int, min_y as int, y + 1, min_x as int), clear_color());
                    }
                    break;
                }
                x = x + 1;
            }
            if y == max_y {
                break;
            }
            y = y + 1;
        }
        proof {
            lemma_cells_ext(s[id].pixels@, engine.sprites@[id].pixels@, w, h, 4,
                erase_done(min_x as int, max_x as int, min_y as int, max_y + 1, min_x as int),
                erased_region(min_x as int, max_x as int, min_y as int, max_y as int, w), clear_color());
        }
        Ok(())
    }
}

/// The cells of the rectangle `lo_x..=hi_x` processed before `(x, y)` in
/// row-major order from row `lo_y`.
pub open spec fn erase_done(lo_x: int, hi_x: int, lo_y: int, y: int, x: int) -> spec_fn(int, int) -> bool {
    |i: int, j: int| lo_x <= i <= hi_x && ((lo_y <= j < y) || (j == y && lo_x <= i < x))
}

/// The pixels `erase_rect` erases on a sprite `w` pixels wide (rows past
/// the sprite end the erasing; so does the first column past it, which is
/// met on the first row).
pub open spec fn erased_region(lo_x: int, hi_x: int, lo_y: int, hi_y: int, w: int) -> spec_fn(int, int) -> bool {
    |i: int, j: int| lo_x <= i <= hi_x && lo_y <= j <= hi_y && i < w && (hi_x < w || j == lo_y)
}

/// Byte-wise equality of two byte strings.
pub fn bytes_eq(a: &[u8], b: &[u8]) -> (r: bool)
    ensures
        r == (a@ == b@),
{
    if a.len() != b.len() {
        return false;
    }
    let mut i: usize = 0;
    while i < a.len()
        invariant
            a@.len() == b@.len(),
            i <= a@.len(),
            forall|k: int| 0 <= k < i ==> a@[k] == b@[k],
        decreases a@.len() - i,
    {
        if a[i] != b[i] {
            return false;
        }
        i = i + 1;
    }
    assert(a@ =~= b@);
    true
}

/// Key of cell `(x, y)` in the set of visited cells.
pub open spec fn key_of(x: int, y: int) -> int {
    x * 4294967296 + y
}

fn cell_key(x: u32, y: u32) -> (k: u64)
    ensures
        k == key_of(x as int, y as int),
{
    (x as u64) * 4294967296u64 + (y as u64)
}

/// Distinct cells with `u32` coordinates have distinct keys.
pub proof fn lemma_key_injective(a: int, b: int, c: int, d: int)
    requires
        0 <= a < 4294967296,
        0 <= b < 4294967296,
        0 <= c < 4294967296,
        0 <= d < 4294967296,
        key_of(a, b) == key_of(c, d),
    ensures
        a == c && b == d,
{
    assert(a == c) by (nonlinear_arith)
        requires 0 <= b < 4294967296, 0 <= d < 4294967296, a * 4294967296 + b == c * 4294967296 + d;
}

/// A flood fill may enter cell `(x, y)`: it lies in the `gw` by `gh` fill
/// area and is either off the sprite or of the starting colour `orig` in
/// the sprite `s` as it was before the fill.
pub open spec fn fill_passable(s: SpriteData, orig: Seq<u8>, gw: int, gh: int, x: int, y: int) -> bool {
    0 <= x < gw && 0 <= y < gh && (!s.in_bounds(x, y) || s.pixel(x, y) == orig)
}

/// Cells `a` and `b` are 4-neighbours.
pub open spec fn adjacent(a: (int, int), b: (int, int)) -> bool {
    (a.0 == b.0 && (a.1 == b.1 + 1 || b.1 == a.1 + 1)) || (a.1 == b.1 && (a.0 == b.0 + 1 || b.0 == a.0 + 1))
}

/// A walk of passable cells, each a 4-neighbour of the one before.
pub open spec fn fill_path(s: SpriteData, orig: Seq<u8>, gw: int, gh: int, p: Seq<(int, int)>) -> bool {
    &&& p.len() > 0
    &&& forall|k: int| 0 <= k < p.len() ==> fill_passable(s, orig, gw, gh, (#[trigger] p[k]).0, p[k].1)
    &&& forall|k: int| 0 <= k < p.len() - 1 ==> adjacent(#[trigger] p[k], p[k + 1])
}

/// The cells a flood fill from `(sx, sy)` reaches: those joined to the start
/// by a walk of passable cells.
pub open spec fn fill_region(s: SpriteData, orig: Seq<u8>, gw: int, gh: int, sx: int, sy: int) -> spec_fn(int, int) -> bool {
    |i: int, j: int| exists|p: Seq<(int, int)>| #[trigger] fill_path(s, orig, gw, gh, p) && p[0] == (sx, sy) && p.last() == (i, j)
}

/// The reachable cells are closed under stepping to a passable neighbour.
pub proof fn lemma_reach_extend(s: SpriteData, orig: Seq<u8>, gw: int, gh: int, sx: int, sy: int, a: (int, int), b: (int, int))
    requires
        fill_region(s, orig, gw, gh, sx, sy)(a.0, a.1),
        fill_passable(s, orig, gw, gh, b.0, b.1),
        adjacent(a, b),
    ensures
        fill_region(s, orig, gw, gh, sx, sy)(b.0, b.1),
{
    let p = choose|p: Seq<(int, int)>| #[trigger] fill_path(s, orig, gw, gh, p) && p[0] == (sx, sy) && p.last() == (a.0, a.1);
    let q = p.push(b);
    assert forall|k: int| 0 <= k < q.len() - 1 implies adjacent(#[trigger] q[k], q[k + 1]) by {
        if k < p.len() - 1 {
            assert(q[k] == p[k] && q[k + 1] == p[k + 1]);
        }
    }
    assert(fill_path(s, orig, gw, gh, q));
    assert(q.last() == (b.0, b.1));
}

/// The cells visited so far (by key) that the fill may enter: the cells it
/// has painted.
pub open spec fn fill_done(vk: Set<int>, s: SpriteData, orig: Seq<u8>, gw: int, gh: int) -> spec_fn(int, int) -> bool {
    |i: int, j: int| 0 <= i < 4294967296 && 0 <= j < 4294967296 && vk.contains(key_of(i, j))
        && fill_passable(s, orig, gw, gh, i, j)
}

/// Cell `(a, b)` has been visited or is waiting on the stack.
pub open spec fn covered(vk: Set<int>, st: Seq<(u32, u32)>, a: int, b: int) -> bool {
    vk.contains(key_of(a, b)) || st.contains((a as u32, b as u32))
}

/// Every in-area neighbour of cell `(i, j)` has been visited or is waiting.
pub open spec fn neighbours_covered(vk: Set<int>, st: Seq<(u32, u32)>, gw: int, gh: int, i: int, j: int) -> bool {
    &&& i > 0 ==> covered(vk, st, i - 1, j)
    &&& i < gw - 1 ==> covered(vk, st, i + 1, j)
    &&& j > 0 ==> covered(vk, st, i, j - 1)
    &&& j < gh - 1 ==> covered(vk, st, i, j + 1)
}

/// With nothing waiting, every cell of a walk from a visited start is
/// visited (the neighbours of visited passable cells being visited too).
pub proof fn lemma_walk_visited(
    vk: Set<int>,
    s: SpriteData,
    orig: Seq<u8>,
    gw: int,
    gh: int,
    p: Seq<(int, int)>,
    k: int,
)
    requires
        gw <= 4294967296,
        gh <= 4294967296,
        fill_path(s, orig, gw, gh, p),
        vk.contains(key_of(p[0].0, p[0].1)),
        forall|i: int, j: int| 0 <= i < gw && 0 <= j < gh && #[trigger] vk.contains(key_of(i, j))
            && fill_passable(s, orig, gw, gh, i, j) ==> neighbours_covered(vk, Seq::empty(), gw, gh, i, j),
        0 <= k < p.len(),
    ensures
        vk.contains(key_of(p[k].0, p[k].1)),
    decreases k,
{
    if k > 0 {
        lemma_walk_visited(vk, s, orig, gw, gh, p, k - 1);
        let a = p[k - 1];
        let b = p[k];
        assert(adjacent(p[k - 1], p[k]));
        assert(fill_passable(s, orig, gw, gh, a.0, a.1));
        assert(fill_passable(s, orig, gw, gh, b.0, b.1));
        assert(neighbours_covered(vk, Seq::empty(), gw, gh, a.0, a.1));
    }
}

/// Keys of distinct cells differ, so adding the key of `(x, y)` to the
/// visited keys adds exactly that cell (when the fill may enter it).
pub proof fn lemma_fill_done_insert(vk: Set<int>, s: SpriteData, orig: Seq<u8>, gw: int, gh: int, x: int, y: int)
    requires
        0 <= x < 4294967296,
        0 <= y < 4294967296,
    ensures
        forall|i: int, j: int| #[trigger] fill_done(vk.insert(key_of(x, y)), s, orig, gw, gh)(i, j)
            == (fill_done(vk, s, orig, gw, gh)(i, j) || (i == x && j == y && fill_passable(s, orig, gw, gh, x, y))),
{
    assert forall|i: int, j: int| #[trigger] fill_done(vk.insert(key_of(x, y)), s, orig, gw, gh)(i, j)
        == (fill_done(vk, s, orig, gw, gh)(i, j) || (i == x && j == y && fill_passable(s, orig, gw, gh, x, y))) by {
        if 0 <= i < 4294967296 && 0 <= j < 4294967296 && key_of(i, j) == key_of(x, y) {
            lemma_key_injective(i, j, x, y);
        }
    }
}

/// A cell that was covered before `c` was taken off the stack is still
/// covered once `c` is visited, whatever is pushed afterwards.
pub proof fn lemma_cov_step(
    vk: Set<int>,
    st: Seq<(u32, u32)>,
    c: (u32, u32),
    vk2: Set<int>,
    st2: Seq<(u32, u32)>,
    a: int,
    b: int,
)
    requires
        covered(vk, st.push(c), a, b),
        0 <= a < 4294967296,
        0 <= b < 4294967296,
        forall|k: int| #[trigger] vk.contains(k) ==> vk2.contains(k),
        vk2.contains(key_of(c.0 as int, c.1 as int)),
        st.len() <= st2.len(),
        forall|t: int| 0 <= t < st.len() ==> st2[t] == st[t],
    ensures
        covered(vk2, st2, a, b),
{
    if !vk.contains(key_of(a, b)) {
        let e = (a as u32, b as u32);
        let t = choose|t: int| 0 <= t < st.push(c).len() && st.push(c)[t] == e;
        if t < st.len() {
            assert(st2[t] == e);
        } else {
            assert(e == c);
            assert(a == c.0 as int && b == c.1 as int);
        }
    }
}

/// `neighbours_covered` carries over from before `c` was taken off the
/// stack to after it was visited.
pub proof fn lemma_nc_step(
    vk: Set<int>,
    st: Seq<(u32, u32)>,
    c: (u32, u32),
    vk2: Set<int>,
    st2: Seq<(u32, u32)>,
    gw: int,
    gh: int,
    i: int,
    j: int,
)
    requires
        neighbours_covered(vk, st.push(c), gw, gh, i, j),
        0 <= i < gw <= 4294967296,
        0 <= j < gh <= 4294967296,
        forall|k: int| #[trigger] vk.contains(k) ==> vk2.contains(k),
        vk2.contains(key_of(c.0 as int, c.1 as int)),
        st.len() <= st2.len(),
        forall|t: int| 0 <= t < st.len() ==> st2[t] == st[t],
    ensures
        neighbours_covered(vk2, st2, gw, gh, i, j),
{
    if i > 0 {
        lemma_cov_step(vk, st, c, vk2, st2, i - 1, j);
    }
    if i < gw - 1 {
        lemma_cov_step(vk, st, c, vk2, st2, i + 1, j);
    }
    if j > 0 {
        lemma_cov_step(vk, st, c, vk2, st2, i, j - 1);
    }
    if j < gh - 1 {
        lemma_cov_step(vk, st, c, vk2, st2, i, j + 1);
    }
}

/// The bookkeeping of the fill survives visiting `c`: every visited cell the
/// fill may enter has its neighbours visited or waiting, and the start is
/// covered.
pub proof fn lemma_visit_keeps_cover(
    vk: Set<int>,
    st: Seq<(u32, u32)>,
    c: (u32, u32),
    st2: Seq<(u32, u32)>,
    s: SpriteData,
    orig: Seq<u8>,
    gw: int,
    gh: int,
    sx: int,
    sy: int,
)
    requires
        gw <= 4294967296,
        gh <= 4294967296,
        0 <= sx < 4294967296,
        0 <= sy < 4294967296,
        forall|i: int, j: int| 0 <= i < gw && 0 <= j < gh && #[trigger] vk.contains(key_of(i, j))
            && fill_passable(s, orig, gw, gh, i, j) ==> neighbours_covered(vk, st.push(c), gw, gh, i, j),
        covered(vk, st.push(c), sx, sy),
        st.len() <= st2.len(),
        forall|t: int| 0 <= t < st.len() ==> st2[t] == st[t],
        !vk.contains(key_of(c.0 as int, c.1 as int)) && fill_passable(s, orig, gw, gh, c.0 as int, c.1 as int)
            ==> neighbours_covered(vk.insert(key_of(c.0 as int, c.1 as int)), st2, gw, gh, c.0 as int, c.1 as int),
    ensures
        ({
            let vk2 = vk.insert(key_of(c.0 as int, c.1 as int));
            &&& forall|i: int, j: int| 0 <= i < gw && 0 <= j < gh && #[trigger] vk2.contains(key_of(i, j))
                && fill_passable(s, orig, gw, gh, i, j) ==> neighbours_covered(vk2, st2, gw, gh, i, j)
            &&& covered(vk2, st2, sx, sy)
        }),
{
    let vk2 = vk.insert(key_of(c.0 as int, c.1 as int));
    assert forall|i: int, j: int| 0 <= i < gw && 0 <= j < gh && #[trigger] vk2.contains(key_of(i, j))
        && fill_passable(s, orig, gw, gh, i, j) implies neighbours_covered(vk2, st2, gw, gh, i, j) by {
        if vk.contains(key_of(i, j)) {
            lemma_nc_step(vk, st, c, vk2, st2, gw, gh, i, j);
        } else {
            lemma_key_injective(i, j, c.0 as int, c.1 as int);
        }
    }
    lemma_cov_step(vk, st, c, vk2, st2, sx, sy);
}

/// Push the in-area 4-neighbours of `(x, y)`: left, right, up, down.
fn push_neighbours(stack: &mut Vec<(u32, u32)>, x: u32, y: u32, width: u32, height: u32)
    requires
        x < width,
        y < height,
    ensures
        old(stack)@.len() <= final(stack)@.len(),
        forall|t: int| 0 <= t < old(stack)@.len() ==> final(stack)@[t] == old(stack)@[t],
        forall|t: int| old(stack)@.len() <= t < final(stack)@.len() ==> {
            &&& (#[trigger] final(stack)@[t]).0 < width
            &&& final(stack)@[t].1 < height
            &&& adjacent((x as int, y as int), (final(stack)@[t].0 as int, final(stack)@[t].1 as int))
        },
        x > 0 ==> final(stack)@.contains(((x - 1) as u32, y)),
        x + 1 < width ==> final(stack)@.contains(((x + 1) as u32, y)),
        y > 0 ==> final(stack)@.contains((x, (y - 1) as u32)),
        y + 1 < height ==> final(stack)@.contains((x, (y + 1) as u32)),
{
    let ghost s0 = stack@;
    let ghost mut i1: int = 0;
    let ghost mut i2: int = 0;
    let ghost mut i3: int = 0;
    let ghost mut i4: int = 0;
    if x > 0 {
        proof { i1 = stack@.len() as int; }
        stack.push((x - 1, y));
    }
    if x < width - 1 {
        proof { i2 = stack@.len() as int; }
        stack.push((x + 1, y));
    }
    if y > 0 {
        proof { i3 = stack@.len() as int; }
        stack.push((x, y - 1));
    }
    if y < height - 1 {
        proof { i4 = stack@.len() as int; }
        stack.push((x, y + 1));
    }
    proof {
        if x > 0 {
            assert(stack@[i1] == ((x - 1) as u32, y));
        }
        if x + 1 < width {
            assert(stack@[i2] == ((x + 1) as u32, y));
        }
        if y > 0 {
            assert(stack@[i3] == (x, (y - 1) as u32));
        }
        if y + 1 < height {
            assert(stack@[i4] == (x, (y + 1) as u32));
        }
    }
}

/// Bucket fill (flood fill).
pub struct BucketFillTool;

impl BucketFillTool {
    /// Paint one cell the fill may enter, extending the painted region by it
    /// (the write fails, changing nothing, off the sprite or with a colour
    /// of the wrong size).
    fn fill_cell(
        engine: &mut Engine,
        sprite_id: usize,
        x: u32,
        y: u32,
        fill_color: &[u8],
        Ghost(s): Ghost<Seq<SpriteData>>,
        Ghost(vk): Ghost<Set<int>>,
        Ghost(orig): Ghost<Seq<u8>>,
        Ghost(gw): Ghost<int>,
        Ghost(gh): Ghost<int>,
    )
        requires
            old(engine).wf(),
            sprite_id < s.len(),
            fill_passable(s[sprite_id as int], orig, gw, gh, x as int, y as int),
            same_meta(s, old(engine).sprites@),
            forall|k: int| 0 <= k < s.len() && k != sprite_id ==> #[trigger] old(engine).sprites@[k].pixels@ == s[k].pixels@,
            fill_color@.len() == s[sprite_id as int].bpp() ==> painted_cells(s[sprite_id as int].pixels@,
                old(engine).sprites@[sprite_id as int].pixels@, s[sprite_id as int].width as int,
                s[sprite_id as int].height as int, s[sprite_id as int].bpp() as int,
                fill_done(vk, s[sprite_id as int], orig, gw, gh), fill_color@),
            fill_color@.len() != s[sprite_id as int].bpp() ==> old(engine).sprites@ == s,
        ensures
            final(engine).wf(),
            same_meta(s, final(engine).sprites@),
            forall|k: int| 0 <= k < s.len() && k != sprite_id ==> #[trigger] final(engine).sprites@[k].pixels@ == s[k].pixels@,
            fill_color@.len() == s[sprite_id as int].bpp() ==> painted_cells(s[sprite_id as int].pixels@,
                final(engine).sprites@[sprite_id as int].pixels@, s[sprite_id as int].width as int,
                s[sprite_id as int].height as int, s[sprite_id as int].bpp() as int,
                fill_done(vk.insert(key_of(x as int, y as int)), s[sprite_id as int], orig, gw, gh), fill_color@),
            fill_color@.len() != s[sprite_id as int].bpp() ==> final(engine).sprites@ == s,
    {
        let ghost before = engine.sprites@;
        let _ = engine.set_pixel(sprite_id, x, y, fill_color);
        proof {
            let id = sprite_id as int;
            let sp = s[id];
            let w = sp.width as int;
            let h = sp.height as int;
            let bpp = sp.bpp() as int;
            assert(buffers(engine.sprites@)[id] == engine.sprites@[id].pixels@);
            assert(buffers(before)[id] == before[id].pixels@);
            assert forall|k: int| 0 <= k < s.len() && k != id implies
                #[trigger] engine.sprites@[k].pixels@ == s[k].pixels@ by {
                assert(buffers(engine.sprites@)[k] == buffers(before)[k]);
            }
            assert(same_meta(s, engine.sprites@));
            if fill_color@.len() == bpp {
                assert(before[id].offset(x as int, y as int) == cell_off(w, bpp, x as int, y as int));
                lemma_cells_step(sp.pixels@, before[id].pixels@, engine.sprites@[id].pixels@, w, h, bpp,
                    fill_done(vk, sp, orig, gw, gh), fill_color@, x as int, y as int);
                lemma_fill_done_insert(vk, sp, orig, gw, gh, x as int, y as int);
                lemma_cells_ext(sp.pixels@, engine.sprites@[id].pixels@, w, h, bpp,
                    |i: int, j: int| fill_done(vk, sp, orig, gw, gh)(i, j) || (i == x as int && j == y as int),
                    fill_done(vk.insert(key_of(x as int, y as int)), sp, orig, gw, gh), fill_color@);
            }
        }
    }

    /// Fill the area of the starting pixel's colour around `(start_x,
    /// start_y)` with `fill_color`: every cell of the `width` by `height`
    /// area joined to the start through 4-neighbours that are off the sprite
    /// or of the starting colour is written (writes that fail, off the
    /// sprite or with a colour of the wrong size, change nothing).
    ///
    /// Fails with `Invalid pixel position`, changing nothing, when the start
    /// is not a pixel of the sprite; does nothing when the start already has
    /// the fill colour.
    pub fn fill(
        engine: &mut Engine,
        sprite_id: usize,
        start_x: u32,
        start_y: u32,
        fill_color: &[u8],
        width: u32,
        height: u32,
    ) -> (r: Result<(), String>)
        requires
            old(engine).wf(),
        ensures
            final(engine).wf(),
            ({
                let s = old(engine).sprites@;
                let id = sprite_id as int;
                let start_ok = 0 <= id < s.len() && s[id].in_bounds(start_x as int, start_y as int);
                &&& r is Err <==> !start_ok
                &&& r matches Err(e) ==> e@ == "Invalid pixel position"@
                &&& !start_ok ==> final(engine).sprites@ == s
                &&& start_ok && s[id].pixel(start_x as int, start_y as int) == fill_color@
                    ==> final(engine).sprites@ == s
                &&& start_ok && s[id].pixel(start_x as int, start_y as int) != fill_color@
                    && fill_color@.len() != s[id].bpp() ==> final(engine).sprites@ == s
                &&& start_ok && s[id].pixel(start_x as int, start_y as int) != fill_color@
                    && fill_color@.len() == s[id].bpp() ==> engine_painted(s, final(engine).sprites@, id,
                        fill_region(s[id], s[id].pixel(start_x as int, start_y as int), width as int, height as int,
                            start_x as int, start_y as int), fill_color@)
            }),
    {
        let ghost s = engine.sprites@;
        let ghost id = sprite_id as int;
        let original_color = match engine.get_pixel(sprite_id, start_x, start_y) {
            Some(p) => p,
            None => {
                let e = String::from_str("Invalid pixel position");
                proof {
                    reveal_strlit("Invalid pixel position");
                }
                return Err(e);
            },
        };
        if bytes_eq(original_color.as_slice(), fill_color) {
            return Ok(());
        }
        let ghost sp = s[id];
        let ghost orig = original_color@;
        let ghost gw = width as int;
        let ghost gh = height as int;
        let ghost bpp = sp.bpp() as int;
        let ghost painting = fill_color@.len() == bpp;
        let ghost region = fill_region(sp, orig, gw, gh, start_x as int, start_y as int);
        let mut stack: Vec<(u32, u32)> = Vec::new();
        stack.push((start_x, start_y));
        let mut visited: HashSet<u64> = HashSet::new();
        let ghost mut vk: Set<int> = Set::empty();
        proof {
            lemma_int_range(0, 0x1_0000_0000_0000_0000);
            lemma_cells_refl(sp.pixels@, sp.width as int, sp.height as int, bpp, fill_color@);
            if fill_passable(sp, orig, gw, gh, start_x as int, start_y as int) {
                assert(fill_path(sp, orig, gw, gh, seq![(start_x as int, start_y as int)]));
            }
            assert(stack@[0] == (start_x, start_y));
            assert(stack@[0].0 as int == start_x as int);
        }
        loop
            invariant_except_break
                engine.wf(),
                s == old(engine).sprites@,
                id == sprite_id,
                0 <= id < s.len(),
                sp == s[id],
                sp.in_bounds(start_x as int, start_y as int),
                orig == sp.pixel(start_x as int, start_y as int),
                orig == original_color@,
                orig != fill_color@,
                gw == width,
                gh == height,
                bpp == sp.bpp(),
                painting == (fill_color@.len() == bpp),
                region == fill_region(sp, orig, gw, gh, start_x as int, start_y as int),
                set_int_range(0, 0x1_0000_0000_0000_0000).finite(),
                forall|k: u64| #[trigger] visited@.contains(k) <==> vk.contains(k as int),
                forall|k: int| #[trigger] vk.contains(k) ==> 0 <= k < 0x1_0000_0000_0000_0000,
                forall|t: int| 0 <= t < stack@.len() ==> (fill_passable(sp, orig, gw, gh, (#[trigger] stack@[t]).0 as int, stack@[t].1 as int)
                    ==> region(stack@[t].0 as int, stack@[t].1 as int)),
                forall|i: int, j: int| #[trigger] fill_done(vk, sp, orig, gw, gh)(i, j) ==> region(i, j),
                forall|i: int, j: int| 0 <= i < gw && 0 <= j < gh && #[trigger] vk.contains(key_of(i, j))
                    && fill_passable(sp, orig, gw, gh, i, j) ==> neighbours_covered(vk, stack@, gw, gh, i, j),
                covered(vk, stack@, start_x as int, start_y as int),
                same_meta(s, engine.sprites@),
                forall|k: int| 0 <= k < s.len() && k != id ==> #[trigger] engine.sprites@[k].pixels@ == s[k].pixels@,
                painting ==> painted_cells(sp.pixels@, engine.sprites@[id].pixels@, sp.width as int, sp.height as int,
                    bpp, fill_done(vk, sp, orig, gw, gh), fill_color@),
                !painting ==> engine.sprites@ == s,
            ensures
                engine.wf(),
                same_meta(s, engine.sprites@),
                forall|k: int| 0 <= k < s.len() && k != id ==> #[trigger] engine.sprites@[k].pixels@ == s[k].pixels@,
                painting ==> painted_cells(sp.pixels@, engine.sprites@[id].pixels@, sp.width as int, sp.height as int,
                    bpp, region, fill_color@),
                !painting ==> engine.sprites@ == s,
            decreases set_int_range(0, 0x1_0000_0000_0000_0000).difference(vk).len(), stack@.len(),
        {
            let ghost st0 = stack@;
            let top = stack.pop();
            let (x, y) = match top {
                None => {
                    proof {
                        assert(stack@ =~= Seq::<(u32, u32)>::empty());
                        assert forall|i: int, j: int| 0 <= i < sp.width && 0 <= j < sp.height implies
                            #[trigger] fill_done(vk, sp, orig, gw, gh)(i, j) == region(i, j) by {
                            if region(i, j) {
                                let p = choose|p: Seq<(int, int)>| #[trigger] fill_path(sp, orig, gw, gh, p)
                                    && p[0] == (start_x as int, start_y as int) && p.last() == (i, j);
                                lemma_walk_visited(vk, sp, orig, gw, gh, p, p.len() - 1);
                                assert(fill_passable(sp, orig, gw, gh, p[p.len() - 1].0, p[p.len() - 1].1));
                            }
                        }
                        if painting {
                            lemma_cells_ext(sp.pixels@, engine.sprites@[id].pixels@, sp.width as int, sp.height as int,
                                bpp, fill_done(vk, sp, orig, gw, gh), region, fill_color@);
                        }
                    }
                    break;
                },
                Some(c) => c,
            };
            let ghost st = stack@;
            proof {
                assert(st0 =~= st.push((x, y)));
                assert(st0[st.len() as int] == (x, y));
            }
            let key = cell_key(x, y);
            if visited.contains(&key) {
                proof {
                    assert(vk.insert(key_of(x as int, y as int)) =~= vk);
                    lemma_visit_keeps_cover(vk, st, (x, y), st, sp, orig, gw, gh, start_x as int, start_y as int);
                }
                continue;
            }
            visited.insert(key);
            let ghost vk0 = vk;
            proof {
                set_int_range(0, 0x1_0000_0000_0000_0000).lemma_set_insert_diff_decreases(vk0, key as int);
                vk = vk.insert(key as int);
                lemma_fill_done_insert(vk0, sp, orig, gw, gh, x as int, y as int);
                assert(!vk0.contains(key_of(x as int, y as int)));
            }
            if x >= width || y >= height {
                proof {
                    if painting {
                        lemma_cells_ext(sp.pixels@, engine.sprites@[id].pixels@, sp.width as int, sp.height as int,
                            bpp, fill_done(vk0, sp, orig, gw, gh), fill_done(vk, sp, orig, gw, gh), fill_color@);
                    }
                    lemma_visit_keeps_cover(vk0, st, (x, y), st, sp, orig, gw, gh, start_x as int, start_y as int);
                }
                continue;
            }
            let current = engine.get_pixel(sprite_id, x, y);
            let differs = match &current {
                Some(p) => !bytes_eq(p.as_slice(), original_color.as_slice()),
                None => false,
            };
            proof {
                // The cell has not been painted yet: it still reads as before the fill.
                if sp.in_bounds(x as int, y as int) {
                    let cur = engine.sprites@[id];
                    assert(cur.offset(x as int, y as int) == cell_off(sp.width as int, bpp, x as int, y as int));
                    if painting {
                        assert(!fill_done(vk0, sp, orig, gw, gh)(x as int, y as int));
                        lemma_cells_unpainted(sp.pixels@, cur.pixels@, sp.width as int, sp.height as int, bpp,
                            fill_done(vk0, sp, orig, gw, gh), fill_color@, x as int, y as int);
                    }
                    assert(cur.pixel(x as int, y as int) == sp.pixel(x as int, y as int));
                }
            }
            if differs {
                proof {
                    assert(!fill_passable(sp, orig, gw, gh, x as int, y as int));
                    if painting {
                        lemma_cells_ext(sp.pixels@, engine.sprites@[id].pixels@, sp.width as int, sp.height as int,
                            bpp, fill_done(vk0, sp, orig, gw, gh), fill_done(vk, sp, orig, gw, gh), fill_color@);
                    }
                    lemma_visit_keeps_cover(vk0, st, (x, y), st, sp, orig, gw, gh, start_x as int, start_y as int);
                }
                continue;
            }
            proof {
                assert(fill_passable(sp, orig, gw, gh, x as int, y as int));
                assert(region(x as int, y as int));
            }
            Self::fill_cell(engine, sprite_id, x, y, fill_color, Ghost(s), Ghost(vk0), Ghost(orig), Ghost(gw), Ghost(gh));
            push_neighbours(&mut stack, x, y, width, height);
            proof {
                let st2 = stack@;
                assert forall|t: int| 0 <= t < st2.len() && fill_passable(sp, orig, gw, gh, (#[trigger] st2[t]).0 as int, st2[t].1 as int)
                    implies region(st2[t].0 as int, st2[t].1 as int) by {
                    if t < st.len() {
                        assert(st2[t] == st0[t]);
                    } else {
                        lemma_reach_extend(sp, orig, gw, gh, start_x as int, start_y as int, (x as int, y as int),
                            (st2[t].0 as int, st2[t].1 as int));
                    }
                }
                assert(neighbours_covered(vk, st2, gw, gh, x as int, y as int));
                lemma_visit_keeps_cover(vk0, st, (x, y), st2, sp, orig, gw, gh, start_x as int, start_y as int);
            }
        }
        Ok(())
    }
}

/// Colour picker (eyedropper).
pub struct ColorPickerTool;

impl ColorPickerTool {
    /// The bytes of pixel `(x, y)` of sprite `sprite_id`, or `None` when the
    /// id names no sprite or the pixel lies outside it.
    pub fn pick_color(engine: &Engine, sprite_id: usize, x: u32, y: u32) -> (r: Option<Vec<u8>>)
        requires
            engine.wf(),
        ensures
            match r {
                None => sprite_id >= engine.sprites@.len()
                    || !engine.sprites@[sprite_id as int].in_bounds(x as int, y as int),
                Some(v) => sprite_id < engine.sprites@.len()
                    && engine.sprites@[sprite_id as int].in_bounds(x as int, y as int)
                    && v@ == engine.sprites@[sprite_id as int].pixel(x as int, y as int),
            },
    {
        engine.get_pixel(sprite_id, x, y)
    }
}

} // verus!
