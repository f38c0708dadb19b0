//! Painting a region of a pixel grid: the relation between a pixel buffer
//! before and after every in-bounds pixel of a region has been written with
//! one colour, one pixel write at a time.
use vstd::prelude::*;
use crate::sprite::{spec_write, spec_read};

verus! {

/// Byte offset of pixel `(x, y)` in a grid `w` pixels wide with `bpp` bytes
/// per pixel.
pub open spec fn cell_off(w: int, bpp: int, x: int, y: int) -> int {
    (y * w + x) * bpp
}

/// `new` is `old` after every in-bounds pixel `(x, y)` with `region(x, y)` of
/// a `w` by `h` grid (`bpp` bytes per pixel) has been written with colour
/// `c`, the stored prefix of the buffer growing as little as those writes
/// need.
pub open spec fn painted_cells(
    old: Seq<u8>,
    new: Seq<u8>,
    w: int,
    h: int,
    bpp: int,
    region: spec_fn(int, int) -> bool,
    c: Seq<u8>,
) -> bool {
    &&& old.len() <= new.len()
    &&& forall|x: int, y: int|
        0 <= x < w && 0 <= y < h && #[trigger] region(x, y) ==> cell_off(w, bpp, x, y) + bpp <= new.len()
    &&& (new.len() == old.len() || exists|x: int, y: int|
        0 <= x < w && 0 <= y < h && #[trigger] region(x, y) && new.len() == cell_off(w, bpp, x, y) + bpp)
    &&& forall|x: int, y: int, i: int|
        0 <= x < w && 0 <= y < h && 0 <= i < bpp && #[trigger] (cell_off(w, bpp, x, y) + i) < new.len() ==>
            new[cell_off(w, bpp, x, y) + i] == (if region(x, y) {
                c[i]
            } else if cell_off(w, bpp, x, y) + i < old.len() {
                old[cell_off(w, bpp, x, y) + i]
            } else {
                0u8
            })
}

/// Nothing painted: a buffer is painted into itself by an empty region.
pub proof fn lemma_cells_refl(s: Seq<u8>, w: int, h: int, bpp: int, c: Seq<u8>)
    ensures
        forall|r: spec_fn(int, int) -> bool| (forall|i: int, j: int| !(#[trigger] r(i, j)))
            ==> painted_cells(s, s, w, h, bpp, r, c),
{
}

/// The relation depends on the region only through its values on the grid.
pub proof fn lemma_cells_ext(
    o: Seq<u8>,
    n: Seq<u8>,
    w: int,
    h: int,
    bpp: int,
    r1: spec_fn(int, int) -> bool,
    r2: spec_fn(int, int) -> bool,
    c: Seq<u8>,
)
    requires
        painted_cells(o, n, w, h, bpp, r1, c),
        forall|i: int, j: int| 0 <= i < w && 0 <= j < h ==> #[trigger] r1(i, j) == r2(i, j),
    ensures
        painted_cells(o, n, w, h, bpp, r2, c),
{
    if n.len() != o.len() {
        let (x, y) = choose|x: int, y: int|
            0 <= x < w && 0 <= y < h && #[trigger] r1(x, y) && n.len() == cell_off(w, bpp, x, y) + bpp;
        assert(r2(x, y));
    }
    assert forall|x: int, y: int| 0 <= x < w && 0 <= y < h && #[trigger] r2(x, y)
        implies cell_off(w, bpp, x, y) + bpp <= n.len() by {
        assert(r1(x, y));
    }
    assert forall|x: int, y: int, i: int|
        0 <= x < w && 0 <= y < h && 0 <= i < bpp && #[trigger] (cell_off(w, bpp, x, y) + i) < n.len() implies
        n[cell_off(w, bpp, x, y) + i] == (if r2(x, y) {
            c[i]
        } else if cell_off(w, bpp, x, y) + i < o.len() {
            o[cell_off(w, bpp, x, y) + i]
        } else {
            0u8
        }) by {
        assert(r1(x, y) == r2(x, y));
    }
}

/// Two distinct in-bounds pixels have disjoint byte ranges.
pub proof fn lemma_cells_disjoint(w: int, h: int, bpp: int, x1: int, y1: int, x2: int, y2: int)
    requires
        0 <= x1 < w,
        0 <= y1 < h,
        0 <= x2 < w,
        0 <= y2 < h,
        0 < bpp,
        x1 != x2 || y1 != y2,
    ensures
        cell_off(w, bpp, x1, y1) + bpp <= cell_off(w, bpp, x2, y2)
            || cell_off(w, bpp, x2, y2) + bpp <= cell_off(w, bpp, x1, y1),
{
    assert(y1 * w + x1 != y2 * w + x2) by (nonlinear_arith)
        requires 0 <= x1 < w, 0 <= x2 < w, x1 != x2 || y1 != y2;
    let a = y1 * w + x1;
    let b = y2 * w + x2;
    if a < b {
        assert(a * bpp + bpp <= b * bpp) by (nonlinear_arith) requires a + 1 <= b, 0 < bpp;
    } else {
        assert(b * bpp + bpp <= a * bpp) by (nonlinear_arith) requires b + 1 <= a, 0 < bpp;
    }
}

/// Writing one more pixel `(px, py)` (written only when on the grid)
/// extends the painted region by that pixel.
pub proof fn lemma_cells_step(
    o: Seq<u8>,
    m: Seq<u8>,
    m2: Seq<u8>,
    w: int,
    h: int,
    bpp: int,
    region: spec_fn(int, int) -> bool,
    c: Seq<u8>,
    px: int,
    py: int,
)
    requires
        painted_cells(o, m, w, h, bpp, region, c),
        c.len() == bpp,
        0 < bpp,
        m2 == (if 0 <= px < w && 0 <= py < h { spec_write(m, cell_off(w, bpp, px, py), c) } else { m }),
    ensures
        painted_cells(o, m2, w, h, bpp, |i: int, j: int| region(i, j) || (i == px && j == py), c),
{
    let r2 = |i: int, j: int| region(i, j) || (i == px && j == py);
    if 0 <= px < w && 0 <= py < h {
        let off = cell_off(w, bpp, px, py);
        assert(0 <= off) by (nonlinear_arith) requires 0 <= px < w, 0 <= py, 0 < bpp, off == (py * w + px) * bpp;
        if m2.len() != o.len() {
            if m2.len() != m.len() {
                assert(r2(px, py));
            } else {
                let (x, y) = choose|x: int, y: int|
                    0 <= x < w && 0 <= y < h && #[trigger] region(x, y) && m.len() == cell_off(w, bpp, x, y) + bpp;
                assert(r2(x, y));
            }
        }
        assert forall|x: int, y: int, i: int|
            0 <= x < w && 0 <= y < h && 0 <= i < bpp && #[trigger] (cell_off(w, bpp, x, y) + i) < m2.len() implies
            m2[cell_off(w, bpp, x, y) + i] == (if r2(x, y) {
                c[i]
            } else if cell_off(w, bpp, x, y) + i < o.len() {
                o[cell_off(w, bpp, x, y) + i]
            } else {
                0u8
            }) by {
            if x == px && y == py {
            } else {
                lemma_cells_disjoint(w, h, bpp, x, y, px, py);
                let k = cell_off(w, bpp, x, y) + i;
                assert(0 <= k) by (nonlinear_arith)
                    requires 0 <= x < w, 0 <= y, 0 <= i, 0 < bpp, k == (y * w + x) * bpp + i;
                if k < m.len() {
                    assert(m[cell_off(w, bpp, x, y) + i] == (if region(x, y) { c[i] } else if k < o.len() { o[k] } else { 0u8 }));
                } else {
                    if region(x, y) {
                        assert(cell_off(w, bpp, x, y) + bpp <= m.len());
                    }
                }
            }
        }
    } else {
        if m2.len() != o.len() {
            let (x, y) = choose|x: int, y: int|
                0 <= x < w && 0 <= y < h && #[trigger] region(x, y) && m.len() == cell_off(w, bpp, x, y) + bpp;
            assert(r2(x, y));
        }
        assert forall|x: int, y: int, i: int|
            0 <= x < w && 0 <= y < h && 0 <= i < bpp && #[trigger] (cell_off(w, bpp, x, y) + i) < m2.len() implies
            m2[cell_off(w, bpp, x, y) + i] == (if r2(x, y) {
                c[i]
            } else if cell_off(w, bpp, x, y) + i < o.len() {
                o[cell_off(w, bpp, x, y) + i]
            } else {
                0u8
            }) by {
            assert(m[cell_off(w, bpp, x, y) + i] == (if region(x, y) { c[i] } else if cell_off(w, bpp, x, y) + i < o.len() { o[cell_off(w, bpp, x, y) + i] } else { 0u8 }));
        }
    }
}

/// A pixel outside the painted region reads the same before and after.
pub proof fn lemma_cells_unpainted(
    o: Seq<u8>,
    n: Seq<u8>,
    w: int,
    h: int,
    bpp: int,
    region: spec_fn(int, int) -> bool,
    c: Seq<u8>,
    x: int,
    y: int,
)
    requires
        painted_cells(o, n, w, h, bpp, region, c),
        0 <= x < w,
        0 <= y < h,
        0 < bpp,
        !region(x, y),
    ensures
        spec_read(n, cell_off(w, bpp, x, y), bpp as nat) == spec_read(o, cell_off(w, bpp, x, y), bpp as nat),
{
    let off = cell_off(w, bpp, x, y);
    assert forall|i: int| 0 <= i < bpp implies #[trigger] spec_read(n, off, bpp as nat)[i]
        == spec_read(o, off, bpp as nat)[i] by {
        if off + i < n.len() {
            assert(n[cell_off(w, bpp, x, y) + i] == (if region(x, y) {
                c[i]
            } else if cell_off(w, bpp, x, y) + i < o.len() {
                o[cell_off(w, bpp, x, y) + i]
            } else {
                0u8
            }));
        }
    }
    assert(spec_read(n, off, bpp as nat) =~= spec_read(o, off, bpp as nat));
}

} // verus!
