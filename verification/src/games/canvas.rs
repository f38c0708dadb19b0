//! Drawing on the games' framebuffers: `w` by `h` cells of one colour index
//! each, stored row by row in a byte buffer.
use vstd::prelude::*;

verus! {

/// Cell `(i, j)` lies on a `w` by `h` canvas.
pub open spec fn on_canvas(w: int, h: int, i: int, j: int) -> bool {
    0 <= i < w && 0 <= j < h
}

/// The byte of cell `(i, j)`.
pub open spec fn cell(s: Seq<u8>, w: int, i: int, j: int) -> u8 {
    s[j * w + i]
}

/// `new` is `old` with every cell of `region` that lies on the canvas and
/// within the buffer set to `col`; bytes past the canvas are unchanged.
pub open spec fn canvas_painted(old: Seq<u8>, new: Seq<u8>, w: int, h: int, region: spec_fn(int, int) -> bool, col: u8) -> bool {
    &&& new.len() == old.len()
    &&& forall|i: int, j: int| on_canvas(w, h, i, j) && j * w + i < old.len() ==> #[trigger] cell(new, w, i, j)
        == if region(i, j) { col } else { cell(old, w, i, j) }
    &&& forall|k: int| w * h <= k < old.len() ==> #[trigger] new[k] == old[k]
}

/// The buffer after setting cell `(x, y)`: unchanged off the canvas or past
/// the end of the buffer.
pub open spec fn canvas_set(s: Seq<u8>, w: int, h: int, x: int, y: int, col: u8) -> Seq<u8> {
    if on_canvas(w, h, x, y) && y * w + x < s.len() { s.update(y * w + x, col) } else { s }
}

/// The cells of the rectangle with corner `(x, y)`, `rw` wide and `rh` high.
pub open spec fn rect_region(x: int, y: int, rw: int, rh: int) -> spec_fn(int, int) -> bool {
    |i: int, j: int| x <= i < x + rw && y <= j < y + rh
}

/// The canvas fits in memory and its sides fit in an `i32`.
pub open spec fn canvas_ok(w: usize, h: usize) -> bool {
    w <= i32::MAX && h <= i32::MAX && w * h <= usize::MAX
}

/// Row-major cell indices: a cell on the canvas has an index below `w * h`,
/// and different cells have different indices.
pub proof fn lemma_cell_index(w: int, h: int, i: int, j: int, i2: int, j2: int)
    requires
        on_canvas(w, h, i, j),
        on_canvas(w, h, i2, j2),
    ensures
        0 <= j * w + i < w * h,
        (i != i2 || j != j2) ==> j * w + i != j2 * w + i2,
{
    assert(0 <= j * w + i < w * h) by (nonlinear_arith)
        requires 0 <= i < w, 0 <= j < h;
    assert((i != i2 || j != j2) ==> j * w + i != j2 * w + i2) by (nonlinear_arith)
        requires 0 <= i < w, 0 <= i2 < w;
}

/// Painting nothing leaves the buffer painted into itself.
pub proof fn lemma_canvas_refl(s: Seq<u8>, w: int, h: int, region: spec_fn(int, int) -> bool, col: u8)
    requires
        forall|i: int, j: int| !(#[trigger] region(i, j)),
    ensures
        canvas_painted(s, s, w, h, region, col),
{
}

/// Setting one more cell extends the painted region by it.
pub proof fn lemma_canvas_step(o: Seq<u8>, m: Seq<u8>, w: int, h: int, region: spec_fn(int, int) -> bool, col: u8, x: int, y: int)
    requires
        canvas_painted(o, m, w, h, region, col),
    ensures
        canvas_painted(o, canvas_set(m, w, h, x, y, col), w, h, |i: int, j: int| region(i, j) || (i == x && j == y), col),
{
    let m2 = canvas_set(m, w, h, x, y, col);
    assert forall|i: int, j: int| on_canvas(w, h, i, j) && j * w + i < o.len() implies #[trigger] cell(m2, w, i, j)
        == if region(i, j) || (i == x && j == y) { col } else { cell(o, w, i, j) } by {
        assert(cell(m, w, i, j) == if region(i, j) { col } else { cell(o, w, i, j) });
        if on_canvas(w, h, x, y) {
            lemma_cell_index(w, h, i, j, x, y);
        }
    }
    assert forall|k: int| w * h <= k < o.len() implies #[trigger] m2[k] == o[k] by {
        assert(m[k] == o[k]);
        if on_canvas(w, h, x, y) {
            lemma_cell_index(w, h, x, y, x, y);
        }
    }
}

/// The painted relation depends on the region only on the canvas.
pub proof fn lemma_canvas_ext(o: Seq<u8>, n: Seq<u8>, w: int, h: int, r1: spec_fn(int, int) -> bool, r2: spec_fn(int, int) -> bool, col: u8)
    requires
        canvas_painted(o, n, w, h, r1, col),
        forall|i: int, j: int| on_canvas(w, h, i, j) ==> #[trigger] r1(i, j) == r2(i, j),
    ensures
        canvas_painted(o, n, w, h, r2, col),
{
    assert forall|i: int, j: int| on_canvas(w, h, i, j) && j * w + i < o.len() implies #[trigger] cell(n, w, i, j)
        == if r2(i, j) { col } else { cell(o, w, i, j) } by {
        assert(r1(i, j) == r2(i, j));
    }
}

/// Painting two regions in turn paints their union.
pub proof fn lemma_canvas_union(o: Seq<u8>, m: Seq<u8>, n: Seq<u8>, w: int, h: int, r1: spec_fn(int, int) -> bool, r2: spec_fn(int, int) -> bool, col: u8)
    requires
        canvas_painted(o, m, w, h, r1, col),
        canvas_painted(m, n, w, h, r2, col),
    ensures
        canvas_painted(o, n, w, h, |i: int, j: int| r1(i, j) || r2(i, j), col),
{
    assert forall|i: int, j: int| on_canvas(w, h, i, j) && j * w + i < o.len() implies #[trigger] cell(n, w, i, j)
        == if r1(i, j) || r2(i, j) { col } else { cell(o, w, i, j) } by {
        assert(cell(m, w, i, j) == if r1(i, j) { col } else { cell(o, w, i, j) });
        assert(cell(n, w, i, j) == if r2(i, j) { col } else { cell(m, w, i, j) });
    }
    assert forall|k: int| w * h <= k < o.len() implies #[trigger] n[k] == o[k] by {
        assert(m[k] == o[k]);
        assert(n[k] == m[k]);
    }
}

/// Set cell `(x, y)` to `color`; nothing happens off the canvas or past the
/// end of the buffer.
pub fn set_pixel(fb: &mut Vec<u8>, w: usize, h: usize, x: i32, y: i32, color: u8)
    requires
        canvas_ok(w, h),
    ensures
        final(fb)@ == canvas_set(old(fb)@, w as int, h as int, x as int, y as int, color),
{
    if x >= 0 && x < w as i32 && y >= 0 && y < h as i32 {
        proof {
            lemma_cell_index(w as int, h as int, x as int, y as int, x as int, y as int);
        }
        let idx = (y as usize) * w + (x as usize);
        if idx < fb.len() {
            fb.set(idx, color);
        }
    }
}

/// Fill the rectangle with corner `(x, y)`, `rw` wide and `rh` high (empty
/// when either is not positive), clipped to the canvas.
pub fn draw_rect(fb: &mut Vec<u8>, w: usize, h: usize, x: i32, y: i32, rw: i32, rh: i32, color: u8)
    requires
        canvas_ok(w, h),
        rw > 0 && rh > 0 ==> x + rw - 1 <= i32::MAX && y + rh - 1 <= i32::MAX,
    ensures
        canvas_painted(old(fb)@, final(fb)@, w as int, h as int, rect_region(x as int, y as int, rw as int, rh as int), color),
{
    let ghost o = fb@;
    proof {
        lemma_canvas_refl(o, w as int, h as int, rect_region(x as int, y as int, rw as int, 0), color);
    }
    let mut dy: i32 = 0;
    while dy < rh
        invariant
            canvas_ok(w, h),
            0 <= dy,
            rh > 0 ==> dy <= rh,
            rh <= 0 ==> dy == 0,
            rw > 0 && rh > 0 ==> x + rw - 1 <= i32::MAX && y + rh - 1 <= i32::MAX,
            canvas_painted(o, fb@, w as int, h as int, rect_region(x as int, y as int, rw as int, dy as int), color),
        decreases rh - dy,
    {
        let ghost row_start = fb@;
        let mut dx: i32 = 0;
        while dx < rw
            invariant
                canvas_ok(w, h),
                0 <= dx,
                rw > 0 ==> dx <= rw,
                rw <= 0 ==> dx == 0,
                0 <= dy < rh,
                rw > 0 && rh > 0 ==> x + rw - 1 <= i32::MAX && y + rh - 1 <= i32::MAX,
                canvas_painted(o, fb@, w as int, h as int, |i: int, j: int|
                    rect_region(x as int, y as int, rw as int, dy as int)(i, j) || (j == y + dy && x <= i < x + dx), color),
            decreases rw - dx,
        {
            let ghost before = fb@;
            set_pixel(fb, w, h, x + dx, y + dy, color);
            proof {
                let r = |i: int, j: int| rect_region(x as int, y as int, rw as int, dy as int)(i, j) || (j == y + dy && x <= i < x + dx);
                lemma_canvas_step(o, before, w as int, h as int, r, color, x + dx, y + dy);
                lemma_canvas_ext(o, fb@, w as int, h as int,
                    |i: int, j: int| r(i, j) || (i == x + dx && j == y + dy),
                    |i: int, j: int| rect_region(x as int, y as int, rw as int, dy as int)(i, j) || (j == y + dy && x <= i < x + dx + 1),
                    color);
            }
            dx = dx + 1;
        }
        proof {
            lemma_canvas_ext(o, fb@, w as int, h as int,
                |i: int, j: int| rect_region(x as int, y as int, rw as int, dy as int)(i, j) || (j == y + dy && x <= i < x + dx),
                rect_region(x as int, y as int, rw as int, dy + 1), color);
        }
        dy = dy + 1;
    }
    proof {
        lemma_canvas_ext(o, fb@, w as int, h as int, rect_region(x as int, y as int, rw as int, dy as int),
            rect_region(x as int, y as int, rw as int, rh as int), color);
    }
}

/// `v` fits in an `i32`.
pub open spec fn fits_i32(v: int) -> bool {
    i32::MIN <= v <= i32::MAX
}

/// Fill the rectangle covering columns `x .. x + rw` and rows `y .. y + rh`,
/// clipped to the canvas.
pub fn draw_rect_filled(fb: &mut Vec<u8>, w: usize, h: usize, x: i32, y: i32, rw: i32, rh: i32, color: u8)
    requires
        canvas_ok(w, h),
        fits_i32(y + rh),
        rh > 0 ==> fits_i32(x + rw),
    ensures
        canvas_painted(old(fb)@, final(fb)@, w as int, h as int, rect_region(x as int, y as int, rw as int, rh as int), color),
{
    draw_rect(fb, w, h, x, y, rw, rh, color);
}

/// The frame of the rectangle with corner `(x, y)`, `rw` wide and `rh`
/// high: bands `thick` wide along its four sides.
pub open spec fn border_region(x: int, y: int, rw: int, rh: int, thick: int) -> spec_fn(int, int) -> bool {
    |i: int, j: int|
        rect_region(x, y, rw, thick)(i, j) || rect_region(x, y + rh - thick, rw, thick)(i, j)
        || rect_region(x, y, thick, rh)(i, j) || rect_region(x + rw - thick, y, thick, rh)(i, j)
}

/// Draw the frame of a rectangle: its top, bottom, left and right bands,
/// each `thick` wide, clipped to the canvas.
pub fn draw_rect_border(fb: &mut Vec<u8>, w: usize, h: usize, x: i32, y: i32, rw: i32, rh: i32, color: u8, thick: i32)
    requires
        canvas_ok(w, h),
        fits_i32(x + rw),
        fits_i32(y + rh),
        fits_i32(x + rw - thick),
        fits_i32(y + rh - thick),
        fits_i32(y + thick),
        rh > 0 ==> fits_i32(x + thick),
    ensures
        canvas_painted(old(fb)@, final(fb)@, w as int, h as int, border_region(x as int, y as int, rw as int, rh as int, thick as int), color),
{
    let ghost o = fb@;
    draw_rect_filled(fb, w, h, x, y, rw, thick, color);
    let ghost f1 = fb@;
    draw_rect_filled(fb, w, h, x, y + rh - thick, rw, thick, color);
    let ghost f2 = fb@;
    draw_rect_filled(fb, w, h, x, y, thick, rh, color);
    let ghost f3 = fb@;
    draw_rect_filled(fb, w, h, x + rw - thick, y, thick, rh, color);
    proof {
        let (xi, yi, wi, hi, ti) = (x as int, y as int, rw as int, rh as int, thick as int);
        let r1 = rect_region(xi, yi, wi, ti);
        let r2 = rect_region(xi, yi + hi - ti, wi, ti);
        let r3 = rect_region(xi, yi, ti, hi);
        let r4 = rect_region(xi + wi - ti, yi, ti, hi);
        lemma_canvas_union(o, f1, f2, w as int, h as int, r1, r2, color);
        let r12 = |i: int, j: int| r1(i, j) || r2(i, j);
        lemma_canvas_union(o, f2, f3, w as int, h as int, r12, r3, color);
        let r123 = |i: int, j: int| r12(i, j) || r3(i, j);
        lemma_canvas_union(o, f3, fb@, w as int, h as int, r123, r4, color);
        lemma_canvas_ext(o, fb@, w as int, h as int, |i: int, j: int| r123(i, j) || r4(i, j),
            border_region(xi, yi, wi, hi, ti), color);
    }
}

/// `a + b`, or `usize::MAX` when that overflows.
pub open spec fn sat_add(a: usize, b: usize) -> int {
    if a + b <= usize::MAX { a + b } else { usize::MAX as int }
}

/// Fill columns `x` up to `x + rw` and rows `y` up to `y + rh` (both ends
/// saturating at `usize::MAX`), clipped to the canvas.
pub fn fill_rect(fb: &mut Vec<u8>, w: usize, h: usize, x: usize, y: usize, rw: usize, rh: usize, color: u8)
    requires
        old(fb)@.len() == w * h,
    ensures
        canvas_painted(old(fb)@, final(fb)@, w as int, h as int,
            rect_region(x as int, y as int, sat_add(x, rw) - x, sat_add(y, rh) - y), color),
{
    let ghost o = fb@;
    let ghost region = rect_region(x as int, y as int, sat_add(x, rw) - x, sat_add(y, rh) - y);
    let y_end = y.saturating_add(rh);
    let x_end = x.saturating_add(rw);
    proof {
        lemma_canvas_refl(o, w as int, h as int, |i: int, j: int| region(i, j) && j < y, color);
    }
    let mut py: usize = y;
    while py < y_end && py < h
        invariant
            y <= py,
            y_end == sat_add(y, rh),
            x_end == sat_add(x, rw),
            o.len() == w * h,
            region == rect_region(x as int, y as int, sat_add(x, rw) - x, sat_add(y, rh) - y),
            canvas_painted(o, fb@, w as int, h as int, |i: int, j: int| region(i, j) && j < py, color),
        decreases h - py,
    {
        let mut px: usize = x;
        while px < x_end && px < w
            invariant
                x <= px,
                x <= x_end,
                px <= x_end,
                px == x || px <= w,
                y <= py < y_end,
                py < h,
                y_end == sat_add(y, rh),
                x_end == sat_add(x, rw),
                o.len() == w * h,
                region == rect_region(x as int, y as int, sat_add(x, rw) - x, sat_add(y, rh) - y),
                canvas_painted(o, fb@, w as int, h as int,
                    |i: int, j: int| (region(i, j) && j < py) || (j == py && x <= i < px), color),
            decreases w - px,
        {
            let ghost before = fb@;
            proof {
                lemma_cell_index(w as int, h as int, px as int, py as int, px as int, py as int);
            }
            let n = fb.len();
            assert(py * w + px < n);
            let idx = py * w + px;
            fb.set(idx, color);
            proof {
                let r = |i: int, j: int| (region(i, j) && j < py) || (j == py && x <= i < px);
                assert(fb@ == canvas_set(before, w as int, h as int, px as int, py as int, color));
                lemma_canvas_step(o, before, w as int, h as int, r, color, px as int, py as int);
                lemma_canvas_ext(o, fb@, w as int, h as int,
                    |i: int, j: int| r(i, j) || (i == px && j == py),
                    |i: int, j: int| (region(i, j) && j < py) || (j == py && x <= i < px + 1), color);
            }
            px = px + 1;
        }
        proof {
            lemma_canvas_ext(o, fb@, w as int, h as int,
                |i: int, j: int| (region(i, j) && j < py) || (j == py && x <= i < px),
                |i: int, j: int| region(i, j) && j < py + 1, color);
        }
        py = py + 1;
    }
    proof {
        lemma_canvas_ext(o, fb@, w as int, h as int, |i: int, j: int| region(i, j) && j < py, region, color);
    }
}

} // verus!
