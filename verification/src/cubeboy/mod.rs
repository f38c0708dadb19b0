//! A small pyxel-like console: a 128 by 128 framebuffer of `u32` colours,
//! a frame counter, a pseudo-random seed, drawing primitives and a 16 by 16
//! tile map.
use vstd::prelude::*;

pub mod input;

verus! {

/// `v` fits in an `i32`.
pub open spec fn fits(v: int) -> bool {
    i32::MIN <= v <= i32::MAX
}

/// Cell `(i, j)` lies on the 128 by 128 screen.
pub open spec fn on_screen(i: int, j: int) -> bool {
    0 <= i < 128 && 0 <= j < 128
}

/// The colour of cell `(i, j)` of a framebuffer.
pub open spec fn fb_at(fb: Seq<u32>, i: int, j: int) -> u32 {
    fb[j * 128 + i]
}

/// `new` is `old` with every on-screen cell of `region` set to `col`.
pub open spec fn fb_painted(old: Seq<u32>, new: Seq<u32>, region: spec_fn(int, int) -> bool, col: u32) -> bool {
    &&& old.len() == 16384
    &&& new.len() == 16384
    &&& forall|i: int, j: int| on_screen(i, j) ==> #[trigger] fb_at(new, i, j)
        == if region(i, j) { col } else { fb_at(old, i, j) }
}

/// The framebuffer after setting cell `(x, y)` to `col` (no change off the
/// screen).
pub open spec fn fb_set(fb: Seq<u32>, x: int, y: int, col: u32) -> Seq<u32> {
    if on_screen(x, y) { fb.update(y * 128 + x, col) } else { fb }
}

/// Painting nothing: a framebuffer is painted into itself by an empty
/// region.
pub proof fn lemma_fb_refl(fb: Seq<u32>, region: spec_fn(int, int) -> bool, col: u32)
    requires
        fb.len() == 16384,
        forall|i: int, j: int| !(#[trigger] region(i, j)),
    ensures
        fb_painted(fb, fb, region, col),
{
}

/// The painted relation depends on the region only on the screen.
pub proof fn lemma_fb_ext(o: Seq<u32>, n: Seq<u32>, r1: spec_fn(int, int) -> bool, r2: spec_fn(int, int) -> bool, col: u32)
    requires
        fb_painted(o, n, r1, col),
        forall|i: int, j: int| on_screen(i, j) ==> #[trigger] r1(i, j) == r2(i, j),
    ensures
        fb_painted(o, n, r2, col),
{
    assert forall|i: int, j: int| on_screen(i, j) implies #[trigger] fb_at(n, i, j)
        == if r2(i, j) { col } else { fb_at(o, i, j) } by {
        assert(r1(i, j) == r2(i, j));
    }
}

/// Setting one more cell extends the painted region by it.
pub proof fn lemma_fb_step(o: Seq<u32>, m: Seq<u32>, region: spec_fn(int, int) -> bool, col: u32, x: int, y: int)
    requires
        fb_painted(o, m, region, col),
    ensures
        fb_painted(o, fb_set(m, x, y, col), |i: int, j: int| region(i, j) || (i == x && j == y), col),
{
    let m2 = fb_set(m, x, y, col);
    assert forall|i: int, j: int| on_screen(i, j) implies #[trigger] fb_at(m2, i, j)
        == if region(i, j) || (i == x && j == y) { col } else { fb_at(o, i, j) } by {
        assert(fb_at(m, i, j) == if region(i, j) { col } else { fb_at(o, i, j) });
    }
}

/// A set cell reads back its colour, and every other cell is unchanged.
pub proof fn law_fb_set_then_read(fb: Seq<u32>, x: int, y: int, col: u32, i: int, j: int)
    requires
        fb.len() == 16384,
        on_screen(x, y),
        on_screen(i, j),
    ensures
        fb_at(fb_set(fb, x, y, col), x, y) == col,
        (i != x || j != y) ==> fb_at(fb_set(fb, x, y, col), i, j) == fb_at(fb, i, j),
{
}

/// The console state: frame counter, framebuffer and random seed.
pub struct Pyxel {
    pub frame_count: i32,
    pub framebuffer: [u32; 16384],
    pub seed: u32,
}

/// The seed after one step of the generator:
/// `seed * 1103515245 + 12345`, wrapping at 2^32.
pub open spec fn next_seed(seed: u32) -> u32 {
    vstd::wrapping::u32_specs::wrapping_add(vstd::wrapping::u32_specs::wrapping_mul(seed, 1103515245), 12345)
}

impl Pyxel {
    /// Frame 0, a black framebuffer and the seed 12345.
    pub fn new() -> (p: Pyxel)
        ensures
            p.frame_count == 0,
            p.seed == 12345,
            forall|k: int| 0 <= k < 16384 ==> p.framebuffer@[k] == 0,
    {
        let p = Pyxel { frame_count: 0, framebuffer: [0u32; 16384], seed: 12345 };
        p
    }

    /// The number of frames ticked.
    pub fn frame_count(&self) -> (n: i32)
        ensures
            n == self.frame_count,
    {
        self.frame_count
    }

    /// Count one more frame.
    pub fn tick_frame(&mut self)
        requires
            old(self).frame_count < i32::MAX,
        ensures
            final(self).frame_count == old(self).frame_count + 1,
            final(self).framebuffer == old(self).framebuffer,
            final(self).seed == old(self).seed,
    {
        self.frame_count = self.frame_count + 1;
    }

    /// A copy of the framebuffer.
    pub fn framebuffer(&self) -> (fb: [u32; 16384])
        ensures
            fb == self.framebuffer,
    {
        self.framebuffer
    }

    /// Replace the framebuffer.
    pub fn set_framebuffer(&mut self, fb: [u32; 16384])
        ensures
            final(self).framebuffer == fb,
            final(self).frame_count == old(self).frame_count,
            final(self).seed == old(self).seed,
    {
        self.framebuffer = fb;
    }

    /// Advance the random generator and return its new seed.
    pub fn advance_seed(&mut self) -> (s: u32)
        ensures
            s == next_seed(old(self).seed),
            final(self).seed == s,
            final(self).frame_count == old(self).frame_count,
            final(self).framebuffer == old(self).framebuffer,
    {
        self.seed = self.seed.wrapping_mul(1103515245).wrapping_add(12345);
        self.seed
    }
}

impl Default for Pyxel {
    fn default() -> (p: Pyxel)
        ensures
            p.frame_count == 0,
            p.seed == 12345,
            forall|k: int| 0 <= k < 16384 ==> p.framebuffer@[k] == 0,
    {
        Pyxel::new()
    }
}

/// Set cell `(x, y)` to `col` when it lies on the screen.
pub fn pset(p: &mut Pyxel, x: i32, y: i32, col: u32)
    ensures
        final(p).framebuffer@ == fb_set(old(p).framebuffer@, x as int, y as int, col),
        final(p).frame_count == old(p).frame_count,
        final(p).seed == old(p).seed,
{
    if x >= 0 && x < 128 && y >= 0 && y < 128 {
        p.framebuffer[y as usize * 128 + x as usize] = col;
    }
}

/// The cells of the `w` by `h` rectangle at `(x, y)`.
pub open spec fn rect_cells(x: int, y: int, w: int, h: int) -> spec_fn(int, int) -> bool {
    |i: int, j: int| x <= i < x + w && y <= j < y + h
}

/// The first `rows` rows of the rectangle and the first `cols` cells of the
/// next row.
pub open spec fn rect_done(x: int, y: int, w: int, rows: int, cols: int) -> spec_fn(int, int) -> bool {
    |i: int, j: int| (x <= i < x + w && y <= j < y + rows) || (j == y + rows && x <= i < x + cols)
}

/// Fill the `w` by `h` rectangle at `(x, y)` with `col` (clipped to the
/// screen).
pub fn rect(p: &mut Pyxel, x: i32, y: i32, w: i32, h: i32, col: u32)
    requires
        w > 0 && h > 0 ==> x + w - 1 <= i32::MAX && y + h - 1 <= i32::MAX,
    ensures
        fb_painted(old(p).framebuffer@, final(p).framebuffer@, rect_cells(x as int, y as int, w as int, h as int), col),
        final(p).frame_count == old(p).frame_count,
        final(p).seed == old(p).seed,
{
    let ghost o = p.framebuffer@;
    proof {
        lemma_fb_refl(o, rect_done(x as int, y as int, w as int, 0, 0), col);
    }
    let mut dy: i32 = 0;
    while dy < h
        invariant
            0 <= dy,
            h > 0 ==> dy <= h,
            h <= 0 ==> dy == 0,
            w > 0 && h > 0 ==> x + w - 1 <= i32::MAX && y + h - 1 <= i32::MAX,
            o.len() == 16384,
            p.frame_count == old(p).frame_count,
            p.seed == old(p).seed,
            fb_painted(o, p.framebuffer@, rect_done(x as int, y as int, w as int, dy as int, 0), col),
        decreases h - dy,
    {
        let mut dx: i32 = 0;
        while dx < w
            invariant
                0 <= dx,
                w > 0 ==> dx <= w,
                w <= 0 ==> dx == 0,
                0 <= dy < h,
                w > 0 && h > 0 ==> x + w - 1 <= i32::MAX && y + h - 1 <= i32::MAX,
                o.len() == 16384,
                p.frame_count == old(p).frame_count,
                p.seed == old(p).seed,
                fb_painted(o, p.framebuffer@, rect_done(x as int, y as int, w as int, dy as int, dx as int), col),
            decreases w - dx,
        {
            let ghost before = p.framebuffer@;
            pset(p, x + dx, y + dy, col);
            proof {
                lemma_fb_step(o, before, rect_done(x as int, y as int, w as int, dy as int, dx as int), col,
                    x + dx, y + dy);
                lemma_fb_ext(o, p.framebuffer@,
                    |i: int, j: int| rect_done(x as int, y as int, w as int, dy as int, dx as int)(i, j)
                        || (i == x + dx && j == y + dy),
                    rect_done(x as int, y as int, w as int, dy as int, dx + 1), col);
            }
            dx = dx + 1;
        }
        proof {
            lemma_fb_ext(o, p.framebuffer@, rect_done(x as int, y as int, w as int, dy as int, dx as int),
                rect_done(x as int, y as int, w as int, dy + 1, 0), col);
        }
        dy = dy + 1;
    }
    proof {
        lemma_fb_ext(o, p.framebuffer@, rect_done(x as int, y as int, w as int, dy as int, 0),
            rect_cells(x as int, y as int, w as int, h as int), col);
    }
}

/// The cells `rectb` sets: the top and bottom rows `(x + t, y)` and
/// `(x + t, y + h - 1)` for `t < w`, and the left and right columns
/// `(x, y + t)` and `(x + w - 1, y + t)` for `t < h`.
pub open spec fn border_cells(x: int, y: int, w: int, h: int) -> spec_fn(int, int) -> bool {
    |i: int, j: int| (x <= i < x + w && (j == y || j == y + h - 1)) || (y <= j < y + h && (i == x || i == x + w - 1))
}

/// The rows part of `border_cells` for the first `k` columns.
pub open spec fn border_rows(x: int, y: int, h: int, k: int) -> spec_fn(int, int) -> bool {
    |i: int, j: int| x <= i < x + k && (j == y || j == y + h - 1)
}

/// The rows part, then the columns part for the first `k` rows.
pub open spec fn border_done(x: int, y: int, w: int, h: int, k: int) -> spec_fn(int, int) -> bool {
    |i: int, j: int| (x <= i < x + w && (j == y || j == y + h - 1)) || (y <= j < y + k && (i == x || i == x + w - 1))
}

/// Outline the `w` by `h` rectangle at `(x, y)` with `col` (clipped to the
/// screen).
pub fn rectb(p: &mut Pyxel, x: i32, y: i32, w: i32, h: i32, col: u32)
    requires
        w > 0 ==> x + w - 1 <= i32::MAX && fits(y + h) && fits(y + h - 1),
        h > 0 ==> y + h - 1 <= i32::MAX && fits(x + w) && fits(x + w - 1),
    ensures
        fb_painted(old(p).framebuffer@, final(p).framebuffer@, border_cells(x as int, y as int, w as int, h as int), col),
        final(p).frame_count == old(p).frame_count,
        final(p).seed == old(p).seed,
{
    let ghost o = p.framebuffer@;
    proof {
        lemma_fb_refl(o, border_rows(x as int, y as int, h as int, 0), col);
    }
    let mut dx: i32 = 0;
    while dx < w
        invariant
            0 <= dx,
            w > 0 ==> dx <= w,
            w <= 0 ==> dx == 0,
            w > 0 ==> x + w - 1 <= i32::MAX && fits(y + h) && fits(y + h - 1),
            o.len() == 16384,
            p.frame_count == old(p).frame_count,
            p.seed == old(p).seed,
            fb_painted(o, p.framebuffer@, border_rows(x as int, y as int, h as int, dx as int), col),
        decreases w - dx,
    {
        let ghost m0 = p.framebuffer@;
        pset(p, x + dx, y, col);
        let ghost m1 = p.framebuffer@;
        pset(p, x + dx, y + h - 1, col);
        proof {
            let r0 = border_rows(x as int, y as int, h as int, dx as int);
            lemma_fb_step(o, m0, r0, col, x + dx, y as int);
            let r1 = |i: int, j: int| r0(i, j) || (i == x + dx && j == y);
            lemma_fb_step(o, m1, r1, col, x + dx, y + h - 1);
            lemma_fb_ext(o, p.framebuffer@, |i: int, j: int| r1(i, j) || (i == x + dx && j == y + h - 1),
                border_rows(x as int, y as int, h as int, dx + 1), col);
        }
        dx = dx + 1;
    }
    proof {
        lemma_fb_ext(o, p.framebuffer@, border_rows(x as int, y as int, h as int, dx as int),
            border_done(x as int, y as int, w as int, h as int, 0), col);
    }
    let mut dy: i32 = 0;
    while dy < h
        invariant
            0 <= dy,
            h > 0 ==> dy <= h,
            h <= 0 ==> dy == 0,
            h > 0 ==> y + h - 1 <= i32::MAX && fits(x + w) && fits(x + w - 1),
            o.len() == 16384,
            p.frame_count == old(p).frame_count,
            p.seed == old(p).seed,
            fb_painted(o, p.framebuffer@, border_done(x as int, y as int, w as int, h as int, dy as int), col),
        decreases h - dy,
    {
        let ghost m0 = p.framebuffer@;
        pset(p, x, y + dy, col);
        let ghost m1 = p.framebuffer@;
        pset(p, x + w - 1, y + dy, col);
        proof {
            let r0 = border_done(x as int, y as int, w as int, h as int, dy as int);
            lemma_fb_step(o, m0, r0, col, x as int, y + dy);
            let r1 = |i: int, j: int| r0(i, j) || (i == x && j == y + dy);
            lemma_fb_step(o, m1, r1, col, x + w - 1, y + dy);
            lemma_fb_ext(o, p.framebuffer@, |i: int, j: int| r1(i, j) || (i == x + w - 1 && j == y + dy),
                border_done(x as int, y as int, w as int, h as int, dy + 1), col);
        }
        dy = dy + 1;
    }
    proof {
        lemma_fb_ext(o, p.framebuffer@, border_done(x as int, y as int, w as int, h as int, dy as int),
            border_cells(x as int, y as int, w as int, h as int), col);
    }
}

/// One step of the midpoint circle walk on `(ox, oy, d)`.
pub open spec fn circ_next(s: (int, int, int)) -> (int, int, int) {
    if s.2 < 0 {
        (s.0, s.1 + 1, s.2 + 4 * s.1 + 6)
    } else {
        (s.0 - 1, s.1 + 1, s.2 + 4 * (s.1 - s.0) + 10)
    }
}

/// The walk's state after `n` steps from `(r, 0, 3 - 2r)`.
pub open spec fn circ_state(r: int, n: nat) -> (int, int, int)
    decreases n,
{
    if n == 0 { (r, 0, 3 - 2 * r) } else { circ_next(circ_state(r, (n - 1) as nat)) }
}

/// The walk has not finished at step `n` (`ox >= oy`).
pub open spec fn circ_running(r: int, n: nat) -> bool {
    circ_state(r, n).0 >= circ_state(r, n).1
}

/// `(i, j)` is one of the eight points mirrored from the offsets `(ox, oy)`
/// around `(x, y)`.
pub open spec fn octant_points(x: int, y: int, s: (int, int, int), i: int, j: int) -> bool {
    let ox = s.0;
    let oy = s.1;
    ||| (i == x + ox && j == y + oy)
    ||| (i == x - ox && j == y + oy)
    ||| (i == x + ox && j == y - oy)
    ||| (i == x - ox && j == y - oy)
    ||| (i == x + oy && j == y + ox)
    ||| (i == x - oy && j == y + ox)
    ||| (i == x + oy && j == y - ox)
    ||| (i == x - oy && j == y - ox)
}

/// The points of the midpoint circle of radius `r` around `(x, y)`: the
/// eight mirrored points of every step of the walk before it finishes.
pub open spec fn circle_cells(x: int, y: int, r: int) -> spec_fn(int, int) -> bool {
    |i: int, j: int| exists|n: nat| circ_running(r, n) && octant_points(x, y, #[trigger] circ_state(r, n), i, j)
}

/// The points of the first `n` steps.
pub open spec fn circle_prefix(x: int, y: int, r: int, k: nat) -> spec_fn(int, int) -> bool {
    |i: int, j: int| exists|n: nat| n < k && octant_points(x, y, #[trigger] circ_state(r, n), i, j)
}

/// Every value one step computes from `s` fits in an `i32`.
pub open spec fn circ_step_fits(x: int, y: int, s: (int, int, int)) -> bool {
    let ox = s.0;
    let oy = s.1;
    let d = s.2;
    &&& fits(x + ox) && fits(x - ox) && fits(y + oy) && fits(y - oy)
    &&& fits(x + oy) && fits(x - oy) && fits(y + ox) && fits(y - ox)
    &&& d < 0 ==> fits(4 * oy) && fits(4 * oy + 6) && fits(d + 4 * oy + 6)
    &&& d >= 0 ==> fits(oy - ox) && fits(4 * (oy - ox)) && fits(4 * (oy - ox) + 10)
        && fits(d + 4 * (oy - ox) + 10) && fits(ox - 1)
    &&& fits(oy + 1)
}

/// Drawing the circle computes nothing out of `i32` range.
pub open spec fn circ_fits(x: int, y: int, r: int) -> bool {
    &&& fits(2 * r)
    &&& fits(3 - 2 * r)
    &&& forall|n: nat| circ_running(r, n) ==> #[trigger] circ_step_fits(x, y, circ_state(r, n))
}

/// `ox - oy` drops by at least one per step.
pub proof fn lemma_circ_gap(r: int, n: nat, m: nat)
    requires
        n <= m,
    ensures
        circ_state(r, m).0 - circ_state(r, m).1 <= circ_state(r, n).0 - circ_state(r, n).1 - (m - n),
    decreases m - n,
{
    if n < m {
        lemma_circ_gap(r, n, (m - 1) as nat);
    }
}

/// Draw the midpoint circle of radius `r` around `(x, y)` with `col`
/// (clipped to the screen).
pub fn circ(p: &mut Pyxel, x: i32, y: i32, r: i32, col: u32)
    requires
        circ_fits(x as int, y as int, r as int),
    ensures
        fb_painted(old(p).framebuffer@, final(p).framebuffer@, circle_cells(x as int, y as int, r as int), col),
        final(p).frame_count == old(p).frame_count,
        final(p).seed == old(p).seed,
{
    let ghost o = p.framebuffer@;
    let mut ox: i32 = r;
    let mut oy: i32 = 0;
    let mut d: i32 = 3 - 2 * r;
    let ghost mut n: nat = 0;
    proof {
        lemma_fb_refl(o, circle_prefix(x as int, y as int, r as int, 0), col);
    }
    while ox >= oy
        invariant
            circ_fits(x as int, y as int, r as int),
            (ox as int, oy as int, d as int) == circ_state(r as int, n),
            forall|m: nat| m < n ==> #[trigger] circ_running(r as int, m),
            o.len() == 16384,
            p.frame_count == old(p).frame_count,
            p.seed == old(p).seed,
            fb_painted(o, p.framebuffer@, circle_prefix(x as int, y as int, r as int, n), col),
        decreases ox - oy + 2,
    {
        let ghost s = circ_state(r as int, n);
        assert(circ_running(r as int, n));
        assert(circ_step_fits(x as int, y as int, s));
        let ghost m0 = p.framebuffer@;
        pset(p, x + ox, y + oy, col);
        pset(p, x - ox, y + oy, col);
        pset(p, x + ox, y - oy, col);
        pset(p, x - ox, y - oy, col);
        pset(p, x + oy, y + ox, col);
        pset(p, x - oy, y + ox, col);
        pset(p, x + oy, y - ox, col);
        pset(p, x - oy, y - ox, col);
        proof {
            let xi = x as int;
            let yi = y as int;
            let a = ox as int;
            let b = oy as int;
            let r0 = circle_prefix(xi, yi, r as int, n);
            let m1 = fb_set(m0, xi + a, yi + b, col);
            let m2 = fb_set(m1, xi - a, yi + b, col);
            let m3 = fb_set(m2, xi + a, yi - b, col);
            let m4 = fb_set(m3, xi - a, yi - b, col);
            let m5 = fb_set(m4, xi + b, yi + a, col);
            let m6 = fb_set(m5, xi - b, yi + a, col);
            let m7 = fb_set(m6, xi + b, yi - a, col);
            let r1 = |i: int, j: int| r0(i, j) || (i == xi + a && j == yi + b);
            let r2 = |i: int, j: int| r1(i, j) || (i == xi - a && j == yi + b);
            let r3 = |i: int, j: int| r2(i, j) || (i == xi + a && j == yi - b);
            let r4 = |i: int, j: int| r3(i, j) || (i == xi - a && j == yi - b);
            let r5 = |i: int, j: int| r4(i, j) || (i == xi + b && j == yi + a);
            let r6 = |i: int, j: int| r5(i, j) || (i == xi - b && j == yi + a);
            let r7 = |i: int, j: int| r6(i, j) || (i == xi + b && j == yi - a);
            lemma_fb_step(o, m0, r0, col, xi + a, yi + b);
            lemma_fb_step(o, m1, r1, col, xi - a, yi + b);
            lemma_fb_step(o, m2, r2, col, xi + a, yi - b);
            lemma_fb_step(o, m3, r3, col, xi - a, yi - b);
            lemma_fb_step(o, m4, r4, col, xi + b, yi + a);
            lemma_fb_step(o, m5, r5, col, xi - b, yi + a);
            lemma_fb_step(o, m6, r6, col, xi + b, yi - a);
            lemma_fb_step(o, m7, r7, col, xi - b, yi - a);
            let r8 = |i: int, j: int| r7(i, j) || (i == xi - b && j == yi - a);
            assert forall|i: int, j: int| on_screen(i, j) implies #[trigger] r8(i, j)
                == circle_prefix(xi, yi, r as int, n + 1)(i, j) by {
                if r8(i, j) && !r0(i, j) {
                    assert(octant_points(xi, yi, circ_state(r as int, n), i, j));
                }
                if circle_prefix(xi, yi, r as int, n + 1)(i, j) {
                    let k = choose|k: nat| k < n + 1 && octant_points(xi, yi, #[trigger] circ_state(r as int, k), i, j);
                    if k < n {
                        assert(r0(i, j));
                    }
                }
            }
            lemma_fb_ext(o, p.framebuffer@, r8, circle_prefix(xi, yi, r as int, n + 1), col);
        }
        if d < 0 {
            d = d + (4 * oy + 6);
        } else {
            d = d + (4 * (oy - ox) + 10);
            ox = ox - 1;
        }
        oy = oy + 1;
        proof {
            n = n + 1;
            assert(circ_state(r as int, n) == circ_next(s));
        }
    }
    proof {
        let xi = x as int;
        let yi = y as int;
        assert forall|i: int, j: int| on_screen(i, j) implies #[trigger] circle_prefix(xi, yi, r as int, n)(i, j)
            == circle_cells(xi, yi, r as int)(i, j) by {
            if circle_prefix(xi, yi, r as int, n)(i, j) {
                let k = choose|k: nat| k < n && octant_points(xi, yi, #[trigger] circ_state(r as int, k), i, j);
                assert(circ_running(r as int, k));
            }
            if circle_cells(xi, yi, r as int)(i, j) {
                let k = choose|k: nat| circ_running(r as int, k) && octant_points(xi, yi, #[trigger] circ_state(r as int, k), i, j);
                if k >= n {
                    lemma_circ_gap(r as int, n, k);
                }
            }
        }
        lemma_fb_ext(o, p.framebuffer@, circle_prefix(xi, yi, r as int, n), circle_cells(xi, yi, r as int), col);
    }
}

/// Draw the circle outline: the same points as `circ`.
pub fn circb(p: &mut Pyxel, x: i32, y: i32, r: i32, col: u32)
    requires
        circ_fits(x as int, y as int, r as int),
    ensures
        fb_painted(old(p).framebuffer@, final(p).framebuffer@, circle_cells(x as int, y as int, r as int), col),
        final(p).frame_count == old(p).frame_count,
        final(p).seed == old(p).seed,
{
    circ(p, x, y, r, col);
}

/// A 16 by 16 map of tile values.
pub struct Tilemap {
    pub tiles: [u32; 256],
}

impl Tilemap {
    /// A map of zeros.
    pub fn new() -> (t: Tilemap)
        ensures
            forall|k: int| 0 <= k < 256 ==> t.tiles@[k] == 0,
    {
        Tilemap { tiles: [0u32; 256] }
    }

    /// The tile at `(x, y)` paired with 0; `(0, 0)` off the map.
    pub fn pget(&self, x: i32, y: i32) -> (r: (u32, u32))
        ensures
            r == if 0 <= x < 16 && 0 <= y < 16 { (self.tiles@[y * 16 + x], 0u32) } else { (0u32, 0u32) },
    {
        if x >= 0 && x < 16 && y >= 0 && y < 16 {
            let val = self.tiles[y as usize * 16 + x as usize];
            (val, 0)
        } else {
            (0, 0)
        }
    }

    /// Set the tile at `(x, y)` to the first value of `val`; nothing off the
    /// map.
    pub fn pset(&mut self, x: i32, y: i32, val: (u32, u32))
        ensures
            final(self).tiles@ == if 0 <= x < 16 && 0 <= y < 16 {
                old(self).tiles@.update(y * 16 + x, val.0)
            } else {
                old(self).tiles@
            },
    {
        if x >= 0 && x < 16 && y >= 0 && y < 16 {
            self.tiles[y as usize * 16 + x as usize] = val.0;
        }
    }

    /// Set every tile to the first value of `val`.
    pub fn cls(&mut self, val: (u32, u32))
        ensures
            forall|k: int| 0 <= k < 256 ==> final(self).tiles@[k] == val.0,
    {
        let mut i: usize = 0;
        while i < 256
            invariant
                i <= 256,
                self.tiles@.len() == 256,
                forall|k: int| 0 <= k < i ==> self.tiles@[k] == val.0,
            decreases 256 - i,
        {
            self.tiles[i] = val.0;
            i = i + 1;
        }
    }
}

/// A tile set on the map reads back (paired with 0); other tiles keep their
/// values.
pub proof fn law_tile_set_then_get(t: Seq<u32>, x: int, y: int, v: u32, i: int, j: int)
    requires
        t.len() == 256,
        0 <= x < 16,
        0 <= y < 16,
        0 <= i < 16,
        0 <= j < 16,
    ensures
        t.update(y * 16 + x, v)[y * 16 + x] == v,
        (i != x || j != y) ==> t.update(y * 16 + x, v)[j * 16 + i] == t[j * 16 + i],
{
}

impl Default for Tilemap {
    fn default() -> (t: Tilemap)
        ensures
            forall|k: int| 0 <= k < 256 ==> t.tiles@[k] == 0,
    {
        Tilemap::new()
    }
}

} // verus!
