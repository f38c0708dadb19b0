//! A pyxel-style drawing context: a full-colour canvas painted with
//! palette colours.
use vstd::prelude::*;
use crate::sprite::{ColorMode, SpriteData, spec_write, lemma_offset_fits};
use crate::paint::{cell_off, painted_cells, lemma_cells_refl, lemma_cells_ext, lemma_cells_step};

verus! {

/// Byte offset of pixel `(x, y)` in a full-colour canvas `w` pixels wide.
pub open spec fn px_off(w: int, x: int, y: int) -> int {
    cell_off(w, 4, x, y)
}

/// `painted_cells` for a full-colour canvas (4 bytes per pixel).
pub open spec fn painted(
    old: Seq<u8>,
    new: Seq<u8>,
    w: int,
    h: int,
    region: spec_fn(int, int) -> bool,
    c: Seq<u8>,
) -> bool {
    painted_cells(old, new, w, h, 4, region, c)
}

/// Squared RGB distance between a colour and a palette entry.
pub open spec fn color_dist(r: u8, g: u8, b: u8, p: [u8; 4]) -> int {
    (r - p[0]) * (r - p[0]) + (g - p[1]) * (g - p[1]) + (b - p[2]) * (b - p[2])
}

/// Index of the first palette entry among the first `n` at least distance
/// from `(r, g, b)`: `(index, distance)`; `(0, u32::MAX)` for no entry.
pub open spec fn closest_upto(pal: Seq<[u8; 4]>, r: u8, g: u8, b: u8, n: nat) -> (int, int)
    decreases n,
{
    if n == 0 {
        (0, 0xffff_ffff)
    } else {
        let (i, d) = closest_upto(pal, r, g, b, (n - 1) as nat);
        let dn = color_dist(r, g, b, pal[n - 1]);
        if dn < d { (n - 1, dn) } else { (i, d) }
    }
}

/// The palette index reported for colour `(r, g, b)`: the first nearest
/// entry, truncated to a byte.
pub open spec fn closest_index(pal: Seq<[u8; 4]>, r: u8, g: u8, b: u8) -> u8 {
    (closest_upto(pal, r, g, b, pal.len()).0 % 256) as u8
}

/// The RGBA colour of a palette index (transparent black past the palette).
pub open spec fn palette_rgba(pal: Seq<[u8; 4]>, index: u8) -> [u8; 4] {
    if (index as int) < pal.len() { pal[index as int] } else { [0u8, 0u8, 0u8, 0u8] }
}

/// The 16-colour pyxel palette (RGBA): black, navy, purple, green, brown,
/// dark blue, light blue, white, red, orange, yellow, lime, cyan, gray,
/// pink, peach.
pub const PYXEL_PALETTE: [[u8; 4]; 16] = [
    [0, 0, 0, 255],
    [43, 43, 87, 255],
    [126, 37, 83, 255],
    [0, 135, 81, 255],
    [171, 82, 54, 255],
    [24, 57, 95, 255],
    [120, 183, 255, 255],
    [255, 255, 255, 255],
    [255, 0, 77, 255],
    [255, 161, 0, 255],
    [255, 240, 53, 255],
    [0, 231, 86, 255],
    [41, 173, 255, 255],
    [131, 118, 156, 255],
    [255, 119, 168, 255],
    [255, 204, 170, 255],
];

/// Drawing context: a full-colour canvas and a colour palette.
pub struct DrawingContext {
    pub canvas: SpriteData,
    pub width: u32,
    pub height: u32,
    pub palette: Vec<[u8; 4]>,
}

impl DrawingContext {
    /// The canvas is a well-formed full-colour sprite of the context's size,
    /// addressable by `i32` coordinates.
    pub open spec fn wf(&self) -> bool {
        &&& self.canvas.wf()
        &&& self.canvas.mode == ColorMode::FullColor
        &&& self.canvas.width == self.width
        &&& self.canvas.height == self.height
        &&& self.width <= i32::MAX
        &&& self.height <= i32::MAX
    }

    pub open spec fn pix(&self) -> Seq<u8> {
        self.canvas.pixels@
    }

    /// The canvas changed by painting `region` with colour `c`; everything
    /// else is unchanged.
    pub open spec fn paints(&self, old: &Self, region: spec_fn(int, int) -> bool, c: [u8; 4]) -> bool {
        &&& self.wf()
        &&& self.width == old.width
        &&& self.height == old.height
        &&& self.palette@ == old.palette@
        &&& painted(old.pix(), self.pix(), self.width as int, self.height as int, region, c@)
    }

    /// A context `width` by `height` with a blank canvas (no pixel stored).
    pub fn new(width: u32, height: u32, palette: Vec<[u8; 4]>) -> (ctx: DrawingContext)
        requires
            width <= i32::MAX,
            height <= i32::MAX,
            width * height * 4 <= usize::MAX,
        ensures
            ctx.wf(),
            ctx.width == width,
            ctx.height == height,
            ctx.palette@ == palette@,
            ctx.pix().len() == 0,
    {
        let canvas = SpriteData::new(width, height, ColorMode::FullColor);
        DrawingContext { canvas, width, height, palette }
    }

    /// RGBA colour of a palette index; transparent black past the palette.
    pub fn index_to_rgba(&self, index: u8) -> (c: [u8; 4])
        ensures
            c == palette_rgba(self.palette@, index),
    {
        if (index as usize) < self.palette.len() {
            self.palette[index as usize]
        } else {
            [0u8, 0u8, 0u8, 0u8]
        }
    }

    /// First palette index nearest (in squared RGB distance) to the colour;
    /// alpha is ignored.
    pub fn find_closest_palette_index(&self, r: u8, g: u8, b: u8, a: u8) -> (idx: u8)
        ensures
            idx == closest_index(self.palette@, r, g, b),
    {
        let mut closest: usize = 0;
        let mut min_dist: u32 = 0xffff_ffff;
        let n = self.palette.len();
        let mut k: usize = 0;
        while k < n
            invariant
                n == self.palette@.len(),
                k <= n,
                (closest as int, min_dist as int) == closest_upto(self.palette@, r, g, b, k as nat),
            decreases n - k,
        {
            let p = self.palette[k];
            let dr: i32 = r as i32 - p[0] as i32;
            let dg: i32 = g as i32 - p[1] as i32;
            let db: i32 = b as i32 - p[2] as i32;
            assert(dr * dr <= 65025 && dg * dg <= 65025 && db * db <= 65025) by (nonlinear_arith)
                requires -255 <= dr <= 255, -255 <= dg <= 255, -255 <= db <= 255;
            assert(0 <= dr * dr && 0 <= dg * dg && 0 <= db * db) by (nonlinear_arith);
            let dist: u32 = (dr * dr + dg * dg + db * db) as u32;
            if dist < min_dist {
                min_dist = dist;
                closest = k;
            }
            k = k + 1;
        }
        assert(self.palette@.len() == n);
        (closest % 256) as u8
    }

    /// Set one palette entry; an index past the palette is ignored.
    pub fn set_palette(&mut self, index: u8, r: u8, g: u8, b: u8, a: u8)
        ensures
            final(self).canvas == old(self).canvas,
            final(self).width == old(self).width,
            final(self).height == old(self).height,
            final(self).palette@ == (if (index as int) < old(self).palette@.len() {
                old(self).palette@.update(index as int, [r, g, b, a])
            } else {
                old(self).palette@
            }),
    {
        if (index as usize) < self.palette.len() {
            self.palette.set(index as usize, [r, g, b, a]);
        }
    }

    /// Write one pixel with an RGBA colour when it lies on the canvas;
    /// otherwise do nothing.
    pub fn set_pixel_safe(&mut self, x: u32, y: u32, rgba: &[u8; 4])
        requires
            old(self).wf(),
        ensures
            final(self).wf(),
            final(self).width == old(self).width,
            final(self).height == old(self).height,
            final(self).palette == old(self).palette,
            final(self).pix() == (if x < old(self).width && y < old(self).height {
                spec_write(old(self).pix(), px_off(old(self).width as int, x as int, y as int), rgba@)
            } else {
                old(self).pix()
            }),
    {
        if x < self.width && y < self.height {
            let r = self.canvas.set_pixel(x, y, rgba.as_slice());
            assert(r is Ok);
        }
    }

    /// `pset(x, y, color)`: paint one pixel with a palette colour.
    pub fn pset(&mut self, x: i32, y: i32, color: u8)
        requires
            old(self).wf(),
        ensures
            final(self).paints(old(self), |i: int, j: int| i == x && j == y, palette_rgba(old(self).palette@, color)),
    {
        let rgba = self.index_to_rgba(color);
        let ghost o = self.pix();
        let ghost empty = |i: int, j: int| false;
        proof { lemma_painted_refl(o, self.width as int, self.height as int, rgba@); }
        self.plot(x, y, &rgba, Ghost(o), Ghost(empty), Ghost(|i: int, j: int| i == x && j == y));
    }

    /// Paint the pixel at `i32` coordinates `(x, y)` (a negative coordinate
    /// wraps to a large one, off any addressable canvas), extending the
    /// region painted so far from buffer `o` to region `next`.
    fn plot(
        &mut self,
        x: i32,
        y: i32,
        rgba: &[u8; 4],
        Ghost(o): Ghost<Seq<u8>>,
        Ghost(region): Ghost<spec_fn(int, int) -> bool>,
        Ghost(next): Ghost<spec_fn(int, int) -> bool>,
    )
        requires
            old(self).wf(),
            painted(o, old(self).pix(), old(self).width as int, old(self).height as int, region, rgba@),
            forall|i: int, j: int| #[trigger] next(i, j) == (region(i, j) || (i == x && j == y)),
        ensures
            final(self).wf(),
            final(self).width == old(self).width,
            final(self).height == old(self).height,
            final(self).palette == old(self).palette,
            painted(o, final(self).pix(), old(self).width as int, old(self).height as int, next, rgba@),
    {
        proof { lemma_wrap_i32(x, self.width); lemma_wrap_i32(y, self.height); }
        let ghost before = self.pix();
        self.set_pixel_safe(x as u32, y as u32, rgba);
        proof {
            lemma_paint_step(o, before, self.pix(), self.width as int, self.height as int, region, rgba@, x as int, y as int);
            lemma_painted_ext(o, self.pix(), self.width as int, self.height as int,
                |i: int, j: int| region(i, j) || (i == x as int && j == y as int), next, rgba@);
        }
    }

    /// `rect(x, y, w, h, color)`: draw the outline of the `w` by `h`
    /// rectangle whose top left corner is `(x, y)`; nothing when `w` or `h`
    /// is zero.
    pub fn rect(&mut self, x: i32, y: i32, w: u32, h: u32, color: u8)
        requires
            old(self).wf(),
            w <= 0x8000_0000,
            x + w <= 0x8000_0000,
            y + h <= 0x8000_0000,
            w > 0 ==> h <= i32::MAX,
            (w > 0 && h > 1) ==> y + h <= i32::MAX,
            (h > 2 && w > 1) ==> x + w <= i32::MAX && w <= i32::MAX,
        ensures
            final(self).paints(old(self), border_region(x as int, y as int, w as int, h as int),
                palette_rgba(old(self).palette@, color)),
    {
        let ghost o = self.pix();
        let ghost ww = self.width as int;
        let ghost hh = self.height as int;
        if w == 0 || h == 0 {
            proof {
                lemma_painted_refl(o, ww, hh, palette_rgba(self.palette@, color)@);
                assert(painted(o, o, ww, hh, border_region(x as int, y as int, w as int, h as int),
                    palette_rgba(self.palette@, color)@));
            }
            return;
        }
        let rgba = self.index_to_rgba(color);
        proof { lemma_painted_refl(o, ww, hh, rgba@); }
        let mut dx: u32 = 0;
        while dx < w
            invariant
                self.wf(),
                self.width == old(self).width,
                self.height == old(self).height,
                self.palette == old(self).palette,
                ww == self.width,
                hh == self.height,
                rgba == palette_rgba(old(self).palette@, color),
                o == old(self).pix(),
                dx <= w,
                0 < w <= 0x8000_0000,
                0 < h <= i32::MAX,
                h > 1 ==> y + h <= i32::MAX,
                x + w <= 0x8000_0000,
                y + h <= 0x8000_0000,
                painted(o, self.pix(), ww, hh, border_rows(x as int, y as int, h as int, dx as int), rgba@),
            decreases w - dx,
        {
            let px: i32 = x + dx as i32;
            self.plot(px, y, &rgba, Ghost(o),
                Ghost(border_rows(x as int, y as int, h as int, dx as int)),
                Ghost(border_rows_top(x as int, y as int, h as int, dx as int)));
            if h > 1 {
                let by: i32 = y + h as i32 - 1;
                self.plot(px, by, &rgba, Ghost(o),
                    Ghost(border_rows_top(x as int, y as int, h as int, dx as int)),
                    Ghost(border_rows(x as int, y as int, h as int, dx + 1)));
            } else {
                proof {
                    lemma_painted_ext(o, self.pix(), ww, hh,
                        border_rows_top(x as int, y as int, h as int, dx as int),
                        border_rows(x as int, y as int, h as int, dx + 1), rgba@);
                }
            }
            dx = dx + 1;
        }
        let hm1: i32 = h as i32 - 1;
        let mut dy: i32 = 1;
        proof {
            lemma_painted_ext(o, self.pix(), ww, hh,
                border_rows(x as int, y as int, h as int, w as int),
                border_cols(x as int, y as int, w as int, h as int, 1), rgba@);
        }
        while dy < hm1
            invariant
                self.wf(),
                self.width == old(self).width,
                self.height == old(self).height,
                self.palette == old(self).palette,
                ww == self.width,
                hh == self.height,
                rgba == palette_rgba(old(self).palette@, color),
                o == old(self).pix(),
                hm1 == h - 1,
                1 <= dy,
                dy <= hm1 || dy == 1,
                0 < w <= 0x8000_0000,
                0 < h <= i32::MAX,
                (h > 2 && w > 1) ==> x + w <= i32::MAX && w <= i32::MAX,
                x + w <= 0x8000_0000,
                y + h <= 0x8000_0000,
                painted(o, self.pix(), ww, hh, border_cols(x as int, y as int, w as int, h as int, dy as int), rgba@),
            decreases hm1 - dy,
        {
            let py: i32 = y + dy;
            self.plot(x, py, &rgba, Ghost(o),
                Ghost(border_cols(x as int, y as int, w as int, h as int, dy as int)),
                Ghost(border_cols_left(x as int, y as int, w as int, h as int, dy as int)));
            if w > 1 {
                let rx: i32 = x + w as i32 - 1;
                self.plot(rx, py, &rgba, Ghost(o),
                    Ghost(border_cols_left(x as int, y as int, w as int, h as int, dy as int)),
                    Ghost(border_cols(x as int, y as int, w as int, h as int, dy + 1)));
            } else {
                proof {
                    lemma_painted_ext(o, self.pix(), ww, hh,
                        border_cols_left(x as int, y as int, w as int, h as int, dy as int),
                        border_cols(x as int, y as int, w as int, h as int, dy + 1), rgba@);
                }
            }
            dy = dy + 1;
        }
        proof {
            lemma_painted_ext(o, self.pix(), ww, hh,
                border_cols(x as int, y as int, w as int, h as int, dy as int),
                border_region(x as int, y as int, w as int, h as int), rgba@);
        }
    }

    /// `circfill(x, y, r, color)`: fill the disk of radius `r` centred at
    /// `(x, y)` (every point at squared distance at most `r * r`); nothing
    /// for a negative radius.
    pub fn circfill(&mut self, x: i32, y: i32, r: i32, color: u8)
        requires
            old(self).wf(),
            i32::MIN < r <= 32767,
            r >= 0 ==> (i32::MIN <= x - r && x + r <= i32::MAX && i32::MIN <= y - r && y + r <= i32::MAX),
        ensures
            final(self).paints(old(self), disk_region(x as int, y as int, r as int),
                palette_rgba(old(self).palette@, color)),
    {
        let rgba = self.index_to_rgba(color);
        let ghost o = self.pix();
        let ghost ww = self.width as int;
        let ghost hh = self.height as int;
        proof { lemma_painted_refl(o, ww, hh, rgba@); }
        let mut dy: i32 = -r;
        proof {
            lemma_painted_ext(o, self.pix(), ww, hh, |i: int, j: int| false,
                disk_partial(x as int, y as int, r as int, dy as int, -r), rgba@);
        }
        while dy <= r
            invariant
                self.wf(),
                self.width == old(self).width,
                self.height == old(self).height,
                self.palette == old(self).palette,
                ww == self.width,
                hh == self.height,
                rgba == palette_rgba(old(self).palette@, color),
                o == old(self).pix(),
                i32::MIN < r <= 32767,
                r >= 0 ==> (i32::MIN <= x - r && x + r <= i32::MAX && i32::MIN <= y - r && y + r <= i32::MAX),
                -r <= dy,
                r >= 0 ==> dy <= r + 1,
                painted(o, self.pix(), ww, hh, disk_partial(x as int, y as int, r as int, dy as int, -r), rgba@),
            decreases r + 1 - dy,
        {
            let mut dx: i32 = -r;
            while dx <= r
                invariant
                    self.wf(),
                    self.width == old(self).width,
                    self.height == old(self).height,
                    self.palette == old(self).palette,
                    ww == self.width,
                    hh == self.height,
                    rgba == palette_rgba(old(self).palette@, color),
                    o == old(self).pix(),
                    0 <= r <= 32767,
                    i32::MIN <= x - r && x + r <= i32::MAX && i32::MIN <= y - r && y + r <= i32::MAX,
                    -r <= dy <= r,
                    -r <= dx <= r + 1,
                    painted(o, self.pix(), ww, hh, disk_partial(x as int, y as int, r as int, dy as int, dx as int), rgba@),
                decreases r + 1 - dx,
            {
                assert(dx * dx <= r * r && dy * dy <= r * r && 0 <= dx * dx && 0 <= dy * dy) by (nonlinear_arith)
                    requires -r <= dx <= r, -r <= dy <= r;
                assert(r * r <= 32767 * 32767) by (nonlinear_arith) requires 0 <= r <= 32767;
                if dx * dx + dy * dy <= r * r {
                    let px: i32 = x + dx;
                    let py: i32 = y + dy;
                    self.plot(px, py, &rgba, Ghost(o),
                        Ghost(disk_partial(x as int, y as int, r as int, dy as int, dx as int)),
                        Ghost(disk_partial(x as int, y as int, r as int, dy as int, dx + 1)));
                } else {
                    proof {
                        lemma_painted_ext(o, self.pix(), ww, hh,
                            disk_partial(x as int, y as int, r as int, dy as int, dx as int),
                            disk_partial(x as int, y as int, r as int, dy as int, dx + 1), rgba@);
                    }
                }
                dx = dx + 1;
            }
            proof {
                lemma_painted_ext(o, self.pix(), ww, hh,
                    disk_partial(x as int, y as int, r as int, dy as int, dx as int),
                    disk_partial(x as int, y as int, r as int, dy + 1, -r), rgba@);
            }
            dy = dy + 1;
        }
        proof {
            lemma_painted_ext(o, self.pix(), ww, hh,
                disk_partial(x as int, y as int, r as int, dy as int, -r),
                disk_region(x as int, y as int, r as int), rgba@);
        }
    }

    /// `line(x1, y1, x2, y2, color)`: draw the Bresenham line between the
    /// two points, both end points included.
    pub fn line(&mut self, x1: i32, y1: i32, x2: i32, y2: i32, color: u8)
        requires
            old(self).wf(),
        ensures
            final(self).paints(old(self), line_region(x1 as int, y1 as int, x2 as int, y2 as int),
                palette_rgba(old(self).palette@, color)),
    {
        let rgba = self.index_to_rgba(color);
        self.bresenham_line(x1, y1, x2, y2, &rgba);
    }

    /// Walk from `(x0, y0)` to `(x1, y1)` by Bresenham's all-octant rule,
    /// painting every point visited (end points included).
    fn bresenham_line(&mut self, x0: i32, y0: i32, x1: i32, y1: i32, rgba: &[u8; 4])
        requires
            old(self).wf(),
        ensures
            final(self).wf(),
            final(self).width == old(self).width,
            final(self).height == old(self).height,
            final(self).palette == old(self).palette,
            painted(old(self).pix(), final(self).pix(), old(self).width as int, old(self).height as int,
                line_region(x0 as int, y0 as int, x1 as int, y1 as int), rgba@),
    {
        let ghost o = self.pix();
        let ghost ww = self.width as int;
        let ghost hh = self.height as int;
        let dx: i64 = if x1 >= x0 { x1 as i64 - x0 as i64 } else { x0 as i64 - x1 as i64 };
        let dy: i64 = if y1 >= y0 { y1 as i64 - y0 as i64 } else { y0 as i64 - y1 as i64 };
        let sx: i32 = if x0 < x1 { 1 } else { -1 };
        let sy: i32 = if y0 < y1 { 1 } else { -1 };
        let mut err: i64 = dx - dy;
        let mut x: i32 = x0;
        let mut y: i32 = y0;
        let ghost s0 = (x0 as int, y0 as int, dx - dy);
        let ghost mut k: nat = 0;
        let ghost mut i: int = 0;
        let ghost mut j: int = 0;
        proof {
            lemma_painted_refl(o, ww, hh, rgba@);
            lemma_painted_ext(o, self.pix(), ww, hh, |a: int, b: int| false,
                line_prefix(s0, dx as int, dy as int, sx as int, sy as int, 0), rgba@);
        }
        loop
            invariant_except_break
                self.wf(),
                self.width == old(self).width,
                self.height == old(self).height,
                self.palette == old(self).palette,
                ww == self.width,
                hh == self.height,
                o == old(self).pix(),
                dx == (if x1 >= x0 { x1 - x0 } else { x0 - x1 }),
                dy == (if y1 >= y0 { y1 - y0 } else { y0 - y1 }),
                sx == (if x0 < x1 { 1int } else { -1int }),
                sy == (if y0 < y1 { 1int } else { -1int }),
                s0 == (x0 as int, y0 as int, dx - dy),
                0 <= i <= dx,
                0 <= j <= dy,
                sx == 1 ==> x - x0 == i,
                sx == -1 ==> x0 - x == i,
                sy == 1 ==> y - y0 == j,
                sy == -1 ==> y0 - y == j,
                err == dx - dy + dx * j - dy * i,
                -2 * (dx + dy) <= err <= 2 * (dx + dy),
                bres_state(s0, dx as int, dy as int, sx as int, sy as int, k) == (x as int, y as int, err as int),
                forall|m: nat| m < k ==> !bres_at(
                    #[trigger] bres_state(s0, dx as int, dy as int, sx as int, sy as int, m), x1 as int, y1 as int),
                painted(o, self.pix(), ww, hh, line_prefix(s0, dx as int, dy as int, sx as int, sy as int, k), rgba@),
            ensures
                self.wf(),
                self.width == old(self).width,
                self.height == old(self).height,
                self.palette == old(self).palette,
                painted(o, self.pix(), ww, hh, line_region(x0 as int, y0 as int, x1 as int, y1 as int), rgba@),
            decreases (dx - i) + (dy - j),
        {
            self.plot(x, y, rgba, Ghost(o),
                Ghost(line_prefix(s0, dx as int, dy as int, sx as int, sy as int, k)),
                Ghost(line_prefix(s0, dx as int, dy as int, sx as int, sy as int, k + 1)));
            if x == x1 && y == y1 {
                proof {
                    lemma_line_done(s0, dx as int, dy as int, sx as int, sy as int, x1 as int, y1 as int, k);
                    assert(line_region(x0 as int, y0 as int, x1 as int, y1 as int)
                        == walk_region(s0, dx as int, dy as int, sx as int, sy as int, x1 as int, y1 as int));
                    lemma_painted_ext(o, self.pix(), ww, hh,
                        line_prefix(s0, dx as int, dy as int, sx as int, sy as int, k + 1),
                        line_region(x0 as int, y0 as int, x1 as int, y1 as int), rgba@);
                }
                break;
            }
            proof {
                assert(i == dx && j == dy ==> x == x1 && y == y1);
                lemma_bres_step(dx as int, dy as int, i, j, err as int);
            }
            let e2: i64 = 2 * err;
            if e2 > -dy {
                err = err - dy;
                x = x + sx;
                proof { i = i + 1; }
            }
            if e2 < dx {
                err = err + dx;
                y = y + sy;
                proof { j = j + 1; }
            }
            proof {
                k = k + 1;
            }
        }
    }

    /// The glyph rows of a character.
    fn glyph_rows(ch: char) -> (g: [u8; 6])
        ensures
            g@ == glyph(ch),
    {
        match ch {
            'A' => [0b110, 0b1001, 0b1111, 0b1001, 0b1001, 0b0],
            'B' => [0b1110, 0b1001, 0b1110, 0b1001, 0b1110, 0b0],
            'C' => [0b110, 0b1000, 0b1000, 0b1000, 0b110, 0b0],
            'D' => [0b1110, 0b1001, 0b1001, 0b1001, 0b1110, 0b0],
            'E' => [0b1111, 0b1000, 0b1110, 0b1000, 0b1111, 0b0],
            'F' => [0b1111, 0b1000, 0b1110, 0b1000, 0b1000, 0b0],
            'G' => [0b110, 0b1000, 0b1011, 0b1001, 0b110, 0b0],
            'H' => [0b1001, 0b1001, 0b1111, 0b1001, 0b1001, 0b0],
            'I' => [0b111, 0b10, 0b10, 0b10, 0b111, 0b0],
            'J' => [0b1110, 0b10, 0b10, 0b1010, 0b100, 0b0],
            'K' => [0b1001, 0b1010, 0b1100, 0b1010, 0b1001, 0b0],
            'L' => [0b1000, 0b1000, 0b1000, 0b1000, 0b1111, 0b0],
            'M' => [0b10001, 0b11011, 0b10101, 0b10001, 0b10001, 0b0],
            'N' => [0b1001, 0b1101, 0b1011, 0b1001, 0b1001, 0b0],
            'O' => [0b110, 0b1001, 0b1001, 0b1001, 0b110, 0b0],
            'P' => [0b1110, 0b1001, 0b1110, 0b1000, 0b1000, 0b0],
            'Q' => [0b110, 0b1001, 0b1001, 0b1010, 0b101, 0b0],
            'R' => [0b1110, 0b1001, 0b1110, 0b1010, 0b1001, 0b0],
            'S' => [0b111, 0b1000, 0b110, 0b1, 0b1110, 0b0],
            'T' => [0b1111, 0b10, 0b10, 0b10, 0b10, 0b0],
            'U' => [0b1001, 0b1001, 0b1001, 0b1001, 0b110, 0b0],
            'V' => [0b1001, 0b1001, 0b1001, 0b110, 0b10, 0b0],
            'W' => [0b10001, 0b10101, 0b10101, 0b10101, 0b1010, 0b0],
            'X' => [0b1001, 0b110, 0b110, 0b110, 0b1001, 0b0],
            'Y' => [0b1001, 0b110, 0b10, 0b10, 0b10, 0b0],
            'Z' => [0b1111, 0b10, 0b100, 0b1000, 0b1111, 0b0],
            '0' => [0b110, 0b1001, 0b1001, 0b1001, 0b110, 0b0],
            '1' => [0b10, 0b110, 0b10, 0b10, 0b111, 0b0],
            '2' => [0b110, 0b1001, 0b10, 0b100, 0b1111, 0b0],
            '3' => [0b1110, 0b1, 0b110, 0b1, 0b1110, 0b0],
            '4' => [0b1000, 0b1100, 0b1010, 0b1111, 0b10, 0b0],
            '5' => [0b1111, 0b1000, 0b1110, 0b1, 0b1110, 0b0],
            '6' => [0b110, 0b1000, 0b1110, 0b1001, 0b110, 0b0],
            '7' => [0b1111, 0b1, 0b10, 0b100, 0b1000, 0b0],
            '8' => [0b110, 0b1001, 0b110, 0b1001, 0b110, 0b0],
            '9' => [0b110, 0b1001, 0b111, 0b1, 0b110, 0b0],
            ':' => [0b0, 0b10, 0b0, 0b10, 0b0, 0b0],
            '.' => [0b0, 0b0, 0b0, 0b0, 0b10, 0b0],
            ',' => [0b0, 0b0, 0b0, 0b10, 0b100, 0b0],
            '!' => [0b10, 0b10, 0b10, 0b0, 0b10, 0b0],
            '?' => [0b110, 0b1, 0b10, 0b0, 0b10, 0b0],
            _ => [0u8, 0, 0, 0, 0, 0],
        }
    }

    /// Draw one character of the bitmap font with its top left at `(x, y)`,
    /// extending the region painted so far.
    fn draw_char(
        &mut self,
        ch: char,
        x: i32,
        y: i32,
        rgba: &[u8; 4],
        Ghost(o): Ghost<Seq<u8>>,
        Ghost(base): Ghost<spec_fn(int, int) -> bool>,
    )
        requires
            old(self).wf(),
            x + 3 <= i32::MAX,
            y + 5 <= i32::MAX,
            painted(o, old(self).pix(), old(self).width as int, old(self).height as int, base, rgba@),
        ensures
            final(self).wf(),
            final(self).width == old(self).width,
            final(self).height == old(self).height,
            final(self).palette == old(self).palette,
            painted(o, final(self).pix(), old(self).width as int, old(self).height as int,
                char_partial(base, x as int, y as int, ch, 6, 0), rgba@),
    {
        let ghost ww = self.width as int;
        let ghost hh = self.height as int;
        let bitmap = Self::glyph_rows(ch);
        proof {
            lemma_painted_ext(o, self.pix(), ww, hh, base, char_partial(base, x as int, y as int, ch, 0, 0), rgba@);
        }
        let mut row: usize = 0;
        while row < 6
            invariant
                self.wf(),
                self.width == old(self).width,
                self.height == old(self).height,
                self.palette == old(self).palette,
                ww == self.width,
                hh == self.height,
                x + 3 <= i32::MAX,
                y + 5 <= i32::MAX,
                row <= 6,
                bitmap@ == glyph(ch),
                painted(o, self.pix(), ww, hh, char_partial(base, x as int, y as int, ch, row as int, 0), rgba@),
            decreases 6 - row,
        {
            let bits = bitmap[row];
            let y_pos: i32 = y + row as i32;
            let mut col: u8 = 0;
            while col < 4
                invariant
                    self.wf(),
                    self.width == old(self).width,
                    self.height == old(self).height,
                    self.palette == old(self).palette,
                    ww == self.width,
                    hh == self.height,
                    x + 3 <= i32::MAX,
                    row < 6,
                    col <= 4,
                    bits == glyph(ch)[row as int],
                    y_pos == y + row,
                    painted(o, self.pix(), ww, hh, char_partial(base, x as int, y as int, ch, row as int, col as int), rgba@),
                decreases 4 - col,
            {
                if (bits & (1u8 << (3u8 - col))) != 0 {
                    let x_pos: i32 = x + col as i32;
                    self.plot(x_pos, y_pos, rgba, Ghost(o),
                        Ghost(char_partial(base, x as int, y as int, ch, row as int, col as int)),
                        Ghost(char_partial(base, x as int, y as int, ch, row as int, col + 1)));
                } else {
                    proof {
                        lemma_painted_ext(o, self.pix(), ww, hh,
                            char_partial(base, x as int, y as int, ch, row as int, col as int),
                            char_partial(base, x as int, y as int, ch, row as int, col + 1), rgba@);
                    }
                }
                col = col + 1;
            }
            proof {
                lemma_painted_ext(o, self.pix(), ww, hh,
                    char_partial(base, x as int, y as int, ch, row as int, 4),
                    char_partial(base, x as int, y as int, ch, row + 1, 0), rgba@);
            }
            row = row + 1;
        }
    }

    /// `print(text, x, y, color)`: draw `text` in the 4x6 bitmap font, one
    /// character every five pixels from `(x, y)` rightwards.
    pub fn print(&mut self, text: &str, x: i32, y: i32, color: u8)
        requires
            old(self).wf(),
            x + 5 * text@.len() <= i32::MAX,
            text@.len() > 0 ==> y + 5 <= i32::MAX,
        ensures
            final(self).paints(old(self), text_region(x as int, y as int, text@, text@.len() as int),
                palette_rgba(old(self).palette@, color)),
    {
        let rgba = self.index_to_rgba(color);
        let ghost o = self.pix();
        let ghost ww = self.width as int;
        let ghost hh = self.height as int;
        proof {
            lemma_painted_refl(o, ww, hh, rgba@);
            lemma_painted_ext(o, self.pix(), ww, hh, |i: int, j: int| false,
                text_region(x as int, y as int, text@, 0), rgba@);
        }
        let n = text.unicode_len();
        let mut pos_x: i32 = x;
        let mut k: usize = 0;
        while k < n
            invariant
                self.wf(),
                self.width == old(self).width,
                self.height == old(self).height,
                self.palette == old(self).palette,
                ww == self.width,
                hh == self.height,
                rgba == palette_rgba(old(self).palette@, color),
                o == old(self).pix(),
                n == text@.len(),
                k <= n,
                pos_x == x + 5 * k,
                x + 5 * text@.len() <= i32::MAX,
                text@.len() > 0 ==> y + 5 <= i32::MAX,
                painted(o, self.pix(), ww, hh, text_region(x as int, y as int, text@, k as int), rgba@),
            decreases n - k,
        {
            let ch = text.get_char(k);
            let ghost base = text_region(x as int, y as int, text@, k as int);
            self.draw_char(ch, pos_x, y, &rgba, Ghost(o), Ghost(base));
            proof {
                assert forall|i: int, j: int| 0 <= i < ww && 0 <= j < hh implies
                    #[trigger] char_partial(base, pos_x as int, y as int, ch, 6, 0)(i, j)
                        == text_region(x as int, y as int, text@, k + 1)(i, j) by {
                    if char_partial(base, pos_x as int, y as int, ch, 6, 0)(i, j) {
                        if !base(i, j) {
                            assert(char_region(x + 5 * k, y as int, text@[k as int])(i, j));
                        }
                    }
                    if text_region(x as int, y as int, text@, k + 1)(i, j) {
                        let m = choose|m: int| 0 <= m < k + 1 && #[trigger] char_region(x + 5 * m, y as int, text@[m])(i, j);
                        if m < k {
                            assert(base(i, j));
                        }
                    }
                }
                lemma_painted_ext(o, self.pix(), ww, hh, char_partial(base, pos_x as int, y as int, ch, 6, 0),
                    text_region(x as int, y as int, text@, k + 1), rgba@);
            }
            pos_x = pos_x + 5;
            k = k + 1;
        }
    }

    /// `rectfill(x, y, w, h, color)`: fill the `w` by `h` rectangle whose top
    /// left corner is `(x, y)`.
    pub fn rectfill(&mut self, x: i32, y: i32, w: u32, h: u32, color: u8)
        requires
            old(self).wf(),
            w <= 0x8000_0000,
            h <= 0x8000_0000,
            x + w <= 0x8000_0000,
            y + h <= 0x8000_0000,
        ensures
            final(self).paints(old(self), rect_region(x as int, y as int, w as int, h as int),
                palette_rgba(old(self).palette@, color)),
    {
        let rgba = self.index_to_rgba(color);
        let ghost o = self.pix();
        let ghost ww = self.width as int;
        let ghost hh = self.height as int;
        proof { lemma_painted_refl(o, ww, hh, rgba@); }
        let mut dy: u32 = 0;
        while dy < h
            invariant
                self.wf(),
                self.width == old(self).width,
                self.height == old(self).height,
                self.palette == old(self).palette,
                ww == self.width,
                hh == self.height,
                rgba == palette_rgba(old(self).palette@, color),
                o == old(self).pix(),
                dy <= h,
                h <= 0x8000_0000,
                w <= 0x8000_0000,
                x + w <= 0x8000_0000,
                y + h <= 0x8000_0000,
                painted(o, self.pix(), ww, hh, rect_region(x as int, y as int, w as int, dy as int), rgba@),
            decreases h - dy,
        {
            let mut dx: u32 = 0;
            proof {
                lemma_painted_ext(o, self.pix(), ww, hh,
                    rect_region(x as int, y as int, w as int, dy as int),
                    rect_partial(x as int, y as int, w as int, dy as int, 0), rgba@);
            }
            while dx < w
                invariant
                    self.wf(),
                    self.width == old(self).width,
                    self.height == old(self).height,
                    self.palette == old(self).palette,
                    ww == self.width,
                    hh == self.height,
                    rgba == palette_rgba(old(self).palette@, color),
                    o == old(self).pix(),
                    dy < h,
                    dx <= w,
                    h <= 0x8000_0000,
                    w <= 0x8000_0000,
                    x + w <= 0x8000_0000,
                    y + h <= 0x8000_0000,
                    painted(o, self.pix(), ww, hh, rect_partial(x as int, y as int, w as int, dy as int, dx as int), rgba@),
                decreases w - dx,
            {
                let px: i32 = x + dx as i32;
                let py: i32 = y + dy as i32;
                self.plot(px, py, &rgba, Ghost(o),
                    Ghost(rect_partial(x as int, y as int, w as int, dy as int, dx as int)),
                    Ghost(rect_partial(x as int, y as int, w as int, dy as int, dx + 1)));
                dx = dx + 1;
            }
            proof {
                lemma_painted_ext(o, self.pix(), ww, hh,
                    rect_partial(x as int, y as int, w as int, dy as int, w as int),
                    rect_region(x as int, y as int, w as int, dy + 1), rgba@);
            }
            dy = dy + 1;
        }
    }

    /// `cls(color)`: fill the whole canvas.
    pub fn cls(&mut self, color: u8)
        requires
            old(self).wf(),
        ensures
            final(self).paints(old(self), rect_region(0, 0, old(self).width as int, old(self).height as int),
                palette_rgba(old(self).palette@, color)),
    {
        let w = self.width;
        let h = self.height;
        self.rectfill(0, 0, w, h, color);
    }

    /// `pget(x, y)`: palette index nearest to the colour stored at `(x, y)`;
    /// `None` off the canvas or where no pixel has been stored yet.
    pub fn pget(&self, x: i32, y: i32) -> (r: Option<u8>)
        requires
            self.wf(),
        ensures
            r == (if x < 0 || y < 0 || x >= self.width || y >= self.height
                || px_off(self.width as int, x as int, y as int) + 4 > self.pix().len() {
                None
            } else {
                let o = px_off(self.width as int, x as int, y as int);
                Some(closest_index(self.palette@, self.pix()[o], self.pix()[o + 1], self.pix()[o + 2]))
            }),
    {
        if x < 0 || y < 0 || x >= self.width as i32 || y >= self.height as i32 {
            return None;
        }
        proof {
            lemma_offset_fits(x as int, y as int, self.width as int, self.height as int, 4);
        }
        let offset = ((y as u32 as usize) * (self.width as usize) + (x as u32 as usize)) * 4;
        if offset + 3 < self.canvas.pixels.len() {
            let r = self.canvas.pixels[offset];
            let g = self.canvas.pixels[offset + 1];
            let b = self.canvas.pixels[offset + 2];
            let a = self.canvas.pixels[offset + 3];
            return Some(self.find_closest_palette_index(r, g, b, a));
        }
        None
    }
}

/// The points of the `w` by `h` rectangle at `(x, y)`.
pub open spec fn rect_region(x: int, y: int, w: int, h: int) -> spec_fn(int, int) -> bool {
    |i: int, j: int| x <= i < x + w && y <= j < y + h
}

/// The first `rows` rows of the rectangle and the first `cols` points of
/// the next row.
pub open spec fn rect_partial(x: int, y: int, w: int, rows: int, cols: int) -> spec_fn(int, int) -> bool {
    |i: int, j: int| (x <= i < x + w && y <= j < y + rows) || (j == y + rows && x <= i < x + cols)
}

/// The outline of the `w` by `h` rectangle at `(x, y)`.
pub open spec fn border_region(x: int, y: int, w: int, h: int) -> spec_fn(int, int) -> bool {
    |i: int, j: int| x <= i < x + w && y <= j < y + h
        && (i == x || i == x + w - 1 || j == y || j == y + h - 1)
}

/// The first `d` points of the top and bottom edges of a rectangle `h` high.
pub open spec fn border_rows(x: int, y: int, h: int, d: int) -> spec_fn(int, int) -> bool {
    |i: int, j: int| x <= i < x + d && (j == y || (h > 1 && j == y + h - 1))
}

/// `border_rows(.., d)` and point `d` of the top edge.
pub open spec fn border_rows_top(x: int, y: int, h: int, d: int) -> spec_fn(int, int) -> bool {
    |i: int, j: int| (x <= i < x + d && (j == y || (h > 1 && j == y + h - 1))) || (i == x + d && j == y)
}

/// Both edges complete, plus the side edges strictly between them up to
/// (excluding) row offset `d`.
pub open spec fn border_cols(x: int, y: int, w: int, h: int, d: int) -> spec_fn(int, int) -> bool {
    |i: int, j: int| (x <= i < x + w && (j == y || (h > 1 && j == y + h - 1)))
        || (y + 1 <= j < y + d && (i == x || (w > 1 && i == x + w - 1)))
}

/// `border_cols(.., d)` and the left point of row offset `d`.
pub open spec fn border_cols_left(x: int, y: int, w: int, h: int, d: int) -> spec_fn(int, int) -> bool {
    |i: int, j: int| (x <= i < x + w && (j == y || (h > 1 && j == y + h - 1)))
        || (y + 1 <= j < y + d && (i == x || (w > 1 && i == x + w - 1)))
        || (i == x && j == y + d)
}

/// The points within distance `r` of `(x, y)` (squared distance at most
/// `r * r`, both offsets in `-r..=r`).
pub open spec fn disk_region(x: int, y: int, r: int) -> spec_fn(int, int) -> bool {
    |i: int, j: int| -r <= i - x <= r && -r <= j - y <= r && (i - x) * (i - x) + (j - y) * (j - y) <= r * r
}

/// The disk's points in rows before offset `row`, and in row `row` those
/// before column offset `col`.
pub open spec fn disk_partial(x: int, y: int, r: int, row: int, col: int) -> spec_fn(int, int) -> bool {
    |i: int, j: int| -r <= i - x <= r && -r <= j - y <= r && (i - x) * (i - x) + (j - y) * (j - y) <= r * r
        && (j - y < row || (j - y == row && i - x < col))
}

/// One step of Bresenham's walk from state `(x, y, err)`: step `x` when
/// `2 * err > -dy`, step `y` when `2 * err < dx` (both tests on the old error).
pub open spec fn bres_next(s: (int, int, int), dx: int, dy: int, sx: int, sy: int) -> (int, int, int) {
    let (x, y, err) = s;
    let e2 = 2 * err;
    let (x2, e_a) = if e2 > -dy { (x + sx, err - dy) } else { (x, err) };
    let (y2, e_b) = if e2 < dx { (y + sy, e_a + dx) } else { (y, e_a) };
    (x2, y2, e_b)
}

/// The walk's state after `k` steps.
pub open spec fn bres_state(s0: (int, int, int), dx: int, dy: int, sx: int, sy: int, k: nat) -> (int, int, int)
    decreases k,
{
    if k == 0 { s0 } else { bres_next(bres_state(s0, dx, dy, sx, sy, (k - 1) as nat), dx, dy, sx, sy) }
}

/// State `s` stands on point `(x, y)`.
pub open spec fn bres_at(s: (int, int, int), x: int, y: int) -> bool {
    s.0 == x && s.1 == y
}

/// The points the walk stands on in its first `k` states.
pub open spec fn line_prefix(s0: (int, int, int), dx: int, dy: int, sx: int, sy: int, k: nat) -> spec_fn(int, int) -> bool {
    |i: int, j: int| exists|m: nat| m < k && bres_at(#[trigger] bres_state(s0, dx, dy, sx, sy, m), i, j)
}

/// The points of the walk from state `s0` up to its first arrival at
/// `(x1, y1)`.
pub open spec fn walk_region(s0: (int, int, int), dx: int, dy: int, sx: int, sy: int, x1: int, y1: int) -> spec_fn(int, int) -> bool {
    |i: int, j: int| exists|m: nat|
        bres_at(#[trigger] bres_state(s0, dx, dy, sx, sy, m), i, j)
        && forall|m2: nat| m2 < m ==> !bres_at(#[trigger] bres_state(s0, dx, dy, sx, sy, m2), x1, y1)
}

/// The Bresenham line from `(x0, y0)` to `(x1, y1)`: the points of the walk
/// up to its first arrival at `(x1, y1)`.
pub open spec fn line_region(x0: int, y0: int, x1: int, y1: int) -> spec_fn(int, int) -> bool {
    walk_region(
        (x0, y0, (if x1 >= x0 { x1 - x0 } else { x0 - x1 }) - (if y1 >= y0 { y1 - y0 } else { y0 - y1 })),
        if x1 >= x0 { x1 - x0 } else { x0 - x1 },
        if y1 >= y0 { y1 - y0 } else { y0 - y1 },
        if x0 < x1 { 1int } else { -1int },
        if y0 < y1 { 1int } else { -1int },
        x1,
        y1,
    )
}

/// The walk stops at state `k` when it first reaches the end point: its
/// points so far are exactly the walk's region.
pub proof fn lemma_line_done(s0: (int, int, int), dx: int, dy: int, sx: int, sy: int, x1: int, y1: int, k: nat)
    requires
        bres_at(bres_state(s0, dx, dy, sx, sy, k), x1, y1),
        forall|m: nat| m < k ==> !bres_at(#[trigger] bres_state(s0, dx, dy, sx, sy, m), x1, y1),
    ensures
        forall|i: int, j: int| #[trigger] line_prefix(s0, dx, dy, sx, sy, k + 1)(i, j)
            == walk_region(s0, dx, dy, sx, sy, x1, y1)(i, j),
{
    assert forall|i: int, j: int| #[trigger] line_prefix(s0, dx, dy, sx, sy, k + 1)(i, j)
        == walk_region(s0, dx, dy, sx, sy, x1, y1)(i, j) by {
        if line_prefix(s0, dx, dy, sx, sy, k + 1)(i, j) {
            let m = choose|m: nat| m < k + 1 && bres_at(#[trigger] bres_state(s0, dx, dy, sx, sy, m), i, j);
            assert forall|m2: nat| m2 < m implies !bres_at(#[trigger] bres_state(s0, dx, dy, sx, sy, m2), x1, y1) by {
                assert(m2 < k);
            }
            assert(walk_region(s0, dx, dy, sx, sy, x1, y1)(i, j));
        }
        if walk_region(s0, dx, dy, sx, sy, x1, y1)(i, j) {
            let m = choose|m: nat| bres_at(#[trigger] bres_state(s0, dx, dy, sx, sy, m), i, j)
                && forall|m2: nat| m2 < m ==> !bres_at(#[trigger] bres_state(s0, dx, dy, sx, sy, m2), x1, y1);
            if m > k {
                assert(!bres_at(bres_state(s0, dx, dy, sx, sy, k), x1, y1));
            }
            assert(m < k + 1);
            assert(line_prefix(s0, dx, dy, sx, sy, k + 1)(i, j));
        }
    }
}

/// One step of the walk while `(i, j)` steps of `(dx, dy)` are done and the
/// end is not reached: at least one coordinate moves, neither passes its
/// end, and the error keeps its closed form and its bounds.
pub proof fn lemma_bres_step(dx: int, dy: int, i: int, j: int, err: int)
    requires
        0 <= i <= dx,
        0 <= j <= dy,
        !(i == dx && j == dy),
        err == dx - dy + dx * j - dy * i,
        -2 * (dx + dy) <= err <= 2 * (dx + dy),
    ensures
        (2 * err > -dy) ==> i < dx,
        (2 * err < dx) ==> j < dy,
        (2 * err > -dy) || (2 * err < dx),
        ({
            let xs: int = if 2 * err > -dy { 1 } else { 0 };
            let ys: int = if 2 * err < dx { 1 } else { 0 };
            let e2 = err - dy * xs + dx * ys;
            &&& e2 == dx - dy + dx * (j + ys) - dy * (i + xs)
            &&& -2 * (dx + dy) <= e2 <= 2 * (dx + dy)
        }),
{
    if i == dx && 2 * err > -dy {
        assert(j <= dy - 1);
        assert(dx * j <= dx * dy - dx) by (nonlinear_arith) requires 0 <= dx, j <= dy - 1;
        assert(dy * i == dy * dx) by (nonlinear_arith) requires i == dx;
        assert(dx * dy == dy * dx) by (nonlinear_arith);
        assert(err <= -dy);
        assert(false);
    }
    if j == dy && 2 * err < dx {
        assert(i <= dx - 1);
        assert(dy * i <= dy * dx - dy) by (nonlinear_arith) requires 0 <= dy, i <= dx - 1;
        assert(dx * j == dx * dy) by (nonlinear_arith) requires j == dy;
        assert(dx * dy == dy * dx) by (nonlinear_arith);
        assert(err >= dx);
        assert(false);
    }
    assert(dx * (j + 1) == dx * j + dx) by (nonlinear_arith);
    assert(dy * (i + 1) == dy * i + dy) by (nonlinear_arith);
}

/// Two palette colours have the same red, green and blue.
pub open spec fn same_rgb(a: [u8; 4], b: [u8; 4]) -> bool {
    a[0] == b[0] && a[1] == b[1] && a[2] == b[2]
}

/// Scanning the palette for the colour of entry `c` (which no earlier entry
/// shares): before `c` the best distance is at least 1, from `c` on the
/// result is `(c, 0)`.
pub proof fn lemma_closest_scan(pal: Seq<[u8; 4]>, c: int, n: nat)
    requires
        0 <= c < pal.len(),
        n <= pal.len(),
        forall|k: int| 0 <= k < c ==> !same_rgb(#[trigger] pal[k], pal[c]),
    ensures
        n <= c ==> closest_upto(pal, pal[c][0], pal[c][1], pal[c][2], n).1 >= 1,
        n > c ==> closest_upto(pal, pal[c][0], pal[c][1], pal[c][2], n) == (c, 0int),
    decreases n,
{
    let p = pal[c];
    if n > 0 {
        lemma_closest_scan(pal, c, (n - 1) as nat);
        let q = pal[n - 1];
        let dr = p[0] - q[0];
        let dg = p[1] - q[1];
        let db = p[2] - q[2];
        let dn = color_dist(p[0], p[1], p[2], q);
        let prev = closest_upto(pal, p[0], p[1], p[2], (n - 1) as nat);
        assert(dn == dr * dr + dg * dg + db * db);
        assert(0 <= dr * dr && 0 <= dg * dg && 0 <= db * db) by (nonlinear_arith);
        assert(closest_upto(pal, p[0], p[1], p[2], n) == (if dn < prev.1 { ((n - 1) as int, dn) } else { prev }));
        if n - 1 < c {
            assert(!same_rgb(pal[n - 1], pal[c]));
            assert(dr * dr + dg * dg + db * db >= 1) by (nonlinear_arith)
                requires dr != 0 || dg != 0 || db != 0, 0 <= dr * dr, 0 <= dg * dg, 0 <= db * db;
        } else if n - 1 == c {
            assert(dr == 0 && dg == 0 && db == 0);
            assert(dr * dr + dg * dg + db * db == 0) by (nonlinear_arith)
                requires dr == 0, dg == 0, db == 0;
        } else {
            assert(prev == (c, 0int));
        }
    }
}

/// The palette index read back for the colour of entry `c` is `c`, when no
/// earlier entry has the same red, green and blue.
pub proof fn law_first_entry_is_closest(pal: Seq<[u8; 4]>, c: int)
    requires
        0 <= c < pal.len(),
        pal.len() <= 256,
        forall|k: int| 0 <= k < c ==> !same_rgb(#[trigger] pal[k], pal[c]),
    ensures
        closest_index(pal, pal[c][0], pal[c][1], pal[c][2]) == c,
{
    lemma_closest_scan(pal, c, pal.len());
}

/// `pget` reads back what `pset` drew: after `pset(x, y, c)` on the canvas,
/// with `c` a palette index whose colour no earlier entry shares, the pixel
/// is stored and its nearest palette index is `c`.
pub proof fn law_pset_then_pget(before: DrawingContext, after: DrawingContext, x: i32, y: i32, c: u8)
    requires
        before.wf(),
        after.paints(&before, |i: int, j: int| i == x && j == y, palette_rgba(before.palette@, c)),
        0 <= x < before.width,
        0 <= y < before.height,
        (c as int) < before.palette@.len(),
        before.palette@.len() <= 256,
        forall|k: int| 0 <= k < c ==> !same_rgb(#[trigger] before.palette@[k], before.palette@[c as int]),
    ensures
        px_off(after.width as int, x as int, y as int) + 4 <= after.pix().len(),
        ({
            let o = px_off(after.width as int, x as int, y as int);
            closest_index(after.palette@, after.pix()[o], after.pix()[o + 1], after.pix()[o + 2]) == c
        }),
{
    let w = after.width as int;
    let h = after.height as int;
    let o = px_off(w, x as int, y as int);
    let col = palette_rgba(before.palette@, c);
    let region = |i: int, j: int| i == x && j == y;
    assert(region(x as int, y as int));
    assert(cell_off(w, 4, x as int, y as int) + 4 <= after.pix().len());
    assert(after.pix()[cell_off(w, 4, x as int, y as int) + 0] == col@[0]);
    assert(after.pix()[cell_off(w, 4, x as int, y as int) + 1] == col@[1]);
    assert(after.pix()[cell_off(w, 4, x as int, y as int) + 2] == col@[2]);
    law_first_entry_is_closest(before.palette@, c as int);
}

/// The 4x6 bitmap font: six rows, the bit for column `c` (0 to 3, left to
/// right) being `1 << (3 - c)`; a character without a glyph is blank.
pub open spec fn glyph(ch: char) -> Seq<u8> {
    seq_of6(match ch {
            'A' => [0b110, 0b1001, 0b1111, 0b1001, 0b1001, 0b0],
            'B' => [0b1110, 0b1001, 0b1110, 0b1001, 0b1110, 0b0],
            'C' => [0b110, 0b1000, 0b1000, 0b1000, 0b110, 0b0],
            'D' => [0b1110, 0b1001, 0b1001, 0b1001, 0b1110, 0b0],
            'E' => [0b1111, 0b1000, 0b1110, 0b1000, 0b1111, 0b0],
            'F' => [0b1111, 0b1000, 0b1110, 0b1000, 0b1000, 0b0],
            'G' => [0b110, 0b1000, 0b1011, 0b1001, 0b110, 0b0],
            'H' => [0b1001, 0b1001, 0b1111, 0b1001, 0b1001, 0b0],
            'I' => [0b111, 0b10, 0b10, 0b10, 0b111, 0b0],
            'J' => [0b1110, 0b10, 0b10, 0b1010, 0b100, 0b0],
            'K' => [0b1001, 0b1010, 0b1100, 0b1010, 0b1001, 0b0],
            'L' => [0b1000, 0b1000, 0b1000, 0b1000, 0b1111, 0b0],
            'M' => [0b10001, 0b11011, 0b10101, 0b10001, 0b10001, 0b0],
            'N' => [0b1001, 0b1101, 0b1011, 0b1001, 0b1001, 0b0],
            'O' => [0b110, 0b1001, 0b1001, 0b1001, 0b110, 0b0],
            'P' => [0b1110, 0b1001, 0b1110, 0b1000, 0b1000, 0b0],
            'Q' => [0b110, 0b1001, 0b1001, 0b1010, 0b101, 0b0],
            'R' => [0b1110, 0b1001, 0b1110, 0b1010, 0b1001, 0b0],
            'S' => [0b111, 0b1000, 0b110, 0b1, 0b1110, 0b0],
            'T' => [0b1111, 0b10, 0b10, 0b10, 0b10, 0b0],
            'U' => [0b1001, 0b1001, 0b1001, 0b1001, 0b110, 0b0],
            'V' => [0b1001, 0b1001, 0b1001, 0b110, 0b10, 0b0],
            'W' => [0b10001, 0b10101, 0b10101, 0b10101, 0b1010, 0b0],
            'X' => [0b1001, 0b110, 0b110, 0b110, 0b1001, 0b0],
            'Y' => [0b1001, 0b110, 0b10, 0b10, 0b10, 0b0],
            'Z' => [0b1111, 0b10, 0b100, 0b1000, 0b1111, 0b0],
            '0' => [0b110, 0b1001, 0b1001, 0b1001, 0b110, 0b0],
            '1' => [0b10, 0b110, 0b10, 0b10, 0b111, 0b0],
            '2' => [0b110, 0b1001, 0b10, 0b100, 0b1111, 0b0],
            '3' => [0b1110, 0b1, 0b110, 0b1, 0b1110, 0b0],
            '4' => [0b1000, 0b1100, 0b1010, 0b1111, 0b10, 0b0],
            '5' => [0b1111, 0b1000, 0b1110, 0b1, 0b1110, 0b0],
            '6' => [0b110, 0b1000, 0b1110, 0b1001, 0b110, 0b0],
            '7' => [0b1111, 0b1, 0b10, 0b100, 0b1000, 0b0],
            '8' => [0b110, 0b1001, 0b110, 0b1001, 0b110, 0b0],
            '9' => [0b110, 0b1001, 0b111, 0b1, 0b110, 0b0],
            ':' => [0b0, 0b10, 0b0, 0b10, 0b0, 0b0],
            '.' => [0b0, 0b0, 0b0, 0b0, 0b10, 0b0],
            ',' => [0b0, 0b0, 0b0, 0b10, 0b100, 0b0],
            '!' => [0b10, 0b10, 0b10, 0b0, 0b10, 0b0],
            '?' => [0b110, 0b1, 0b10, 0b0, 0b10, 0b0],
            _ => [0u8, 0, 0, 0, 0, 0],
    })
}

pub open spec fn seq_of6(a: [u8; 6]) -> Seq<u8> {
    a@
}

/// The bitmap font, row by row from the top, each row's bits giving the lit
/// columns from the left (bit 3 first): every supported character with its
/// six rows, and every other character blank.
pub proof fn law_font_table(c: char)
    ensures
        glyph('A') == seq![6u8, 9u8, 15u8, 9u8, 9u8, 0u8],
        glyph('B') == seq![14u8, 9u8, 14u8, 9u8, 14u8, 0u8],
        glyph('C') == seq![6u8, 8u8, 8u8, 8u8, 6u8, 0u8],
        glyph('D') == seq![14u8, 9u8, 9u8, 9u8, 14u8, 0u8],
        glyph('E') == seq![15u8, 8u8, 14u8, 8u8, 15u8, 0u8],
        glyph('F') == seq![15u8, 8u8, 14u8, 8u8, 8u8, 0u8],
        glyph('G') == seq![6u8, 8u8, 11u8, 9u8, 6u8, 0u8],
        glyph('H') == seq![9u8, 9u8, 15u8, 9u8, 9u8, 0u8],
        glyph('I') == seq![7u8, 2u8, 2u8, 2u8, 7u8, 0u8],
        glyph('J') == seq![14u8, 2u8, 2u8, 10u8, 4u8, 0u8],
        glyph('K') == seq![9u8, 10u8, 12u8, 10u8, 9u8, 0u8],
        glyph('L') == seq![8u8, 8u8, 8u8, 8u8, 15u8, 0u8],
        glyph('M') == seq![17u8, 27u8, 21u8, 17u8, 17u8, 0u8],
        glyph('N') == seq![9u8, 13u8, 11u8, 9u8, 9u8, 0u8],
        glyph('O') == seq![6u8, 9u8, 9u8, 9u8, 6u8, 0u8],
        glyph('P') == seq![14u8, 9u8, 14u8, 8u8, 8u8, 0u8],
        glyph('Q') == seq![6u8, 9u8, 9u8, 10u8, 5u8, 0u8],
        glyph('R') == seq![14u8, 9u8, 14u8, 10u8, 9u8, 0u8],
        glyph('S') == seq![7u8, 8u8, 6u8, 1u8, 14u8, 0u8],
        glyph('T') == seq![15u8, 2u8, 2u8, 2u8, 2u8, 0u8],
        glyph('U') == seq![9u8, 9u8, 9u8, 9u8, 6u8, 0u8],
        glyph('V') == seq![9u8, 9u8, 9u8, 6u8, 2u8, 0u8],
        glyph('W') == seq![17u8, 21u8, 21u8, 21u8, 10u8, 0u8],
        glyph('X') == seq![9u8, 6u8, 6u8, 6u8, 9u8, 0u8],
        glyph('Y') == seq![9u8, 6u8, 2u8, 2u8, 2u8, 0u8],
        glyph('Z') == seq![15u8, 2u8, 4u8, 8u8, 15u8, 0u8],
        glyph('0') == seq![6u8, 9u8, 9u8, 9u8, 6u8, 0u8],
        glyph('1') == seq![2u8, 6u8, 2u8, 2u8, 7u8, 0u8],
        glyph('2') == seq![6u8, 9u8, 2u8, 4u8, 15u8, 0u8],
        glyph('3') == seq![14u8, 1u8, 6u8, 1u8, 14u8, 0u8],
        glyph('4') == seq![8u8, 12u8, 10u8, 15u8, 2u8, 0u8],
        glyph('5') == seq![15u8, 8u8, 14u8, 1u8, 14u8, 0u8],
        glyph('6') == seq![6u8, 8u8, 14u8, 9u8, 6u8, 0u8],
        glyph('7') == seq![15u8, 1u8, 2u8, 4u8, 8u8, 0u8],
        glyph('8') == seq![6u8, 9u8, 6u8, 9u8, 6u8, 0u8],
        glyph('9') == seq![6u8, 9u8, 7u8, 1u8, 6u8, 0u8],
        glyph(':') == seq![0u8, 2u8, 0u8, 2u8, 0u8, 0u8],
        glyph('.') == seq![0u8, 0u8, 0u8, 0u8, 2u8, 0u8],
        glyph(',') == seq![0u8, 0u8, 0u8, 2u8, 4u8, 0u8],
        glyph('!') == seq![2u8, 2u8, 2u8, 0u8, 2u8, 0u8],
        glyph('?') == seq![6u8, 1u8, 2u8, 0u8, 2u8, 0u8],
        glyph(' ') == seq![0u8, 0u8, 0u8, 0u8, 0u8, 0u8],
        !(c == 'A' || c == 'B' || c == 'C' || c == 'D' || c == 'E' || c == 'F' || c == 'G' || c == 'H' || c == 'I' || c == 'J' || c == 'K' || c == 'L' || c == 'M' || c == 'N' || c == 'O' || c == 'P' || c == 'Q' || c == 'R' || c == 'S' || c == 'T' || c == 'U' || c == 'V' || c == 'W' || c == 'X' || c == 'Y' || c == 'Z' || c == '0' || c == '1' || c == '2' || c == '3' || c == '4' || c == '5' || c == '6' || c == '7' || c == '8' || c == '9' || c == ':' || c == '.' || c == ',' || c == '!' || c == '?') ==> glyph(c) == seq![0u8, 0u8, 0u8, 0u8, 0u8, 0u8],
{
    assert(glyph(c) =~= glyph(c));
}

/// Whether glyph row `bits` lights column `col`.
pub open spec fn glyph_bit(bits: u8, col: u8) -> bool {
    bits & (1u8 << (3u8 - col)) != 0
}

/// The pixels character `ch` lights when drawn with its top left at `(x, y)`.
pub open spec fn char_region(x: int, y: int, ch: char) -> spec_fn(int, int) -> bool {
    |i: int, j: int| 0 <= i - x < 4 && 0 <= j - y < 6 && glyph_bit(glyph(ch)[j - y], (i - x) as u8)
}

/// The glyph rows before `row`, and in row `row` the columns before `col`.
pub open spec fn char_partial(base: spec_fn(int, int) -> bool, x: int, y: int, ch: char, row: int, col: int) -> spec_fn(int, int) -> bool {
    |i: int, j: int| base(i, j) || (0 <= i - x < 4 && 0 <= j - y < 6 && glyph_bit(glyph(ch)[j - y], (i - x) as u8)
        && (j - y < row || (j - y == row && i - x < col)))
}

/// The pixels of the first `k` characters of `text` drawn from `(x, y)`,
/// five pixels apart.
pub open spec fn text_region(x: int, y: int, text: Seq<char>, k: int) -> spec_fn(int, int) -> bool {
    |i: int, j: int| exists|m: int| 0 <= m < k && #[trigger] char_region(x + 5 * m, y, text[m])(i, j)
}

/// Casting an `i32` to `u32`: a value on a canvas of at most `i32::MAX`
/// pixels exactly when it is non-negative and below the size.
pub proof fn lemma_wrap_i32(v: i32, size: u32)
    requires
        size <= i32::MAX,
    ensures
        (v as u32) < size <==> 0 <= v < size,
        0 <= v ==> v as u32 == v,
{
    assert(v < 0 ==> (v as u32) >= 0x8000_0000u32) by (bit_vector);
    assert(0 <= v ==> (v as u32) == v) by (bit_vector);
}

/// Nothing painted: a buffer is `painted` into itself by an empty region.
pub proof fn lemma_painted_refl(s: Seq<u8>, w: int, h: int, c: Seq<u8>)
    ensures
        forall|r: spec_fn(int, int) -> bool| (forall|i: int, j: int| !(#[trigger] r(i, j))) ==> painted(s, s, w, h, r, c),
{
    lemma_cells_refl(s, w, h, 4, c);
}

/// `painted` depends on the region only through its values on the canvas.
pub proof fn lemma_painted_ext(
    o: Seq<u8>,
    n: Seq<u8>,
    w: int,
    h: int,
    r1: spec_fn(int, int) -> bool,
    r2: spec_fn(int, int) -> bool,
    c: Seq<u8>,
)
    requires
        painted(o, n, w, h, r1, c),
        forall|i: int, j: int| 0 <= i < w && 0 <= j < h ==> #[trigger] r1(i, j) == r2(i, j),
    ensures
        painted(o, n, w, h, r2, c),
{
    lemma_cells_ext(o, n, w, h, 4, r1, r2, c);
}

/// Painting one more pixel `(px, py)` (written only when on the canvas)
/// extends the painted region by that pixel.
pub proof fn lemma_paint_step(
    o: Seq<u8>,
    m: Seq<u8>,
    m2: Seq<u8>,
    w: int,
    h: int,
    region: spec_fn(int, int) -> bool,
    c: Seq<u8>,
    px: int,
    py: int,
)
    requires
        painted(o, m, w, h, region, c),
        c.len() == 4,
        m2 == (if 0 <= px < w && 0 <= py < h { spec_write(m, px_off(w, px, py), c) } else { m }),
    ensures
        painted(o, m2, w, h, |i: int, j: int| region(i, j) || (i == px && j == py), c),
{
    lemma_cells_step(o, m, m2, w, h, 4, region, c, px, py);
}

} // verus!
