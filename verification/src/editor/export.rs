//! Image export: the RGBA pixels of a sprite, and a sprite sheet laying
//! sprites of one size out in a grid. Encoding and writing the PNG file is
//! left to the caller.
use vstd::prelude::*;
use vstd::arithmetic::div_mod::lemma_fundamental_div_mod_converse;
use crate::sprite::{ColorMode, SpriteData, lemma_offset_fits};
use crate::api::drawing::palette_rgba;
use crate::paint::{cell_off, lemma_cells_disjoint};

verus! {

/// Transparent black.
pub open spec fn clear_rgba() -> Seq<u8> {
    seq![0u8, 0u8, 0u8, 0u8]
}

/// Pixel `(x, y)` of the sprite is stored: its index (indexed sprites) or
/// all four RGBA bytes (full-colour sprites) lie in the stored bytes.
pub open spec fn stored(s: SpriteData, x: int, y: int) -> bool {
    match s.mode {
        ColorMode::Indexed256(_) => y * s.width + x < s.pixels@.len(),
        ColorMode::FullColor => (y * s.width + x) * 4 + 3 < s.pixels@.len(),
    }
}

/// The RGBA colour an exported image shows for pixel `(x, y)`: the palette
/// colour of its index (transparent black past the palette) or its RGBA
/// bytes; transparent black when the pixel is not stored.
pub open spec fn export_color(s: SpriteData, x: int, y: int) -> Seq<u8> {
    if !stored(s, x, y) {
        clear_rgba()
    } else {
        match s.mode {
            ColorMode::Indexed256(pal) => palette_rgba(pal@, s.pixels@[y * s.width + x])@,
            ColorMode::FullColor => s.pixels@.subrange((y * s.width + x) * 4, (y * s.width + x) * 4 + 4),
        }
    }
}

/// The four bytes of pixel `(x, y)` of an RGBA image `w` pixels wide.
pub open spec fn image_px(buf: Seq<u8>, w: int, x: int, y: int) -> Seq<u8> {
    buf.subrange(cell_off(w, 4, x, y), cell_off(w, 4, x, y) + 4)
}

/// Where pixel `(x, y)` of sprite `i` lands in a sheet `cols` sprites wide,
/// each sprite `w` by `h`.
pub open spec fn sheet_cell(i: int, cols: int, w: int, h: int, x: int, y: int) -> (int, int) {
    ((i % cols) * w + x, (i / cols) * h + y)
}

/// Sheet pixel `(sx, sy)` belongs to one of the first `n` sprites.
pub open spec fn sheet_covered(n: int, cols: int, w: int, h: int, sx: int, sy: int) -> bool {
    exists|i: int, x: int, y: int| 0 <= i < n && 0 <= x < w && 0 <= y < h
        && #[trigger] sheet_cell(i, cols, w, h, x, y) == (sx, sy)
}

/// Rows of a sheet of `n` sprites, `cols` per row (at least one).
pub open spec fn sheet_rows(n: int, cols: int) -> int {
    let r = (n + cols - 1) / cols;
    if r < 1 { 1 } else { r }
}

/// All sprites have the size of the first.
pub open spec fn same_size(s: Seq<SpriteData>) -> bool {
    forall|i: int| 0 <= i < s.len() ==> (#[trigger] s[i]).width == s[0].width && s[i].height == s[0].height
}

/// The sheet for these sprites, `cols` per row, can be laid out: `cols` is
/// not zero, and the sprite count plus `cols`, the sheet's width and
/// height, and its byte size all fit.
pub open spec fn sheet_fits_spec(s: Seq<SpriteData>, cols: u32) -> bool {
    &&& cols > 0
    &&& s.len() + cols <= u32::MAX
    &&& s[0].width * cols <= u32::MAX
    &&& s[0].height * sheet_rows(s.len() as int, cols as int) <= u32::MAX
    &&& (s[0].width * cols) * (s[0].height * sheet_rows(s.len() as int, cols as int)) * 4 <= usize::MAX
}

/// Whether all sprites have the size of the first.
pub fn all_same_size(sprites: &[SpriteData]) -> (r: bool)
    requires
        sprites@.len() > 0,
    ensures
        r == same_size(sprites@),
{
    let w = sprites[0].width;
    let h = sprites[0].height;
    let mut k: usize = 0;
    while k < sprites.len()
        invariant
            k <= sprites@.len(),
            w == sprites@[0].width,
            h == sprites@[0].height,
            forall|i: int| 0 <= i < k ==> (#[trigger] sprites@[i]).width == w && sprites@[i].height == h,
        decreases sprites@.len() - k,
    {
        if sprites[k].width != w || sprites[k].height != h {
            return false;
        }
        k = k + 1;
    }
    true
}

/// Whether the sheet for these sprites, `cols` per row, can be laid out
/// without a division by zero or an overflow.
pub fn sheet_fits(sprites: &[SpriteData], cols: u32) -> (r: bool)
    requires
        sprites@.len() > 0,
        sprites@.len() <= u32::MAX,
    ensures
        r == sheet_fits_spec(sprites@, cols),
{
    if cols == 0 {
        return false;
    }
    let n = sprites.len() as u64;
    if n + cols as u64 > u32::MAX as u64 {
        return false;
    }
    let w = sprites[0].width as u64;
    let h = sprites[0].height as u64;
    let c = cols as u64;
    let rows0 = (n + c - 1) / c;
    let rows = if rows0 > 1 { rows0 } else { 1 };
    assert(w * c <= 0xffff_ffff_ffff_ffff) by (nonlinear_arith) requires w <= 0xffff_ffff, c <= 0xffff_ffff;
    let sw = w * c;
    if sw > u32::MAX as u64 {
        return false;
    }
    assert(rows0 <= 0xffff_ffff) by (nonlinear_arith)
        requires rows0 as int == (n + c - 1) as int / c as int, c >= 1, n + c <= 0xffff_ffff;
    assert(h * rows <= 0xffff_ffff_ffff_ffff) by (nonlinear_arith) requires h <= 0xffff_ffff, rows <= 0xffff_ffff;
    let sh = h * rows;
    if sh > u32::MAX as u64 {
        return false;
    }
    assert(sw * sh <= 0xffff_ffff_ffff_ffff) by (nonlinear_arith) requires sw <= 0xffff_ffff, sh <= 0xffff_ffff;
    let bytes = (sw as u128) * (sh as u128) * 4;
    bytes <= usize::MAX as u128
}

/// Distinct sprite pixels land on distinct sheet pixels.
pub proof fn lemma_sheet_cells_distinct(cols: int, w: int, h: int, i1: int, x1: int, y1: int, i2: int, x2: int, y2: int)
    requires
        cols > 0,
        0 <= i1,
        0 <= i2,
        0 <= x1 < w,
        0 <= x2 < w,
        0 <= y1 < h,
        0 <= y2 < h,
        sheet_cell(i1, cols, w, h, x1, y1) == sheet_cell(i2, cols, w, h, x2, y2),
    ensures
        i1 == i2 && x1 == x2 && y1 == y2,
{
    let sx = (i1 % cols) * w + x1;
    let sy = (i1 / cols) * h + y1;
    lemma_fundamental_div_mod_converse(sx, w, i1 % cols, x1);
    lemma_fundamental_div_mod_converse(sx, w, i2 % cols, x2);
    lemma_fundamental_div_mod_converse(sy, h, i1 / cols, y1);
    lemma_fundamental_div_mod_converse(sy, h, i2 / cols, y2);
    vstd::arithmetic::div_mod::lemma_fundamental_div_mod(i1, cols);
    vstd::arithmetic::div_mod::lemma_fundamental_div_mod(i2, cols);
}

/// A sprite's block of a sheet fits in the sheet.
pub proof fn lemma_sheet_block_fits(n: int, cols: int, w: int, h: int, i: int)
    requires
        cols > 0,
        0 <= i < n,
        0 <= w,
        0 <= h,
    ensures
        0 <= (i % cols) * w,
        (i % cols) * w + w <= w * cols,
        0 <= (i / cols) * h,
        (i / cols) * h + h <= h * sheet_rows(n, cols),
{
    let c = i % cols;
    let q = i / cols;
    vstd::arithmetic::div_mod::lemma_fundamental_div_mod(i, cols);
    assert(0 <= c < cols);
    assert(0 <= q);
    assert(0 <= c * w) by (nonlinear_arith) requires 0 <= c, 0 <= w;
    assert(c * w + w <= w * cols) by (nonlinear_arith) requires c + 1 <= cols, 0 <= w;
    assert(0 <= q * h) by (nonlinear_arith) requires 0 <= q, 0 <= h;
    let r0 = (n + cols - 1) / cols;
    vstd::arithmetic::div_mod::lemma_fundamental_div_mod(n + cols - 1, cols);
    assert(cols * q <= i) by (nonlinear_arith) requires i == cols * q + c, 0 <= c;
    assert(n <= cols * r0) by (nonlinear_arith)
        requires n + cols - 1 == cols * r0 + (n + cols - 1) % cols, (n + cols - 1) % cols < cols;
    assert(q < r0) by (nonlinear_arith) requires cols * q <= i, i < n, n <= cols * r0, cols > 0;
    assert(q * h + h <= h * r0) by (nonlinear_arith) requires q + 1 <= r0, 0 <= h;
    assert(h * r0 <= h * sheet_rows(n, cols)) by (nonlinear_arith) requires r0 <= sheet_rows(n, cols), 0 <= h;
}

/// The exported colour of one pixel; `None` when it is not stored.
fn pixel_color(s: &SpriteData, x: u32, y: u32) -> (r: Option<[u8; 4]>)
    requires
        s.wf(),
        x < s.width,
        y < s.height,
    ensures
        match r {
            Some(c) => stored(*s, x as int, y as int) && c@ == export_color(*s, x as int, y as int),
            None => !stored(*s, x as int, y as int),
        },
{
    let w = s.width as usize;
    let h = s.height as usize;
    match &s.mode {
        ColorMode::Indexed256(palette) => {
            proof {
                lemma_offset_fits(x as int, y as int, w as int, h as int, 1);
            }
            let offset = y as usize * w + x as usize;
            if offset < s.pixels.len() {
                let idx = s.pixels[offset];
                let c = if (idx as usize) < palette.len() { palette[idx as usize] } else { [0u8, 0u8, 0u8, 0u8] };
                Some(c)
            } else {
                None
            }
        },
        ColorMode::FullColor => {
            proof {
                lemma_offset_fits(x as int, y as int, w as int, h as int, 4);
            }
            let offset = (y as usize * w + x as usize) * 4;
            if offset + 3 < s.pixels.len() {
                let c = [s.pixels[offset], s.pixels[offset + 1], s.pixels[offset + 2], s.pixels[offset + 3]];
                assert(c@ =~= s.pixels@.subrange(offset as int, offset + 4));
                Some(c)
            } else {
                None
            }
        },
    }
}

/// Writing four bytes at a pixel of an RGBA image changes that pixel only.
pub proof fn lemma_set_px(buf: Seq<u8>, w: int, h: int, x: int, y: int, c: Seq<u8>)
    requires
        0 <= x < w,
        0 <= y < h,
        buf.len() == w * h * 4,
        c.len() == 4,
    ensures
        ({
            let off = cell_off(w, 4, x, y);
            let nb = buf.subrange(0, off) + c + buf.subrange(off + 4, buf.len() as int);
            &&& nb.len() == buf.len()
            &&& image_px(nb, w, x, y) == c
            &&& forall|i: int, j: int| 0 <= i < w && 0 <= j < h && (i != x || j != y)
                ==> #[trigger] image_px(nb, w, i, j) == image_px(buf, w, i, j)
        }),
{
    let off = cell_off(w, 4, x, y);
    lemma_offset_fits(x, y, w, h, 4);
    assert(w * h * 4 == h * w * 4) by (nonlinear_arith);
    let nb = buf.subrange(0, off) + c + buf.subrange(off + 4, buf.len() as int);
    assert(image_px(nb, w, x, y) =~= c);
    assert forall|i: int, j: int| 0 <= i < w && 0 <= j < h && (i != x || j != y)
        implies #[trigger] image_px(nb, w, i, j) == image_px(buf, w, i, j) by {
        lemma_cells_disjoint(w, h, 4, i, j, x, y);
        lemma_offset_fits(i, j, w, h, 4);
        assert(image_px(nb, w, i, j) =~= image_px(buf, w, i, j));
    }
}

/// Set the four bytes of pixel `(x, y)` of an RGBA image `w` by `h`.
fn set_px(buf: &mut Vec<u8>, w: u32, h: u32, x: u32, y: u32, c: [u8; 4])
    requires
        x < w,
        y < h,
        old(buf)@.len() == w * h * 4,
        w * h * 4 <= usize::MAX,
    ensures
        final(buf)@.len() == old(buf)@.len(),
        image_px(final(buf)@, w as int, x as int, y as int) == c@,
        forall|i: int, j: int| 0 <= i < w && 0 <= j < h && (i != x || j != y)
            ==> #[trigger] image_px(final(buf)@, w as int, i, j) == image_px(old(buf)@, w as int, i, j),
{
    proof {
        lemma_offset_fits(x as int, y as int, w as int, h as int, 4);
        assert(w * h * 4 == h * w * 4) by (nonlinear_arith);
        lemma_set_px(buf@, w as int, h as int, x as int, y as int, c@);
    }
    let off = (y as usize * w as usize + x as usize) * 4;
    buf.set(off, c[0]);
    buf.set(off + 1, c[1]);
    buf.set(off + 2, c[2]);
    buf.set(off + 3, c[3]);
    proof {
        let ob = old(buf)@;
        assert(buf@ =~= ob.subrange(0, off as int) + c@ + ob.subrange(off + 4, ob.len() as int));
    }
}

/// PNG export of sprites.
pub struct PngExporter;

impl PngExporter {
    /// The RGBA image of a sprite, row by row: each pixel its exported
    /// colour (transparent black where nothing is stored).
    pub fn rgba_image(sprite: &SpriteData) -> (img: Vec<u8>)
        requires
            sprite.wf(),
            sprite.width * sprite.height * 4 <= usize::MAX,
        ensures
            img@.len() == sprite.width * sprite.height * 4,
            forall|x: int, y: int| 0 <= x < sprite.width && 0 <= y < sprite.height
                ==> #[trigger] image_px(img@, sprite.width as int, x, y) == export_color(*sprite, x, y),
    {
        let w = sprite.width;
        let h = sprite.height;
        let ghost wi = w as int;
        let ghost hi = h as int;
        let mut img: Vec<u8> = Vec::new();
        let mut y: u32 = 0;
        while y < h
            invariant
                sprite.wf(),
                w == sprite.width,
                h == sprite.height,
                wi == w,
                hi == h,
                w * h * 4 <= usize::MAX,
                y <= h,
                img@.len() == y * w * 4,
                forall|i: int, j: int| 0 <= i < w && 0 <= j < y
                    ==> #[trigger] image_px(img@, wi, i, j) == export_color(*sprite, i, j),
            decreases h - y,
        {
            let mut x: u32 = 0;
            while x < w
                invariant
                    sprite.wf(),
                    w == sprite.width,
                    h == sprite.height,
                    wi == w,
                    hi == h,
                    w * h * 4 <= usize::MAX,
                    y < h,
                    x <= w,
                    img@.len() == cell_off(wi, 4, x as int, y as int),
                    forall|i: int, j: int| (0 <= i < w && 0 <= j < y) || (0 <= i < x && j == y)
                        ==> #[trigger] image_px(img@, wi, i, j) == export_color(*sprite, i, j),
                decreases w - x,
            {
                let c = match pixel_color(sprite, x, y) {
                    Some(c) => c,
                    None => [0u8, 0u8, 0u8, 0u8],
                };
                let ghost before = img@;
                proof {
                    lemma_offset_fits(x as int, y as int, wi, hi, 4);
                    assert(w * h * 4 == h * w * 4) by (nonlinear_arith);
                }
                img.push(c[0]);
                img.push(c[1]);
                img.push(c[2]);
                img.push(c[3]);
                proof {
                    assert(img@ =~= before + c@);
                    assert forall|i: int, j: int| (0 <= i < w && 0 <= j < y) || (0 <= i < x + 1 && j == y)
                        implies #[trigger] image_px(img@, wi, i, j) == export_color(*sprite, i, j) by {
                        if i == x && j == y {
                            assert(image_px(img@, wi, i, j) =~= c@);
                        } else {
                            lemma_offset_fits(i, j, wi, hi, 4);
                            if j < y {
                                assert(cell_off(wi, 4, i, j) + 4 <= cell_off(wi, 4, 0, y as int)) by (nonlinear_arith)
                                    requires 0 <= i < wi, j + 1 <= y, cell_off(wi, 4, i, j) == (j * wi + i) * 4,
                                        cell_off(wi, 4, 0, y as int) == (y * wi + 0) * 4;
                                assert(cell_off(wi, 4, 0, y as int) <= cell_off(wi, 4, x as int, y as int));
                            }
                            assert(image_px(img@, wi, i, j) =~= image_px(before, wi, i, j));
                        }
                    }
                }
                x = x + 1;
            }
            proof {
                assert(cell_off(wi, 4, w as int, y as int) == (y + 1) * w * 4) by (nonlinear_arith)
                    requires cell_off(wi, 4, w as int, y as int) == (y * wi + w) * 4, wi == w;
            }
            y = y + 1;
        }
        assert(y * w * 4 == w * h * 4) by (nonlinear_arith) requires y == h;
        img
    }

    /// Draw a sprite into a sheet image `sw` by `sh` at `(ox, oy)`: each
    /// stored pixel of the sprite is written with its exported colour; every
    /// other sheet pixel is kept.
    fn composite_sprite(sheet: &mut Vec<u8>, sw: u32, sh: u32, sprite: &SpriteData, ox: u32, oy: u32)
        requires
            sprite.wf(),
            old(sheet)@.len() == sw * sh * 4,
            sw * sh * 4 <= usize::MAX,
            ox + sprite.width <= sw,
            oy + sprite.height <= sh,
        ensures
            final(sheet)@.len() == old(sheet)@.len(),
            forall|x: int, y: int| 0 <= x < sprite.width && 0 <= y < sprite.height ==>
                #[trigger] image_px(final(sheet)@, sw as int, ox + x, oy + y)
                    == if stored(*sprite, x, y) { export_color(*sprite, x, y) } else {
                    image_px(old(sheet)@, sw as int, ox + x, oy + y) },
            forall|sx: int, sy: int| 0 <= sx < sw && 0 <= sy < sh
                && !(ox <= sx < ox + sprite.width && oy <= sy < oy + sprite.height)
                ==> #[trigger] image_px(final(sheet)@, sw as int, sx, sy) == image_px(old(sheet)@, sw as int, sx, sy),
    {
        let ghost o = sheet@;
        let w = sprite.width;
        let h = sprite.height;
        let mut y: u32 = 0;
        while y < h
            invariant
                sprite.wf(),
                w == sprite.width,
                h == sprite.height,
                sheet@.len() == sw * sh * 4,
                sw * sh * 4 <= usize::MAX,
                ox + w <= sw,
                oy + h <= sh,
                o == old(sheet)@,
                y <= h,
                forall|sx: int, sy: int| 0 <= sx < sw && 0 <= sy < sh ==> #[trigger] image_px(sheet@, sw as int, sx, sy)
                    == if ox <= sx < ox + w && oy <= sy < oy + y && stored(*sprite, sx - ox, sy - oy) {
                        export_color(*sprite, sx - ox, sy - oy)
                    } else {
                        image_px(o, sw as int, sx, sy)
                    },
            decreases h - y,
        {
            let mut x: u32 = 0;
            while x < w
                invariant
                    sprite.wf(),
                    w == sprite.width,
                    h == sprite.height,
                    sheet@.len() == sw * sh * 4,
                    sw * sh * 4 <= usize::MAX,
                    ox + w <= sw,
                    oy + h <= sh,
                    o == old(sheet)@,
                    y < h,
                    x <= w,
                    forall|sx: int, sy: int| 0 <= sx < sw && 0 <= sy < sh ==> #[trigger] image_px(sheet@, sw as int, sx, sy)
                        == if ((ox <= sx < ox + w && oy <= sy < oy + y) || (ox <= sx < ox + x && sy == oy + y))
                            && stored(*sprite, sx - ox, sy - oy) {
                            export_color(*sprite, sx - ox, sy - oy)
                        } else {
                            image_px(o, sw as int, sx, sy)
                        },
                decreases w - x,
            {
                match pixel_color(sprite, x, y) {
                    Some(c) => {
                        if ox + x < sw && oy + y < sh {
                            set_px(sheet, sw, sh, ox + x, oy + y, c);
                        }
                    },
                    None => {},
                }
                x = x + 1;
            }
            y = y + 1;
        }
    }

    /// Lay the sprites out in a grid `cols` sprites wide, row by row, in a
    /// sheet image: returns its width, height and RGBA pixels. Each sprite
    /// pixel shows its exported colour at its place in the grid; sheet pixels
    /// of no sprite are transparent black.
    ///
    /// Fails with `No sprites to export` on an empty list and with `All
    /// sprites must have the same size` when the sizes differ.
    pub fn spritesheet(sprites: &[SpriteData], cols: u32) -> (r: Result<(u32, u32, Vec<u8>), String>)
        requires
            sprites@.len() <= u32::MAX,
            forall|i: int| 0 <= i < sprites@.len() ==> (#[trigger] sprites@[i]).wf(),
            sprites@.len() > 0 && same_size(sprites@) ==> sheet_fits_spec(sprites@, cols),
        ensures
            sprites@.len() == 0 ==> (r matches Err(e) && e@ == "No sprites to export"@),
            sprites@.len() > 0 && !same_size(sprites@) ==> (r matches Err(e)
                && e@ == "All sprites must have the same size"@),
            sprites@.len() > 0 && same_size(sprites@) ==> (r matches Ok(sheet) && {
                let n = sprites@.len() as int;
                let w = sprites@[0].width as int;
                let h = sprites@[0].height as int;
                let (sw, sh, img) = sheet;
                &&& sw == w * cols
                &&& sh == h * sheet_rows(n, cols as int)
                &&& img@.len() == sw * sh * 4
                &&& forall|i: int, x: int, y: int| 0 <= i < n && 0 <= x < w && 0 <= y < h ==> {
                    let c = #[trigger] sheet_cell(i, cols as int, w, h, x, y);
                    image_px(img@, sw as int, c.0, c.1) == export_color(sprites@[i], x, y)
                }
                &&& forall|sx: int, sy: int| 0 <= sx < sw && 0 <= sy < sh && !sheet_covered(n, cols as int, w, h, sx, sy)
                    ==> #[trigger] image_px(img@, sw as int, sx, sy) == clear_rgba()
            }),
    {
        if sprites.len() == 0 {
            return Err(String::from_str("No sprites to export"));
        }
        let first_w = sprites[0].width;
        let first_h = sprites[0].height;
        let mut k: usize = 0;
        while k < sprites.len()
            invariant
                k <= sprites@.len(),
                first_w == sprites@[0].width,
                first_h == sprites@[0].height,
                forall|i: int| 0 <= i < k ==> (#[trigger] sprites@[i]).width == first_w && sprites@[i].height == first_h,
            decreases sprites@.len() - k,
        {
            if sprites[k].width != first_w || sprites[k].height != first_h {
                return Err(String::from_str("All sprites must have the same size"));
            }
            k = k + 1;
        }
        proof {
            assert(same_size(sprites@));
        }
        let n = sprites.len() as u32;
        let rows0 = (n + cols - 1) / cols;
        let rows = if rows0 > 1 { rows0 } else { 1 };
        let sw = first_w * cols;
        let sh = first_h * rows;
        let ghost ni = n as int;
        let ghost wi = first_w as int;
        let ghost hi = first_h as int;
        let total = (sw as usize) * (sh as usize) * 4;
        let mut sheet: Vec<u8> = Vec::new();
        sheet.resize(total, 0u8);
        proof {
            assert forall|sx: int, sy: int| 0 <= sx < sw && 0 <= sy < sh implies
                #[trigger] image_px(sheet@, sw as int, sx, sy) == clear_rgba() by {
                lemma_offset_fits(sx, sy, sw as int, sh as int, 4);
                assert(sw * sh * 4 == sh * sw * 4) by (nonlinear_arith);
                assert(image_px(sheet@, sw as int, sx, sy) =~= clear_rgba());
            }
        }
        let mut idx: usize = 0;
        while idx < sprites.len()
            invariant
                n == sprites@.len(),
                ni == n,
                wi == first_w,
                hi == first_h,
                first_w == sprites@[0].width,
                first_h == sprites@[0].height,
                same_size(sprites@),
                forall|i: int| 0 <= i < sprites@.len() ==> (#[trigger] sprites@[i]).wf(),
                cols > 0,
                rows == sheet_rows(ni, cols as int),
                sw == first_w * cols,
                sh == first_h * rows,
                sheet@.len() == sw * sh * 4,
                sw * sh * 4 <= usize::MAX,
                idx <= n,
                forall|i: int, x: int, y: int| 0 <= i < idx && 0 <= x < wi && 0 <= y < hi ==> {
                    let c = #[trigger] sheet_cell(i, cols as int, wi, hi, x, y);
                    image_px(sheet@, sw as int, c.0, c.1) == export_color(sprites@[i], x, y)
                },
                forall|sx: int, sy: int| 0 <= sx < sw && 0 <= sy < sh && !sheet_covered(idx as int, cols as int, wi, hi, sx, sy)
                    ==> #[trigger] image_px(sheet@, sw as int, sx, sy) == clear_rgba(),
            decreases sprites@.len() - idx,
        {
            let col = (idx as u32) % cols;
            let row = (idx as u32) / cols;
            proof {
                lemma_sheet_block_fits(ni, cols as int, wi, hi, idx as int);
            }
            let offset_x = col * first_w;
            let offset_y = row * first_h;
            let ghost before = sheet@;
            Self::composite_sprite(&mut sheet, sw, sh, &sprites[idx], offset_x, offset_y);
            proof {
                let ii = idx as int;
                let cc = cols as int;
                assert forall|i: int, x: int, y: int| 0 <= i < idx + 1 && 0 <= x < wi && 0 <= y < hi implies {
                    let c = #[trigger] sheet_cell(i, cc, wi, hi, x, y);
                    image_px(sheet@, sw as int, c.0, c.1) == export_color(sprites@[i], x, y)
                } by {
                    let c = sheet_cell(i, cc, wi, hi, x, y);
                    lemma_sheet_block_fits(ni, cc, wi, hi, i);
                    assert(wi * cc == sw) by (nonlinear_arith) requires sw == first_w * cols, wi == first_w, cc == cols;
                    assert(hi * sheet_rows(ni, cc) == sh);
                    if i == ii {
                        assert(c == (offset_x + x, offset_y + y));
                        assert(image_px(sheet@, sw as int, offset_x + x, offset_y + y)
                            == if stored(sprites@[ii], x, y) { export_color(sprites@[ii], x, y) } else {
                            image_px(before, sw as int, offset_x + x, offset_y + y) });
                        if !stored(sprites@[ii], x, y) {
                            if sheet_covered(ii, cc, wi, hi, c.0, c.1) {
                                let (i2, x2, y2) = choose|i2: int, x2: int, y2: int| 0 <= i2 < ii && 0 <= x2 < wi
                                    && 0 <= y2 < hi && #[trigger] sheet_cell(i2, cc, wi, hi, x2, y2) == (c.0, c.1);
                                lemma_sheet_cells_distinct(cc, wi, hi, i2, x2, y2, ii, x, y);
                            }
                        }
                    } else {
                        if offset_x <= c.0 < offset_x + wi && offset_y <= c.1 < offset_y + hi {
                            assert(sheet_cell(ii, cc, wi, hi, c.0 - offset_x, c.1 - offset_y) == c);
                            lemma_sheet_cells_distinct(cc, wi, hi, i, x, y, ii, c.0 - offset_x, c.1 - offset_y);
                        }
                    }
                }
                assert forall|sx: int, sy: int| 0 <= sx < sw && 0 <= sy < sh
                    && !sheet_covered(idx + 1, cc, wi, hi, sx, sy) implies
                    #[trigger] image_px(sheet@, sw as int, sx, sy) == clear_rgba() by {
                    if offset_x <= sx < offset_x + wi && offset_y <= sy < offset_y + hi {
                        assert(sheet_cell(ii, cc, wi, hi, sx - offset_x, sy - offset_y) == (sx, sy));
                    }
                    if sheet_covered(ii, cc, wi, hi, sx, sy) {
                        let (i2, x2, y2) = choose|i2: int, x2: int, y2: int| 0 <= i2 < ii && 0 <= x2 < wi
                            && 0 <= y2 < hi && #[trigger] sheet_cell(i2, cc, wi, hi, x2, y2) == (sx, sy);
                        assert(sheet_cell(i2, cc, wi, hi, x2, y2) == (sx, sy));
                    }
                }
            }
            idx = idx + 1;
        }
        Ok((sw, sh, sheet))
    }

}

} // verus!
