//! Image filters on full-colour sprites: colour inversion and a 3x3 box
//! blur. They work on the stored bytes of the sprite.
use vstd::prelude::*;
use vstd::arithmetic::div_mod::lemma_fundamental_div_mod_converse;
use crate::sprite::{SpriteData, lemma_offset_fits};
use crate::paint::cell_off;

verus! {

/// The bytes after inverting every complete 4-byte pixel: red, green and
/// blue become `255 - v`, alpha and a trailing partial pixel stay.
pub open spec fn invert_bytes(p: Seq<u8>) -> Seq<u8> {
    Seq::new(p.len(), |k: int| if k < (p.len() / 4) * 4 && k % 4 < 3 { (255 - p[k]) as u8 } else { p[k] })
}

/// Inverting twice gives back the original bytes.
pub proof fn law_invert_twice(p: Seq<u8>)
    ensures
        invert_bytes(invert_bytes(p)) == p,
{
    assert(invert_bytes(invert_bytes(p)) =~= p);
}

/// Channel `c` of pixel `(nx, ny)` of a canvas `w` pixels wide, with 1 when
/// it is stored and `(0, 0)` when it lies past the stored bytes.
pub open spec fn sample(p: Seq<u8>, w: int, nx: int, ny: int, c: int) -> (int, int) {
    let idx = cell_off(w, 4, nx, ny) + c;
    if 0 <= idx < p.len() { (p[idx] as int, 1) } else { (0, 0) }
}

/// Sum and count of the stored channel-`c` values of the 3x3 block around
/// `(x, y)`.
pub open spec fn box_sum(p: Seq<u8>, w: int, x: int, y: int, c: int) -> (int, int) {
    let a = sample(p, w, x - 1, y - 1, c);
    let b = sample(p, w, x, y - 1, c);
    let d = sample(p, w, x + 1, y - 1, c);
    let e = sample(p, w, x - 1, y, c);
    let f = sample(p, w, x, y, c);
    let g = sample(p, w, x + 1, y, c);
    let i = sample(p, w, x - 1, y + 1, c);
    let j = sample(p, w, x, y + 1, c);
    let l = sample(p, w, x + 1, y + 1, c);
    (a.0 + b.0 + d.0 + e.0 + f.0 + g.0 + i.0 + j.0 + l.0, a.1 + b.1 + d.1 + e.1 + f.1 + g.1 + i.1 + j.1 + l.1)
}

/// Byte `k` is a channel of a pixel off the border of a `w` by `h` canvas.
pub open spec fn interior(w: int, h: int, k: int) -> bool {
    let q = k / 4;
    1 <= q % w < w - 1 && 1 <= q / w < h - 1
}

/// Byte `k` after the blur: for a pixel off the border, the mean of the
/// stored values of its 3x3 block (rounded down); other bytes, and bytes
/// with no stored neighbour, keep their value.
pub open spec fn blur_byte(p: Seq<u8>, w: int, h: int, k: int) -> u8 {
    let q = k / 4;
    let s = box_sum(p, w, q % w, q / w, k % 4);
    if interior(w, h, k) && s.1 > 0 { (s.0 / s.1) as u8 } else { p[k] }
}

/// The bytes after the blur.
pub open spec fn blur_bytes(p: Seq<u8>, w: int, h: int) -> Seq<u8> {
    Seq::new(p.len(), |k: int| blur_byte(p, w, h, k))
}

/// The blur may write channel `c` of pixel `(x, y)`: when any of its block
/// is stored, the pixel itself is.
pub open spec fn blur_ok_at(w: int, len: int, x: int, y: int, c: int) -> bool {
    cell_off(w, 4, x - 1, y - 1) + c < len ==> cell_off(w, 4, x, y) + c < len
}

/// The stored bytes of a `w` by `h` canvas end where the blur can write
/// them: no pixel off the border has part of its block stored but not
/// itself.
pub open spec fn blur_in_buffer(w: int, h: int, len: int) -> bool {
    forall|x: int, y: int, c: int| 1 <= x < w - 1 && 1 <= y < h - 1 && 0 <= c < 4
        ==> #[trigger] blur_ok_at(w, len, x, y, c)
}

/// The byte index of channel `c` of pixel `(x, y)` decomposes back into
/// those coordinates.
pub proof fn lemma_coords_of(w: int, x: int, y: int, c: int)
    requires
        w > 0,
        0 <= x < w,
        0 <= y,
        0 <= c < 4,
    ensures
        (cell_off(w, 4, x, y) + c) % 4 == c,
        (cell_off(w, 4, x, y) + c) / 4 == y * w + x,
        (y * w + x) % w == x,
        (y * w + x) / w == y,
{
    lemma_fundamental_div_mod_converse(cell_off(w, 4, x, y) + c, 4, y * w + x, c);
    lemma_fundamental_div_mod_converse(y * w + x, w, y, x);
}

/// The bytes between the last pixel of row `y` and the second pixel of row
/// `y + 1` belong to border pixels; so do all bytes before the second pixel
/// of row 1.
pub proof fn lemma_gap_border(w: int, h: int, y: int, k: int)
    requires
        w >= 3,
        0 <= y,
        0 <= k,
        (cell_off(w, 4, w - 1, y) <= k < cell_off(w, 4, 1, y + 1)) || k < cell_off(w, 4, 1, 1),
    ensures
        !interior(w, h, k),
{
    let q = k / 4;
    lemma_fundamental_div_mod_converse(k, 4, q, k % 4);
    if k < cell_off(w, 4, 1, 1) {
        if q < w {
            lemma_fundamental_div_mod_converse(q, w, 0, q);
        } else {
            assert(q == w);
            lemma_fundamental_div_mod_converse(q, w, 1, 0);
        }
    } else {
        assert((y + 1) * w == y * w + w) by (nonlinear_arith);
        if q < (y + 1) * w {
            lemma_fundamental_div_mod_converse(q, w, y, w - 1);
        } else {
            lemma_fundamental_div_mod_converse(q, w, y + 1, 0);
        }
    }
}

/// The bytes from the second pixel of the last row on belong to border
/// pixels.
pub proof fn lemma_tail_border(w: int, h: int, k: int)
    requires
        w >= 3,
        h >= 1,
        cell_off(w, 4, 1, h - 1) <= k < w * h * 4,
    ensures
        !interior(w, h, k),
{
    let q = k / 4;
    lemma_fundamental_div_mod_converse(k, 4, q, k % 4);
    assert(h * w == (h - 1) * w + w) by (nonlinear_arith);
    assert(w * h * 4 == h * w * 4) by (nonlinear_arith);
    lemma_fundamental_div_mod_converse(q, w, h - 1, q - (h - 1) * w);
}

/// Pixel offsets grow with the row, then the column.
pub proof fn lemma_off_mono(w: int, x0: int, y0: int, x1: int, y1: int)
    requires
        0 <= w,
        0 <= y0 <= y1,
        x0 <= x1,
    ensures
        cell_off(w, 4, x0, y0) <= cell_off(w, 4, x1, y1),
{
    assert(y0 * w <= y1 * w) by (nonlinear_arith) requires 0 <= w, y0 <= y1;
}

/// One stored value of the block: `(value, 1)`, or `(0, 0)` past the
/// stored bytes.
fn sample_at(p: &Vec<u8>, w: usize, h: usize, nx: usize, ny: usize, c: usize) -> (r: (u32, u32))
    requires
        nx < w,
        ny < h,
        c < 4,
        w * h * 4 <= usize::MAX,
    ensures
        r.0 as int == sample(p@, w as int, nx as int, ny as int, c as int).0,
        r.1 as int == sample(p@, w as int, nx as int, ny as int, c as int).1,
        r.0 <= 255,
        r.1 <= 1,
{
    proof {
        lemma_offset_fits(nx as int, ny as int, w as int, h as int, 4);
    }
    let idx = (ny * w + nx) * 4 + c;
    if idx < p.len() {
        (p[idx] as u32, 1)
    } else {
        (0, 0)
    }
}

/// Sum and count of the stored values of the 3x3 block around `(x, y)`.
#[verifier::rlimit(40)]
fn block_sum(p: &Vec<u8>, w: usize, h: usize, x: usize, y: usize, c: usize) -> (r: (u32, u32))
    requires
        1 <= x,
        x + 1 < w,
        1 <= y,
        y + 1 < h,
        c < 4,
        w * h * 4 <= usize::MAX,
    ensures
        r.0 as int == box_sum(p@, w as int, x as int, y as int, c as int).0,
        r.1 as int == box_sum(p@, w as int, x as int, y as int, c as int).1,
        r.0 <= 255 * r.1,
        r.1 > 0 ==> cell_off(w as int, 4, x - 1, y - 1) + c < p@.len(),
{
    let a = sample_at(p, w, h, x - 1, y - 1, c);
    let b = sample_at(p, w, h, x, y - 1, c);
    let d = sample_at(p, w, h, x + 1, y - 1, c);
    let e = sample_at(p, w, h, x - 1, y, c);
    let f = sample_at(p, w, h, x, y, c);
    let g = sample_at(p, w, h, x + 1, y, c);
    let i = sample_at(p, w, h, x - 1, y + 1, c);
    let j = sample_at(p, w, h, x, y + 1, c);
    let l = sample_at(p, w, h, x + 1, y + 1, c);
    proof {
        let wi = w as int;
        let x0 = x - 1;
        let y0 = y - 1;
        lemma_off_mono(wi, x0, y0, x as int, y0);
        lemma_off_mono(wi, x0, y0, x + 1, y0);
        lemma_off_mono(wi, x0, y0, x0, y as int);
        lemma_off_mono(wi, x0, y0, x as int, y as int);
        lemma_off_mono(wi, x0, y0, x + 1, y as int);
        lemma_off_mono(wi, x0, y0, x0, y + 1);
        lemma_off_mono(wi, x0, y0, x as int, y + 1);
        lemma_off_mono(wi, x0, y0, x + 1, y + 1);
    }
    (a.0 + b.0 + d.0 + e.0 + f.0 + g.0 + i.0 + j.0 + l.0, a.1 + b.1 + d.1 + e.1 + f.1 + g.1 + i.1 + j.1 + l.1)
}

/// Image filters.
pub struct Filters;

impl Filters {
    /// Invert the colours of a full-colour sprite: in every complete pixel
    /// of the stored bytes, red, green and blue become `255 - v` and alpha
    /// stays. Indexed sprites are refused and left unchanged.
    pub fn invert(sprite: &mut SpriteData) -> (r: Result<(), String>)
        ensures
            old(sprite).mode is Indexed256 ==> *final(sprite) == *old(sprite)
                && (r matches Err(e) && e@ == "Invert not supported for Indexed256 mode"@),
            old(sprite).mode is FullColor ==> r is Ok && final(sprite).width == old(sprite).width
                && final(sprite).height == old(sprite).height && final(sprite).mode == old(sprite).mode
                && final(sprite).pixels@ == invert_bytes(old(sprite).pixels@),
    {
        match &sprite.mode {
            crate::sprite::ColorMode::Indexed256(_) => {
                return Err(String::from_str("Invert not supported for Indexed256 mode"));
            },
            crate::sprite::ColorMode::FullColor => {},
        }
        let ghost p = sprite.pixels@;
        let len = sprite.pixels.len();
        let mut i: usize = 0;
        while len - i >= 4
            invariant
                len == p.len(),
                sprite.pixels@.len() == len,
                i <= len,
                i % 4 == 0,
                sprite.width == old(sprite).width,
                sprite.height == old(sprite).height,
                sprite.mode == old(sprite).mode,
                p == old(sprite).pixels@,
                forall|k: int| 0 <= k < len ==> #[trigger] sprite.pixels@[k]
                    == if k < i && k % 4 < 3 { (255 - p[k]) as u8 } else { p[k] },
            decreases len - i,
        {
            let r = sprite.pixels[i];
            sprite.pixels.set(i, 255 - r);
            let g = sprite.pixels[i + 1];
            sprite.pixels.set(i + 1, 255 - g);
            let b = sprite.pixels[i + 2];
            sprite.pixels.set(i + 2, 255 - b);
            i = i + 4;
        }
        assert(i == (len / 4) * 4);
        assert(sprite.pixels@ =~= invert_bytes(p));
        Ok(())
    }

    /// Blur a full-colour sprite with a 3x3 box filter: each channel of a
    /// pixel off the border becomes the mean (rounded down) of the stored
    /// values of its 3x3 block in the sprite before the blur; border pixels
    /// and pixels with no stored neighbour keep their bytes. Indexed sprites
    /// are refused and left unchanged.
    pub fn blur(sprite: &mut SpriteData) -> (r: Result<(), String>)
        requires
            old(sprite).wf(),
            old(sprite).mode is FullColor ==> old(sprite).height >= 1
                && (old(sprite).height >= 3 ==> old(sprite).width >= 1)
                && blur_in_buffer(old(sprite).width as int, old(sprite).height as int,
                    old(sprite).pixels@.len() as int),
        ensures
            final(sprite).wf(),
            old(sprite).mode is Indexed256 ==> *final(sprite) == *old(sprite)
                && (r matches Err(e) && e@ == "Blur not supported for Indexed256 mode"@),
            old(sprite).mode is FullColor ==> r is Ok && final(sprite).width == old(sprite).width
                && final(sprite).height == old(sprite).height && final(sprite).mode == old(sprite).mode
                && final(sprite).pixels@ == blur_bytes(old(sprite).pixels@, old(sprite).width as int,
                    old(sprite).height as int),
    {
        match &sprite.mode {
            crate::sprite::ColorMode::Indexed256(_) => {
                return Err(String::from_str("Blur not supported for Indexed256 mode"));
            },
            crate::sprite::ColorMode::FullColor => {},
        }
        let ghost p = sprite.pixels@;
        let width = sprite.width as usize;
        let height = sprite.height as usize;
        let ghost w = width as int;
        let ghost h = height as int;
        let len = sprite.pixels.len();
        let mut blurred = sprite.pixels.clone();
        proof {
            assert(blurred@ =~= p);
            if w >= 3 && h >= 3 {
                assert forall|k: int| 0 <= k < cell_off(w, 4, 1, 1) implies !interior(w, h, k) by {
                    lemma_gap_border(w, h, 0, k);
                }
            }
        }
        let mut y: usize = 1;
        while y < height - 1
            invariant
                p == sprite.pixels@,
                len == p.len(),
                blurred@.len() == len,
                w == sprite.width,
                h == sprite.height,
                width == w,
                height == h,
                sprite.wf(),
                blur_in_buffer(w, h, len as int),
                w * h * 4 <= usize::MAX,
                h >= 1,
                1 <= y,
                h >= 3 ==> y <= h - 1,
                h >= 3 ==> w >= 1,
                forall|k: int| 0 <= k < len ==> #[trigger] blurred@[k]
                    == if k < cell_off(w, 4, 1, y as int) && w >= 3 { blur_byte(p, w, h, k) } else { p[k] },
            decreases height - y,
        {
            let mut x: usize = 1;
            while x < width - 1
                invariant
                    p == sprite.pixels@,
                    len == p.len(),
                    blurred@.len() == len,
                    w == sprite.width,
                    h == sprite.height,
                    width == w,
                    height == h,
                    sprite.wf(),
                    blur_in_buffer(w, h, len as int),
                    w * h * 4 <= usize::MAX,
                    w >= 1,
                    1 <= y,
                    y + 1 < h,
                    1 <= x,
                    w >= 3 ==> x <= w - 1,
                    forall|k: int| 0 <= k < len ==> #[trigger] blurred@[k]
                        == if k < cell_off(w, 4, x as int, y as int) && w >= 3 { blur_byte(p, w, h, k) } else { p[k] },
                decreases width - x,
            {
                let mut c: usize = 0;
                while c < 4
                    invariant
                        p == sprite.pixels@,
                        len == p.len(),
                        blurred@.len() == len,
                        w == sprite.width,
                        h == sprite.height,
                        width == w,
                        height == h,
                        sprite.wf(),
                        blur_in_buffer(w, h, len as int),
                        w * h * 4 <= usize::MAX,
                        1 <= y,
                        y + 1 < h,
                        1 <= x,
                        x + 1 < w,
                        c <= 4,
                        forall|k: int| 0 <= k < len ==> #[trigger] blurred@[k]
                            == if k < cell_off(w, 4, x as int, y as int) + c { blur_byte(p, w, h, k) } else { p[k] },
                    decreases 4 - c,
                {
                    let (s, n) = block_sum(&sprite.pixels, width, height, x, y, c);
                    let ghost k0 = cell_off(w, 4, x as int, y as int) + c;
                    proof {
                        lemma_coords_of(w, x as int, y as int, c as int);
                        assert(interior(w, h, k0));
                        assert(blur_ok_at(w, len as int, x as int, y as int, c as int));
                    }
                    if n > 0 {
                        proof {
                            lemma_offset_fits(x as int, y as int, w, h, 4);
                            assert((s / n) <= 255) by (nonlinear_arith) requires s <= 255 * n, n > 0;
                        }
                        let center = (y * width + x) * 4;
                        blurred.set(center + c, (s / n) as u8);
                    }
                    c = c + 1;
                }
                x = x + 1;
            }
            proof {
                assert forall|k: int| 0 <= k < len implies #[trigger] blurred@[k]
                    == if k < cell_off(w, 4, 1, y + 1) && w >= 3 { blur_byte(p, w, h, k) } else { p[k] } by {
                    if w >= 3 {
                        assert(x == w - 1);
                        assert((y + 1) * w == y * w + w) by (nonlinear_arith);
                        if cell_off(w, 4, x as int, y as int) <= k < cell_off(w, 4, 1, y + 1) {
                            lemma_gap_border(w, h, y as int, k);
                        }
                    }
                }
            }
            y = y + 1;
        }
        proof {
            if w >= 3 && h >= 3 {
                assert forall|k: int| cell_off(w, 4, 1, y as int) <= k < len implies !interior(w, h, k) by {
                    lemma_tail_border(w, h, k);
                }
            }
            assert(blurred@ =~= blur_bytes(p, w, h));
        }
        sprite.pixels = blurred;
        Ok(())
    }
}

} // verus!
