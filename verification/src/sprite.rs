//! Sprite pixel data: a width, a height, a colour mode and a byte buffer.
//!
//! The byte buffer is stored row by row, `bytes_per_pixel` bytes per pixel.
//! Storage is allocated lazily: a fresh sprite holds no bytes, a write grows
//! the buffer (with zeros) up to the end of the written pixel, and a read of
//! an in-bounds pixel beyond the stored prefix sees zeros (transparent black).
use vstd::prelude::*;

verus! {

/// Colour mode of a sprite.
#[derive(Clone, Debug)]
pub enum ColorMode {
    /// 4 bytes per pixel: RGBA.
    FullColor,
    /// 1 byte per pixel: an index into the RGBA palette.
    Indexed256(Vec<[u8; 4]>),
}

/// Number of bytes one pixel takes in the given mode.
pub open spec fn spec_bpp(mode: ColorMode) -> nat {
    match mode {
        ColorMode::FullColor => 4,
        ColorMode::Indexed256(_) => 1,
    }
}

/// The buffer `old` after `data` is written at byte offset `off`: the buffer
/// is first grown with zeros to cover the written bytes.
pub open spec fn spec_write(old: Seq<u8>, off: int, data: Seq<u8>) -> Seq<u8> {
    let new_len = if old.len() >= off + data.len() { old.len() as int } else { off + data.len() };
    Seq::new(new_len as nat, |k: int|
        if off <= k < off + data.len() { data[k - off] }
        else if k < old.len() { old[k] }
        else { 0u8 })
}

/// The `n` bytes starting at `off` of `buf`, reading zero past its end.
pub open spec fn spec_read(buf: Seq<u8>, off: int, n: nat) -> Seq<u8> {
    Seq::new(n, |i: int| if off + i < buf.len() { buf[off + i] } else { 0u8 })
}

/// A colour mode as a value: full colour, or a palette's entries.
pub enum ModeView {
    FullColor,
    Indexed256(Seq<[u8; 4]>),
}

impl View for ColorMode {
    type V = ModeView;

    open spec fn view(&self) -> ModeView {
        match self {
            ColorMode::FullColor => ModeView::FullColor,
            ColorMode::Indexed256(p) => ModeView::Indexed256(p@),
        }
    }
}

impl ColorMode {
    /// A copy of the mode, palette entries included.
    pub fn copy(&self) -> (m: ColorMode)
        ensures
            m@ == self@,
            spec_bpp(m) == spec_bpp(*self),
    {
        match self {
            ColorMode::FullColor => ColorMode::FullColor,
            ColorMode::Indexed256(p) => {
                let mut q: Vec<[u8; 4]> = Vec::new();
                let mut i: usize = 0;
                while i < p.len()
                    invariant
                        i <= p.len(),
                        q@ == p@.subrange(0, i as int),
                    decreases p.len() - i,
                {
                    q.push(p[i]);
                    i = i + 1;
                    assert(q@ =~= p@.subrange(0, i as int));
                }
                assert(q@ =~= p@);
                ColorMode::Indexed256(q)
            },
        }
    }
}

/// A sprite as a value: its size, colour mode and stored bytes.
pub struct SpriteView {
    pub width: u32,
    pub height: u32,
    pub mode: ModeView,
    pub pixels: Seq<u8>,
}

/// CPU-side pixel data of one sprite.
#[derive(Clone, Debug)]
pub struct SpriteData {
    pub width: u32,
    pub height: u32,
    pub mode: ColorMode,
    pub pixels: Vec<u8>,
}

impl View for SpriteData {
    type V = SpriteView;

    open spec fn view(&self) -> SpriteView {
        SpriteView { width: self.width, height: self.height, mode: self.mode@, pixels: self.pixels@ }
    }
}

impl SpriteData {
    pub open spec fn bpp(&self) -> nat {
        spec_bpp(self.mode)
    }

    /// The buffer the sprite would need if every pixel were stored.
    pub open spec fn full_len(&self) -> int {
        self.width * self.height * self.bpp()
    }

    /// The sprite is well formed: its full size is addressable and the
    /// stored prefix is no longer than the full size.
    pub open spec fn wf(&self) -> bool {
        &&& self.full_len() <= usize::MAX
        &&& self.pixels@.len() <= self.full_len()
    }

    pub open spec fn in_bounds(&self, x: int, y: int) -> bool {
        0 <= x < self.width && 0 <= y < self.height
    }

    /// Byte offset of pixel `(x, y)`.
    pub open spec fn offset(&self, x: int, y: int) -> int {
        (y * self.width + x) * self.bpp()
    }

    /// The bytes of in-bounds pixel `(x, y)`.
    pub open spec fn pixel(&self, x: int, y: int) -> Seq<u8> {
        spec_read(self.pixels@, self.offset(x, y), self.bpp())
    }

    /// Create a sprite of the given size with no pixel written yet: every
    /// pixel reads as zero bytes.
    pub fn new(width: u32, height: u32, mode: ColorMode) -> (s: SpriteData)
        requires
            width * height * spec_bpp(mode) <= usize::MAX,
        ensures
            s.width == width,
            s.height == height,
            s.mode == mode,
            s.pixels@.len() == 0,
            s.wf(),
    {
        SpriteData { width, height, mode, pixels: Vec::new() }
    }

    /// Whether the sprite is well formed: its full size is addressable and
    /// no more bytes are stored than it has pixels for.
    pub fn is_well_formed(&self) -> (r: bool)
        ensures
            r == self.wf(),
    {
        let bpp = self.bytes_per_pixel() as u64;
        let w = self.width as u64;
        let h = self.height as u64;
        assert(w * h <= 0xffff_ffff_ffff_ffff) by (nonlinear_arith)
            requires w <= 0xffff_ffff, h <= 0xffff_ffff;
        let wh = w * h;
        match wh.checked_mul(bpp) {
            None => false,
            Some(full) => {
                if full > usize::MAX as u64 {
                    false
                } else {
                    self.pixels.len() as u64 <= full
                }
            },
        }
    }

    /// A copy of the sprite: same size, mode and bytes.
    pub fn copy(&self) -> (s: SpriteData)
        ensures
            s@ == self@,
            s.bpp() == self.bpp(),
            s.wf() == self.wf(),
    {
        let pixels = self.pixels.clone();
        assert(pixels@ =~= self.pixels@);
        SpriteData { width: self.width, height: self.height, mode: self.mode.copy(), pixels }
    }

    /// Bytes per pixel of the sprite's colour mode.
    pub fn bytes_per_pixel(&self) -> (n: usize)
        ensures
            n == self.bpp(),
    {
        match &self.mode {
            ColorMode::FullColor => 4,
            ColorMode::Indexed256(_) => 1,
        }
    }

    /// Byte offset of an in-bounds pixel.
    fn pixel_offset(&self, x: u32, y: u32) -> (off: usize)
        requires
            self.wf(),
            self.in_bounds(x as int, y as int),
        ensures
            off == self.offset(x as int, y as int),
            off + self.bpp() <= self.full_len(),
    {
        let bpp = self.bytes_per_pixel();
        let w = self.width as usize;
        let h = self.height as usize;
        proof {
            lemma_offset_fits(x as int, y as int, w as int, h as int, bpp as int);
        }
        (y as usize * w + x as usize) * bpp
    }

    /// Write one pixel.
    ///
    /// Fails when `(x, y)` lies outside the sprite, or when `data` is not one
    /// pixel long in the sprite's colour mode; the sprite is then unchanged.
    pub fn set_pixel(&mut self, x: u32, y: u32, data: &[u8]) -> (r: Result<(), String>)
        requires
            old(self).wf(),
        ensures
            final(self).wf(),
            final(self).width == old(self).width,
            final(self).height == old(self).height,
            final(self).mode == old(self).mode,
            r is Ok <==> (old(self).in_bounds(x as int, y as int) && data@.len() == old(self).bpp()),
            r is Ok ==> final(self).pixels@ == spec_write(
                old(self).pixels@,
                old(self).offset(x as int, y as int),
                data@,
            ),
            r is Err ==> *final(self) == *old(self),
            r matches Err(e) ==> e@ == (if !old(self).in_bounds(x as int, y as int) {
                "Pixel out of bounds"@
            } else {
                "Invalid pixel data size"@
            }),
    {
        if x >= self.width || y >= self.height {
            return Err(String::from_str("Pixel out of bounds"));
        }
        let bpp = self.bytes_per_pixel();
        if data.len() != bpp {
            return Err(String::from_str("Invalid pixel data size"));
        }
        let off = self.pixel_offset(x, y);
        let end = off + bpp;
        let ghost old_px = self.pixels@;
        if self.pixels.len() < end {
            self.pixels.resize(end, 0u8);
        }
        assert(self.pixels@.len() >= end);
        let ghost grown = self.pixels@;
        let mut i: usize = 0;
        while i < bpp
            invariant
                i <= bpp,
                bpp == data@.len(),
                off + bpp == end,
                end <= self.full_len(),
                self.width == old(self).width,
                self.height == old(self).height,
                self.mode == old(self).mode,
                self.pixels@.len() == grown.len(),
                grown.len() >= end,
                grown.len() == (if old_px.len() >= end { old_px.len() as int } else { end as int }),
                forall|k: int| 0 <= k < old_px.len() ==> grown[k] == old_px[k],
                forall|k: int| old_px.len() <= k < grown.len() ==> grown[k] == 0u8,
                forall|k: int| 0 <= k < grown.len() ==> #[trigger] self.pixels@[k] == (
                    if off <= k < off + i { data@[k - off] } else { grown[k] }),
            decreases bpp - i,
        {
            self.pixels.set(off + i, data[i]);
            i = i + 1;
        }
        proof {
            let target = spec_write(old_px, off as int, data@);
            assert(target.len() == self.pixels@.len());
            assert forall|k: int| 0 <= k < target.len() implies self.pixels@[k] == target[k] by {
                if !(off <= k < off + bpp) && k >= old_px.len() {
                    assert(grown[k] == 0u8);
                }
            }
            assert(self.pixels@ =~= target);
        }
        Ok(())
    }

    /// Read one pixel: `None` outside the sprite, else its bytes (zeros for a
    /// pixel not written yet).
    pub fn get_pixel(&self, x: u32, y: u32) -> (r: Option<Vec<u8>>)
        requires
            self.wf(),
        ensures
            match r {
                None => !self.in_bounds(x as int, y as int),
                Some(v) => self.in_bounds(x as int, y as int) && v@ == self.pixel(x as int, y as int),
            },
    {
        if x >= self.width || y >= self.height {
            return None;
        }
        let bpp = self.bytes_per_pixel();
        let off = self.pixel_offset(x, y);
        let mut out: Vec<u8> = Vec::new();
        let mut i: usize = 0;
        while i < bpp
            invariant
                i <= bpp,
                bpp == self.bpp(),
                off == self.offset(x as int, y as int),
                off + bpp <= self.full_len(),
                self.full_len() <= usize::MAX,
                out@ == spec_read(self.pixels@, off as int, i as nat),
            decreases bpp - i,
        {
            let b = if off + i < self.pixels.len() { self.pixels[off + i] } else { 0u8 };
            out.push(b);
            i = i + 1;
            assert(out@ =~= spec_read(self.pixels@, off as int, i as nat));
        }
        Some(out)
    }
}

/// A read gives back what a write stored: after writing `data` at pixel
/// `(x, y)`, that pixel reads as `data`, and every other pixel reads as
/// before.
pub proof fn law_set_then_get(s: SpriteData, x: int, y: int, data: Seq<u8>, i: int, j: int)
    requires
        s.wf(),
        s.in_bounds(x, y),
        s.in_bounds(i, j),
        data.len() == s.bpp(),
    ensures
        spec_read(spec_write(s.pixels@, s.offset(x, y), data), s.offset(x, y), s.bpp()) == data,
        (i != x || j != y) ==> spec_read(spec_write(s.pixels@, s.offset(x, y), data), s.offset(i, j), s.bpp())
            == s.pixel(i, j),
{
    let w = s.width as int;
    let h = s.height as int;
    let bpp = s.bpp() as int;
    let b = spec_write(s.pixels@, s.offset(x, y), data);
    lemma_offset_fits(x, y, w, h, bpp);
    lemma_offset_fits(i, j, w, h, bpp);
    assert(spec_read(b, s.offset(x, y), s.bpp()) =~= data);
    if i != x || j != y {
        crate::paint::lemma_cells_disjoint(w, h, bpp, i, j, x, y);
        assert(spec_read(b, s.offset(i, j), s.bpp()) =~= s.pixel(i, j));
    }
}

/// Sprites with the same view have the same bytes per pixel and are well
/// formed alike.
pub proof fn lemma_same_view(a: SpriteData, b: SpriteData)
    requires
        a@ == b@,
    ensures
        a.bpp() == b.bpp(),
        a.wf() == b.wf(),
{
    match a.mode {
        ColorMode::FullColor => {
            assert(b.mode@ == ModeView::FullColor);
            assert(b.mode is FullColor);
        },
        ColorMode::Indexed256(_) => {
            assert(b.mode is Indexed256);
        },
    }
}

/// `(y * w + x) * bpp + bpp <= w * h * bpp` for an in-bounds pixel.
pub proof fn lemma_offset_fits(x: int, y: int, w: int, h: int, bpp: int)
    requires
        0 <= x < w,
        0 <= y < h,
        1 <= bpp,
    ensures
        0 <= (y * w + x) * bpp,
        y * w <= y * w + x <= (y * w + x) * bpp,
        (y * w + x) * bpp + bpp <= w * h * bpp,
        y * w + x < w * h,
{
    assert(y * w + x < w * h) by (nonlinear_arith)
        requires 0 <= x < w, 0 <= y < h;
    assert(0 <= y * w + x) by (nonlinear_arith)
        requires 0 <= x < w, 0 <= y < h;
    assert((y * w + x) * bpp + bpp <= w * h * bpp) by (nonlinear_arith)
        requires y * w + x + 1 <= w * h, 1 <= bpp;
    assert(0 <= (y * w + x) * bpp) by (nonlinear_arith)
        requires 0 <= y * w + x, 0 <= bpp;
    assert(y * w + x <= (y * w + x) * bpp) by (nonlinear_arith)
        requires 0 <= y * w + x, 1 <= bpp;
}

} // verus!
