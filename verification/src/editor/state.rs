//! The editor's view state: which sprite is edited, the brush, and the
//! canvas zoom and pan.
//!
//! Zoom and pan are held as encodings of `f32` values (see `f32_bits`);
//! zooming in and out multiplies them in floating point, outside this
//! library.
use vstd::prelude::*;
use crate::f32_bits::ZERO;
use crate::sprite::ColorMode;

verus! {

/// Encoding of `8.0`, the zoom a freshly opened sprite is shown at.
pub const DEFAULT_ZOOM: u32 = 0x4100_0000;

/// What the editor shows and paints with.
#[derive(Clone, Debug)]
pub struct EditorState {
    /// Id of the sprite being edited.
    pub sprite_id: Option<usize>,
    pub brush_color: [u8; 4],
    /// Brush size in pixels, at least 1.
    pub brush_size: u32,
    /// Canvas zoom factor, as an `f32` encoding.
    pub zoom_bits: u32,
    /// Canvas pan, as `f32` encodings.
    pub pan_x_bits: u32,
    pub pan_y_bits: u32,
    /// Colour mode of the sprite being edited.
    pub current_color_mode: Option<ColorMode>,
}

impl EditorState {
    /// No sprite, a red brush of size 1, zoom 8 and no pan.
    pub fn new() -> (s: EditorState)
        ensures
            s.sprite_id is None,
            s.brush_color == [255u8, 0u8, 0u8, 255u8],
            s.brush_size == 1,
            s.zoom_bits == DEFAULT_ZOOM,
            s.pan_x_bits == ZERO,
            s.pan_y_bits == ZERO,
            s.current_color_mode is None,
    {
        EditorState {
            sprite_id: None,
            brush_color: [255, 0, 0, 255],
            brush_size: 1,
            zoom_bits: DEFAULT_ZOOM,
            pan_x_bits: ZERO,
            pan_y_bits: ZERO,
            current_color_mode: None,
        }
    }

    /// Edit another sprite: the view goes back to zoom 8 and no pan.
    pub fn set_sprite(&mut self, sprite_id: usize, color_mode: ColorMode)
        ensures
            final(self).sprite_id == Some(sprite_id),
            final(self).current_color_mode == Some(color_mode),
            final(self).zoom_bits == DEFAULT_ZOOM,
            final(self).pan_x_bits == ZERO,
            final(self).pan_y_bits == ZERO,
            final(self).brush_color == old(self).brush_color,
            final(self).brush_size == old(self).brush_size,
    {
        self.sprite_id = Some(sprite_id);
        self.current_color_mode = Some(color_mode);
        self.zoom_bits = DEFAULT_ZOOM;
        self.pan_x_bits = ZERO;
        self.pan_y_bits = ZERO;
    }

    pub fn set_brush_color(&mut self, color: [u8; 4])
        ensures
            final(self).brush_color == color,
            final(self).sprite_id == old(self).sprite_id,
            final(self).brush_size == old(self).brush_size,
            final(self).zoom_bits == old(self).zoom_bits,
            final(self).pan_x_bits == old(self).pan_x_bits,
            final(self).pan_y_bits == old(self).pan_y_bits,
            final(self).current_color_mode == old(self).current_color_mode,
    {
        self.brush_color = color;
    }

    /// Set the brush size, at least 1.
    pub fn set_brush_size(&mut self, size: u32)
        ensures
            final(self).brush_size == (if size >= 1 { size } else { 1 }),
            final(self).sprite_id == old(self).sprite_id,
            final(self).brush_color == old(self).brush_color,
            final(self).zoom_bits == old(self).zoom_bits,
            final(self).pan_x_bits == old(self).pan_x_bits,
            final(self).pan_y_bits == old(self).pan_y_bits,
            final(self).current_color_mode == old(self).current_color_mode,
    {
        self.brush_size = if size >= 1 { size } else { 1 };
    }
}

impl Default for EditorState {
    fn default() -> (s: EditorState)
        ensures
            s.sprite_id is None,
            s.brush_color == [255u8, 0u8, 0u8, 255u8],
            s.brush_size == 1,
            s.zoom_bits == DEFAULT_ZOOM,
            s.pan_x_bits == ZERO,
            s.pan_y_bits == ZERO,
            s.current_color_mode is None,
    {
        EditorState::new()
    }
}

} // verus!
