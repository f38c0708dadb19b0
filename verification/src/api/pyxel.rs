//! Stand-alone pyxel-style entry points. They hold no state: drawing and
//! sound calls do nothing, queries answer with defaults. Stateful drawing is
//! done through a `DrawingContext`, input through an `InputState`.
use vstd::prelude::*;
use crate::api::input::Key;

verus! {

/// Clear the screen (does nothing here).
pub fn cls(_col: u8) {
}

/// Set a pixel (does nothing here).
pub fn pset(_x: i32, _y: i32, _col: u8) {
}

/// Read a pixel: there is no screen here, so always `None`.
pub fn pget(_x: i32, _y: i32) -> (r: Option<u8>)
    ensures
        r is None,
{
    None
}

/// Draw a line (does nothing here).
pub fn line(_x1: i32, _y1: i32, _x2: i32, _y2: i32, _col: u8) {
}

/// Draw a rectangle outline (does nothing here).
pub fn rect(_x: i32, _y: i32, _w: i32, _h: i32, _col: u8) {
}

/// Fill a rectangle (does nothing here).
pub fn rectfill(_x: i32, _y: i32, _w: i32, _h: i32, _col: u8) {
}

/// Draw a circle outline (does nothing here).
pub fn circle(_x: i32, _y: i32, _r: i32, _col: u8) {
}

/// Fill a circle (does nothing here).
pub fn circfill(_x: i32, _y: i32, _r: i32, _col: u8) {
}

/// Whether a key is held: there is no input here, so always `false`.
pub fn btn(_key: Key) -> (r: bool)
    ensures
        !r,
{
    false
}

/// Whether a key was just pressed: always `false` here.
pub fn btnp(_key: Key) -> (r: bool)
    ensures
        !r,
{
    false
}

/// Play a sound effect (does nothing here).
pub fn sfx(_n: usize) {
}

/// Play a music track (does nothing here).
pub fn music(_n: usize) {
}

/// Stop all sound (does nothing here).
pub fn stop() {
}

/// Stop the music (does nothing here).
pub fn music_stop() {
}

/// Change a palette colour (does nothing here).
pub fn set_palette(_col: u8, _r: u8, _g: u8, _b: u8) {
}

/// Show an animation frame (does nothing here).
pub fn anim_set_frame(_anim_id: usize, _frame: usize) {
}

/// The current frame of an animation: always 0 here.
pub fn anim_get_frame(_anim_id: usize) -> (f: usize)
    ensures
        f == 0,
{
    0
}

/// Draw text (does nothing here).
pub fn print(_text: &str, _x: i32, _y: i32, _col: u8) {
}

/// A status line for debugging.
pub fn stat() -> (s: String)
    ensures
        s@ == "FPS: 60, Frame: 16.67ms"@,
{
    String::from_str("FPS: 60, Frame: 16.67ms")
}

} // verus!
