//! Keyboard shortcuts of the editor: which modifier keys are held, and
//! which shortcuts a key press makes with them. Reading the keyboard is
//! done by the caller, which hands in the key states.
use vstd::prelude::*;

verus! {

/// The modifier keys held this frame.
#[derive(Clone, Copy, Debug, PartialEq, Eq, Structural)]
pub struct InputManager {
    /// Either Ctrl key is down.
    pub ctrl_pressed: bool,
    /// Either Shift key is down.
    pub shift_pressed: bool,
}

impl InputManager {
    /// No modifier held.
    pub fn new() -> (m: InputManager)
        ensures
            !m.ctrl_pressed,
            !m.shift_pressed,
    {
        InputManager { ctrl_pressed: false, shift_pressed: false }
    }

    /// Take this frame's modifier keys: Ctrl is held when either Ctrl key is
    /// down, Shift likewise.
    pub fn update(&mut self, left_ctrl: bool, right_ctrl: bool, left_shift: bool, right_shift: bool)
        ensures
            final(self).ctrl_pressed == (left_ctrl || right_ctrl),
            final(self).shift_pressed == (left_shift || right_shift),
    {
        self.ctrl_pressed = left_ctrl || right_ctrl;
        self.shift_pressed = left_shift || right_shift;
    }

    /// Ctrl+S: `s_pressed` is whether S went down this frame.
    pub fn save_pressed(&self, s_pressed: bool) -> (r: bool)
        ensures
            r == (self.ctrl_pressed && s_pressed),
    {
        self.ctrl_pressed && s_pressed
    }

    /// Ctrl+O: `o_pressed` is whether O went down this frame.
    pub fn open_pressed(&self, o_pressed: bool) -> (r: bool)
        ensures
            r == (self.ctrl_pressed && o_pressed),
    {
        self.ctrl_pressed && o_pressed
    }

    /// Ctrl+Z (undo): `z_pressed` is whether Z went down this frame.
    pub fn undo_pressed(&self, z_pressed: bool) -> (r: bool)
        ensures
            r == (self.ctrl_pressed && z_pressed),
    {
        self.ctrl_pressed && z_pressed
    }

    /// Ctrl+Y (redo): `y_pressed` is whether Y went down this frame.
    pub fn redo_pressed(&self, y_pressed: bool) -> (r: bool)
        ensures
            r == (self.ctrl_pressed && y_pressed),
    {
        self.ctrl_pressed && y_pressed
    }
}

impl Default for InputManager {
    fn default() -> (m: InputManager)
        ensures
            !m.ctrl_pressed,
            !m.shift_pressed,
    {
        InputManager::new()
    }
}

} // verus!
