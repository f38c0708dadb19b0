//! Raw key state of the cubeboy console.
use vstd::prelude::*;

verus! {

/// Whether each of 256 key codes is held.
pub struct InputState {
    pub keys: [bool; 256],
}

} // verus!
