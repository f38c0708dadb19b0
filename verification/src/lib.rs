//! A sprite and graphics resource library: sprite pixel data in full colour
//! or 256-colour palette mode, a pixel drawing context, input state, and the
//! data structures of a sprite editor.
pub mod text;
pub mod f32_bits;
pub mod sprite;
pub mod paint;
pub mod engine;
pub mod api;
pub mod editor;
pub mod audio;
pub mod cubeboy;
pub mod games;
