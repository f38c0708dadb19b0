//! The logic of the bundled browser games that stands apart from floating
//! point: framebuffer drawing, pseudo-random generators, tile maps and room
//! layouts, the steps of their game-state machines, and the cube of the
//! cube-drawing demo.
pub mod canvas;
pub mod rng;
pub mod rooms;
pub mod lineboy;
pub mod cube;
pub mod sprite_cube;
