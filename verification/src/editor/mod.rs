//! Sprite editor data structures: undo history, composite cache, pixel
//! batches, tools, filters, files, document formats, layers, animation,
//! sessions and keyboard shortcuts.
pub mod history;
pub mod cache;
pub mod tools;
pub mod perf;
pub mod filters;
pub mod format;
pub mod file;
pub mod command;
pub mod document;
pub mod layers;
pub mod celmodel;
pub mod animation;
pub mod session;
pub mod state;
pub mod input;
pub mod paint;
pub mod export;
