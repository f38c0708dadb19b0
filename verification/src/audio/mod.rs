//! Sound data and sound files registered by name.
pub mod soundbank;
pub mod manager;
