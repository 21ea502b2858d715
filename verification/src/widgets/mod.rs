//! The widgets of a loaded DSP script and everything that is decided about them.
pub mod controls;
pub mod meter;
pub mod persistence;
pub mod plan;
pub mod tree;
pub mod voices;
