//! The logic of an audio plugin that runs Faust DSP scripts.
//!
//! Numbers travel as bit patterns (see [`bits`]); paths and directories are the
//! caller's own types.
use vstd::prelude::*;

pub mod audio_file;
pub mod bits;
mod clock;
pub mod config;
pub mod gui;
pub mod oversampling;
pub mod presets;
pub mod session;
pub mod standalone;
pub mod store;
pub mod testbench;
pub mod text;
pub mod widgets;

verus! {

} // verus!
