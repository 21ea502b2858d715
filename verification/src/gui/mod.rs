//! What the user interface decides: the caller draws it and reports what the user
//! did.
pub mod analysis;
pub mod devices;
pub mod dsp_settings;
pub mod keyboard;
pub mod preset_panel;
pub mod spectrogram;
pub mod test_input;
