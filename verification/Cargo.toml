[package]
name = "nih_faust_jit"
version = "0.1.0"
edition = "2021"
publish = false

[dependencies]
cpal = "0.15"
crossbeam = "0.8"
ctrlc = "3"
directories = "6"
egui = "0.31"
egui_plot = "0.31"
halfband = "=0.1.0"
midir = "0.10"
open = "5"
realfft = "3"
rfd = "0.15"
ringbuf = "=0.4.8"
rubato = "0.16"
serde = { version = "1", features = ["derive"] }
serde_json = "1"
strum = "0.27"
strum_macros = "0.27"
symphonia = { version = "0.5", features = ["all"] }
cortix = "=0.1.0"
