//! Selecting audio and MIDI devices.
use vstd::prelude::*;
use vstd::string::StringExecFns;

use crate::config::StandaloneConfig;
use crate::text::{decimal, to_decimal};

verus! {

/// The state of the panel.
#[derive(Debug)]
pub struct DevicePanel {
    /// Audio input devices.
    pub audio_inputs: Vec<String>,
    /// Audio output devices.
    pub audio_outputs: Vec<String>,
    /// MIDI input devices.
    pub midi_inputs: Vec<String>,
    /// Current device configuration.
    pub device_config: StandaloneConfig,
    /// Whether the devices have been looked up.
    pub devices_enumerated: bool,
    /// Whether the configuration was changed and not saved.
    pub config_modified: bool,
}

/// How a selected device is shown, and `none` where there is none.
pub open spec fn device_text(device: Option<String>, none: Seq<char>) -> Seq<char> {
    match device {
        Some(name) => name@,
        None => none,
    }
}

/// How a sample rate is shown.
pub open spec fn rate_shown(hz: u32) -> Seq<char> {
    decimal(hz as nat) + " Hz"@
}

/// How a selected device is shown, and `none` where there is none.
fn device_label(device: &Option<String>, none: &str) -> (r: String)
    ensures
        r@ == device_text(*device, none@),
{
    match device {
        Some(name) => name.clone(),
        None => none.to_owned(),
    }
}

/// How a sample rate is shown.
pub fn rate_label(hz: u32) -> (r: String)
    ensures
        r@ == rate_shown(hz),
        r@ == decimal(hz as nat) + " Hz"@,
{
    let mut r: String = to_decimal(hz as u64);
    r.append(" Hz");
    r
}

/// The sample rates that are offered.
pub fn offered_rates() -> (r: Vec<u32>)
    ensures
        r@ == seq![44100u32, 48000u32, 88200u32, 96000u32],
{
    let r: Vec<u32> = vec![44100, 48000, 88200, 96000];
    assert(r@ =~= seq![44100u32, 48000u32, 88200u32, 96000u32]);
    r
}

impl DevicePanel {
    /// A panel for a configuration; no devices were looked up yet.
    pub fn new(device_config: StandaloneConfig) -> (r: Self)
        ensures
            r.device_config == device_config,
            r.audio_inputs@.len() == 0,
            r.audio_outputs@.len() == 0,
            r.midi_inputs@.len() == 0,
            !r.devices_enumerated,
            !r.config_modified,
    {
        DevicePanel {
            audio_inputs: Vec::new(),
            audio_outputs: Vec::new(),
            midi_inputs: Vec::new(),
            device_config,
            devices_enumerated: false,
            config_modified: false,
        }
    }

    /// Whether the devices are to be looked up: at first, and when the user asks.
    pub fn needs_devices(&self, refresh: bool) -> (r: bool)
        ensures
            r == (!self.devices_enumerated || refresh),
    {
        !self.devices_enumerated || refresh
    }

    /// Takes over the devices that were found.
    pub fn set_devices(
        &mut self,
        audio_inputs: Vec<String>,
        audio_outputs: Vec<String>,
        midi_inputs: Vec<String>,
    )
        ensures
            *final(self) == (DevicePanel {
                audio_inputs,
                audio_outputs,
                midi_inputs,
                devices_enumerated: true,
                ..*old(self)
            }),
    {
        self.audio_inputs = audio_inputs;
        self.audio_outputs = audio_outputs;
        self.midi_inputs = midi_inputs;
        self.devices_enumerated = true;
    }

    /// Selects an output device, or the system's default.
    pub fn select_output(&mut self, device: Option<String>)
        ensures
            *final(self) == (DevicePanel {
                device_config: StandaloneConfig {
                    output_device: device,
                    ..old(self).device_config
                },
                config_modified: true,
                ..*old(self)
            }),
    {
        self.device_config.output_device = device;
        self.config_modified = true;
    }

    /// Selects an input device, or none.
    pub fn select_input(&mut self, device: Option<String>)
        ensures
            *final(self) == (DevicePanel {
                device_config: StandaloneConfig {
                    input_device: device,
                    ..old(self).device_config
                },
                config_modified: true,
                ..*old(self)
            }),
    {
        self.device_config.input_device = device;
        self.config_modified = true;
    }

    /// Selects a MIDI input, or none.
    pub fn select_midi(&mut self, device: Option<String>)
        ensures
            *final(self) == (DevicePanel {
                device_config: StandaloneConfig { midi_input: device, ..old(self).device_config },
                config_modified: true,
                ..*old(self)
            }),
    {
        self.device_config.midi_input = device;
        self.config_modified = true;
    }

    /// Selects a sample rate, or the default.
    pub fn select_rate(&mut self, rate: Option<u32>)
        ensures
            *final(self) == (DevicePanel {
                device_config: StandaloneConfig { sample_rate: rate, ..old(self).device_config },
                config_modified: true,
                ..*old(self)
            }),
    {
        self.device_config.sample_rate = rate;
        self.config_modified = true;
    }

    /// The configuration was to be saved. Where that failed it still counts as
    /// changed.
    pub fn saved(&mut self, success: bool)
        ensures
            *final(self) == (DevicePanel {
                config_modified: old(self).config_modified && !success,
                ..*old(self)
            }),
    {
        if success {
            self.config_modified = false;
        }
    }

    /// How the selected output device is shown.
    pub fn output_label(&self) -> (r: String)
        ensures
            r@ == device_text(self.device_config.output_device, "(Default)"@),
            self.device_config.output_device matches Some(name) ==> r@ == name@,
            self.device_config.output_device is None ==> r@ == "(Default)"@,
    {
        device_label(&self.device_config.output_device, "(Default)")
    }

    /// How the selected input device is shown.
    pub fn input_label(&self) -> (r: String)
        ensures
            r@ == device_text(self.device_config.input_device, "(None)"@),
            self.device_config.input_device matches Some(name) ==> r@ == name@,
            self.device_config.input_device is None ==> r@ == "(None)"@,
    {
        device_label(&self.device_config.input_device, "(None)")
    }

    /// How the selected MIDI input is shown.
    pub fn midi_label(&self) -> (r: String)
        ensures
            r@ == device_text(self.device_config.midi_input, "(None)"@),
            self.device_config.midi_input matches Some(name) ==> r@ == name@,
            self.device_config.midi_input is None ==> r@ == "(None)"@,
    {
        device_label(&self.device_config.midi_input, "(None)")
    }

    /// How the selected sample rate is shown.
    pub fn selected_rate_label(&self) -> (r: String)
        ensures
            r@ == (match self.device_config.sample_rate {
                Some(hz) => rate_shown(hz),
                None => "(Default 48000)"@,
            }),
    {
        match self.device_config.sample_rate {
            Some(hz) => rate_label(hz),
            None => "(Default 48000)".to_owned(),
        }
    }
}

} // verus!
