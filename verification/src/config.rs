//! Configuration of standalone mode: the selected devices.
use vstd::prelude::*;

use crate::text::joined;

verus! {

/// Standalone configuration (device selections).
#[derive(Debug)]
pub struct StandaloneConfig {
    /// Selected audio output device name (`None`: system default).
    pub output_device: Option<String>,
    /// Selected audio input device name (`None`: no input).
    pub input_device: Option<String>,
    /// Selected MIDI input device name (`None`: no MIDI).
    pub midi_input: Option<String>,
    /// Sample rate in Hz (`None`: left to the host). Bluetooth devices often support
    /// 44100 only.
    pub sample_rate: Option<u32>,
}

impl Default for StandaloneConfig {
    fn default() -> (r: Self)
        ensures
            r == (StandaloneConfig {
                output_device: None,
                input_device: None,
                midi_input: None,
                sample_rate: None,
            }),
    {
        StandaloneConfig {
            output_device: None,
            input_device: None,
            midi_input: None,
            sample_rate: None,
        }
    }
}

impl StandaloneConfig {
    /// The configuration that was read from its file, and the default where none
    /// could be read.
    pub fn load(read: Option<StandaloneConfig>) -> (r: Self)
        ensures
            r == (match read {
                Some(config) => config,
                None => StandaloneConfig {
                    output_device: None,
                    input_device: None,
                    midi_input: None,
                    sample_rate: None,
                },
            }),
    {
        match read {
            Some(config) => config,
            None => StandaloneConfig::default(),
        }
    }
}

/// Why the configuration could not be saved. The text is what the file system or the
/// serializer said.
#[derive(Debug)]
pub enum ConfigError {
    NoDirectory,
    CreateDirectory(String),
    Serialize(String),
    Write(String),
}

/// The message for an error.
pub open spec fn config_message(e: ConfigError) -> Seq<char> {
    match e {
        ConfigError::NoDirectory => "Could not determine config directory"@,
        ConfigError::CreateDirectory(detail) => "Failed to create config directory: "@ + detail@,
        ConfigError::Serialize(detail) => "Failed to serialize config: "@ + detail@,
        ConfigError::Write(detail) => "Failed to write config: "@ + detail@,
    }
}

impl ConfigError {
    /// The message for this error.
    pub fn message(&self) -> (r: String)
        ensures
            r@ == config_message(*self),
    {
        match self {
            ConfigError::NoDirectory => "Could not determine config directory".to_owned(),
            ConfigError::CreateDirectory(detail) => joined(
                "Failed to create config directory: ",
                detail.as_str(),
            ),
            ConfigError::Serialize(detail) => joined(
                "Failed to serialize config: ",
                detail.as_str(),
            ),
            ConfigError::Write(detail) => joined("Failed to write config: ", detail.as_str()),
        }
    }
}

/// A message says what failed, and then in full what the file system or the serializer
/// said.
pub proof fn law_config_messages_end_with_the_detail(detail: String)
    ensures
        config_message(ConfigError::NoDirectory) == "Could not determine config directory"@,
        config_message(ConfigError::CreateDirectory(detail))
            == "Failed to create config directory: "@ + detail@,
        config_message(ConfigError::Serialize(detail)) == "Failed to serialize config: "@ + detail@,
        config_message(ConfigError::Write(detail)) == "Failed to write config: "@ + detail@,
{
}

} // verus!
