use nih_faust_jit::config::{ConfigError, StandaloneConfig};
use nih_faust_jit::standalone::{
    complete_arguments, needs_default_output, split_arguments,
};

fn strings(texts: &[&str]) -> Vec<String> {
    texts.iter().map(|t| t.to_string()).collect()
}

fn config(
    output: Option<&str>,
    input: Option<&str>,
    midi: Option<&str>,
    rate: Option<u32>,
) -> StandaloneConfig {
    StandaloneConfig {
        output_device: output.map(|s| s.to_string()),
        input_device: input.map(|s| s.to_string()),
        midi_input: midi.map(|s| s.to_string()),
        sample_rate: rate,
    }
}

#[test]
fn positional_arguments_are_script_and_audio_file() {
    let line = split_arguments(&strings(&["app", "synth.dsp", "loop.wav", "rest"]));
    assert_eq!(line.host_args, strings(&["app"]));
    assert_eq!(line.positional, strings(&["synth.dsp", "loop.wav", "rest"]));
    assert_eq!(line.dsp_script().unwrap(), "synth.dsp");
    assert_eq!(line.audio_file().unwrap(), "loop.wav");
    assert!(!line.debug);
}

#[test]
fn options_keep_their_values() {
    let line = split_arguments(&strings(&[
        "app", "standalone", "-o", "Speakers", "--debug", "--period", "x.dsp", "-s", "44100",
        "--output-gain", "-3",
    ]));
    assert_eq!(
        line.host_args,
        strings(&[
            "app", "standalone", "-o", "Speakers", "--period", "-s", "44100", "--output-gain", "-3"
        ])
    );
    assert_eq!(line.positional, strings(&["x.dsp"]));
    assert!(line.debug);
    assert!(line.audio_file().is_none());
}

#[test]
fn every_option_with_a_value_takes_it() {
    for option in [
        "--output-device", "-o", "--input-device", "-i", "--midi-input", "-m", "--buffer-size",
        "-b", "--sample-rate", "-s", "--input-gain", "-g", "--output-gain",
    ] {
        let line = split_arguments(&strings(&["app", option, "--debug", "file"]));
        assert_eq!(line.host_args, strings(&["app", option, "--debug"]), "{}", option);
        assert_eq!(line.positional, strings(&["file"]));
        assert!(!line.debug);
    }
}

#[test]
fn value_may_be_missing_at_the_end() {
    let line = split_arguments(&strings(&["app", "-o"]));
    assert_eq!(line.host_args, strings(&["app", "-o"]));
    let line = split_arguments(&strings(&[]));
    assert!(line.host_args.is_empty() && line.dsp_script().is_none());
    let line = split_arguments(&strings(&["--debug", ""]));
    assert_eq!(line.host_args, strings(&["--debug"]));
    assert_eq!(line.positional, strings(&[""]));
    assert!(!line.debug);
}

#[test]
fn no_argument_is_lost() {
    let args = strings(&["app", "a", "-o", "b", "--debug", "c", "-x", "standalone"]);
    let line = split_arguments(&args);
    let mut seen = line.host_args.len() + line.positional.len();
    seen += if line.debug { 1 } else { 0 };
    assert_eq!(seen, args.len());
}

#[test]
fn saved_selections_complete_the_arguments() {
    let cfg = config(Some("Out"), Some("In"), Some("Keys"), Some(44100));
    let args = complete_arguments(strings(&["app"]), &cfg, None);
    assert_eq!(
        args,
        strings(&[
            "app", "--output-device", "Out", "--input-device", "In", "--midi-input", "Keys",
            "--sample-rate", "44100"
        ])
    );
}

#[test]
fn defaults_fill_in_where_nothing_was_selected() {
    let cfg = config(None, None, None, None);
    assert!(needs_default_output(&strings(&["app"]), &cfg));
    let args = complete_arguments(strings(&["app"]), &cfg, Some("System".to_string()));
    assert_eq!(args, strings(&["app", "--output-device", "System"]));
    assert_eq!(complete_arguments(strings(&["app"]), &cfg, None), strings(&["app"]));
}

#[test]
fn command_line_goes_first() {
    let cfg = config(Some("Out"), Some("In"), Some("Keys"), Some(44100));
    let given = strings(&["app", "-o", "A", "-i", "B", "--midi-input", "C", "-s", "48000"]);
    assert!(!needs_default_output(&given, &cfg));
    assert_eq!(complete_arguments(given.clone(), &cfg, None), given);
    assert!(!needs_default_output(&strings(&["app"]), &cfg));
}

#[test]
fn completing_twice_is_completing_once() {
    let cfg = config(Some("Out"), None, None, Some(96000));
    let once = complete_arguments(strings(&["app", "-m", "x"]), &cfg, None);
    let twice = complete_arguments(once.clone(), &cfg, None);
    assert_eq!(once, twice);
}

#[test]
fn unreadable_configuration_is_the_default() {
    let none = StandaloneConfig::load(None);
    assert!(none.output_device.is_none() && none.input_device.is_none());
    assert!(none.midi_input.is_none() && none.sample_rate.is_none());
    let some = StandaloneConfig::load(Some(config(Some("Out"), None, None, Some(1))));
    assert_eq!(some.output_device.unwrap(), "Out");
    assert_eq!(some.sample_rate, Some(1));
}

#[test]
fn config_errors_have_their_messages() {
    let detail = || "why".to_string();
    assert_eq!(ConfigError::NoDirectory.message(), "Could not determine config directory");
    assert_eq!(
        ConfigError::CreateDirectory(detail()).message(),
        "Failed to create config directory: why"
    );
    assert_eq!(ConfigError::Serialize(detail()).message(), "Failed to serialize config: why");
    assert_eq!(ConfigError::Write(detail()).message(), "Failed to write config: why");
}
