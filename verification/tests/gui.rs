use nih_faust_jit::audio_file::{DecodedAudio, PlaybackState};
use nih_faust_jit::config::StandaloneConfig;
use nih_faust_jit::gui::analysis::{
    erb_view, freq_label, hovered_band, is_on_axis, label_band, labelled_freqs, marks_added,
    spectrum_view, tab, SpectrumView, Tab, LOWEST_FREQ,
};
use nih_faust_jit::gui::devices::{offered_rates, rate_label, DevicePanel};
use nih_faust_jit::gui::dsp_settings::{
    check_pending_dialogs, dialog_start, reload_shortcut, script_label, PendingDialogs,
};
use nih_faust_jit::gui::keyboard::{KeyEvent, KeyboardState, MidiMessage};
use nih_faust_jit::gui::preset_panel::{load_chosen, PresetPanel};
use nih_faust_jit::gui::spectrogram::{
    classify, column_frames, compared_columns, heat, layout, zoom, Grid, Heat, SignalChange,
    DIFF_THRESHOLD, HEAT_BLUE, HEAT_CYAN, HEAT_GREEN, HEAT_YELLOW, QUIET_THRESHOLD,
    SIGNAL_THRESHOLD, ZOOM_HIGH, ZOOM_LOW,
};
use nih_faust_jit::gui::test_input::{audio_summary, generator_task, play_label};
use nih_faust_jit::presets::Preset;
use nih_faust_jit::session::{SelectedPaths, Session, Tasks};
use nih_faust_jit::store::ParamStore;
use nih_faust_jit::testbench::TestbenchState;

fn b(v: f32) -> u32 {
    v.to_bits()
}

fn bits(values: &[f32]) -> Vec<u32> {
    values.iter().map(|v| v.to_bits()).collect()
}

fn strings(texts: &[&str]) -> Vec<String> {
    texts.iter().map(|t| t.to_string()).collect()
}

fn key(pressed: bool, released: bool) -> KeyEvent {
    KeyEvent { pressed, released }
}

fn on(note: u8) -> MidiMessage {
    MidiMessage { status: 0x90, note, velocity: 100 }
}

fn off(note: u8) -> MidiMessage {
    MidiMessage { status: 0x80, note, velocity: 0 }
}

#[test]
fn notes_start_and_end_once() {
    let mut keys = KeyboardState::new();
    assert_eq!(keys.octave, 4);
    let mut events = vec![key(false, false); 12];
    events[0].pressed = true;
    events[11].pressed = true;
    assert_eq!(keys.play(&events), vec![on(60), on(71)]);
    assert_eq!(keys.play(&events), vec![]);
    let mut events = vec![key(false, false); 12];
    events[0].released = true;
    events[1].released = true;
    assert_eq!(keys.play(&events), vec![off(60)]);
    assert_eq!(keys.play(&events), vec![]);
    assert_eq!(keys.pressed_notes.len(), 1);
    assert!(keys.pressed_notes.contains(&71));
}

#[test]
fn press_and_release_in_one_frame_is_a_short_note() {
    let mut keys = KeyboardState::new();
    assert_eq!(keys.play(&vec![key(true, true)]), vec![on(60), off(60)]);
    assert!(keys.pressed_notes.is_empty());
}

#[test]
fn notes_beyond_the_range_are_not_played() {
    let mut keys = KeyboardState::new();
    keys.octave = 20;
    assert!(keys.play(&vec![key(true, true); 12]).is_empty());
    keys.octave = 9;
    let played = keys.play(&vec![key(true, false); 12]);
    assert_eq!(played.len(), 8);
    assert_eq!(played[7], on(127));
    keys.octave = 0;
    assert_eq!(keys.play(&vec![key(true, false)]), vec![on(12)]);
}

#[test]
fn dialogs_are_taken_once() {
    let mut pending = PendingDialogs::new();
    let mut paths = SelectedPaths { dsp_script: None, dsp_lib_path: "libs" };
    assert!(check_pending_dialogs(&mut pending, &mut paths).is_empty());
    assert_eq!(*dialog_start(&paths), "libs");
    pending.script_path = Some("a.dsp");
    pending.lib_path = Some("more");
    pending.audio_file = Some("b.wav");
    let tasks = check_pending_dialogs(&mut pending, &mut paths);
    assert_eq!(tasks.len(), 2);
    assert!(matches!(tasks[0], Tasks::ReloadDsp));
    assert!(matches!(tasks[1], Tasks::LoadAudioFile("b.wav")));
    assert_eq!((paths.dsp_script, paths.dsp_lib_path), (Some("a.dsp"), "more"));
    assert_eq!(*dialog_start(&paths), "a.dsp");
    assert!(check_pending_dialogs(&mut pending, &mut paths).is_empty());
    assert_eq!(paths.dsp_script, Some("a.dsp"));
}

#[test]
fn reload_needs_a_modifier_and_a_script() {
    let none = SelectedPaths { dsp_script: None, dsp_lib_path: 0 };
    let some = SelectedPaths { dsp_script: Some(1), dsp_lib_path: 0 };
    assert!(reload_shortcut(true, true, false, &some));
    assert!(reload_shortcut(true, false, true, &some));
    assert!(!reload_shortcut(true, false, false, &some));
    assert!(!reload_shortcut(false, true, true, &some));
    assert!(!reload_shortcut(true, true, true, &none));
    assert_eq!(script_label(&None), "(none)");
    assert_eq!(script_label(&Some(None)), "?");
    assert_eq!(script_label(&Some(Some("x.dsp".to_string()))), "x.dsp");
}

#[test]
fn presets_are_listed_once_per_script() {
    let mut panel = PresetPanel::new();
    assert!(panel.needs_listing("synth"));
    assert!(!panel.set_listing("synth", strings(&["A", "B"])));
    assert!(!panel.needs_listing("synth"));
    assert!(panel.needs_listing("other"));
    assert_eq!(panel.selected_label(), "-");
    assert_eq!(panel.choose_preset(1), Some("B".to_string()));
    assert_eq!(panel.choose_preset(1), None);
    assert_eq!(panel.selected_label(), "B");
    assert!(panel.set_listing("other", strings(&["X", "Default"])));
    assert!(panel.selected_preset.is_none());
}

#[test]
fn default_preset_is_loaded_by_itself() {
    let mut session: Session<&str> = Session::new(Some("x.dsp"), "libs");
    let mut panel = PresetPanel::new();
    assert!(panel.auto_load(&mut session, None).is_none());
    assert!(panel.selected_preset.is_none() && !session.preset_loading);
    let mut values = ParamStore::new();
    values.insert("gain".to_string(), 5);
    let preset = Preset { name: "Default".to_string(), values };
    assert!(matches!(panel.auto_load(&mut session, Some(&preset)), Some(Tasks::ReloadDsp)));
    assert_eq!(panel.selected_label(), "Default");
    assert!(session.preset_loading);
    assert_eq!(session.faust_param_values.get("gain"), Some(5));
    session.preset_loading = false;
    assert!(load_chosen(&mut session, None).is_none());
    assert!(!session.preset_loading);
    assert!(load_chosen(&mut session, Some(&preset)).is_some());
    assert!(session.preset_loading);
}

#[test]
fn deleting_asks_first() {
    let mut panel = PresetPanel::new();
    panel.ask_delete();
    assert!(!panel.confirm_delete_preset);
    panel.set_listing("synth", strings(&["A", "B"]));
    panel.choose_preset(0);
    panel.ask_delete();
    assert!(panel.confirm_delete_preset);
    panel.cancel_delete();
    assert!(!panel.confirm_delete_preset);
    panel.ask_delete();
    assert_eq!(panel.confirm_delete(), Some("A".to_string()));
    assert!(!panel.confirm_delete_preset);
    assert_eq!(panel.selected_label(), "A");
    panel.deleted(strings(&["B"]));
    assert_eq!(panel.selected_label(), "-");
    assert_eq!(panel.cached_presets, strings(&["B"]));
}

#[test]
fn saved_preset_is_selected() {
    let mut panel = PresetPanel::new();
    assert!(!panel.can_save());
    panel.save_preset_name = "New".to_string();
    assert!(panel.can_save());
    panel.saved(strings(&["New", "Old"]));
    assert_eq!(panel.selected_label(), "New");
    assert_eq!(panel.save_preset_name, "");
    assert_eq!(panel.cached_presets.len(), 2);
}

#[test]
fn audio_file_is_summed_up() {
    let audio = DecodedAudio {
        channels: vec![vec![0; 5]],
        sample_rate: 44100,
        total_frames: 5,
        file_path: 1,
        original_sample_rate: 22050,
        num_channels: 1,
    };
    let shown = audio_summary(Some(&audio), Some("a.wav".to_string()));
    assert!(shown.has_audio);
    assert_eq!((shown.total_frames, shown.sample_rate), (5, 44100));
    assert_eq!(shown.file_name.unwrap(), "a.wav");
    assert_eq!(audio_summary(Some(&audio), None).file_name.unwrap(), "Unknown");
    let none = audio_summary::<i32>(None, None);
    assert!(!none.has_audio && none.file_name.is_none());
    assert_eq!((none.total_frames, none.sample_rate), (0, 48000));
}

#[test]
fn generator_is_for_effects() {
    assert!(matches!(generator_task::<i32>(true, false), Some(Tasks::UnloadTestSignals)));
    assert!(matches!(generator_task::<i32>(false, true), Some(Tasks::LoadTestSignals)));
    assert!(generator_task::<i32>(false, false).is_none());
    assert_eq!(play_label(&PlaybackState::new()), "Pause");
    assert_eq!(play_label(&PlaybackState::default()), "Play");
}

#[test]
fn device_selections_count_as_changes_until_saved() {
    let mut panel = DevicePanel::new(StandaloneConfig::load(None));
    assert!(panel.needs_devices(false));
    panel.set_devices(strings(&["Mic"]), strings(&["Speakers"]), strings(&["Keys"]));
    assert!(!panel.needs_devices(false));
    assert!(panel.needs_devices(true));
    assert_eq!(panel.output_label(), "(Default)");
    assert_eq!(panel.input_label(), "(None)");
    assert_eq!(panel.midi_label(), "(None)");
    assert_eq!(panel.selected_rate_label(), "(Default 48000)");
    assert!(!panel.config_modified);
    panel.select_output(Some("Speakers".to_string()));
    assert!(panel.config_modified);
    panel.saved(false);
    assert!(panel.config_modified);
    panel.saved(true);
    assert!(!panel.config_modified);
    panel.select_input(Some("Mic".to_string()));
    panel.select_midi(Some("Keys".to_string()));
    panel.select_rate(Some(44100));
    assert!(panel.config_modified);
    assert_eq!(panel.output_label(), "Speakers");
    assert_eq!(panel.input_label(), "Mic");
    assert_eq!(panel.midi_label(), "Keys");
    assert_eq!(panel.selected_rate_label(), "44100 Hz");
    panel.select_output(None);
    assert_eq!(panel.output_label(), "(Default)");
    assert_eq!(offered_rates(), vec![44100, 48000, 88200, 96000]);
    assert_eq!(rate_label(88200), "88200 Hz");
}

#[test]
fn tabs_have_their_numbers() {
    assert_eq!(tab(0), Some(Tab::Oscilloscope));
    assert_eq!(tab(1), Some(Tab::Spectrum));
    assert_eq!(tab(2), Some(Tab::ErbBands));
    assert_eq!(tab(3), Some(Tab::Benchmark));
    assert_eq!(tab(4), None);
}

#[test]
fn only_effects_are_compared() {
    let mut state = TestbenchState::default();
    state.show_comparison = true;
    state.normalize_to_max = true;
    let plain = spectrum_view(&mut state, false);
    assert!(!plain.comparing && !plain.normalizing && !plain.offers_normalizing);
    let effect = spectrum_view(&mut state, true);
    assert_eq!(
        effect,
        SpectrumView {
            spectrogram: false,
            comparing: true,
            normalizing: true,
            offers_normalizing: true,
        }
    );
    assert!(!state.spectrum.show_waterfall);
    state.show_spectrogram = true;
    let history = spectrum_view(&mut state, true);
    assert!(history.spectrogram && history.comparing && !history.normalizing);
    assert!(state.spectrum.show_waterfall && !state.erb.show_waterfall);
    assert_eq!(erb_view(&mut state, true), history);
    assert!(state.erb.show_waterfall);
}

#[test]
fn axis_starts_at_twenty_hertz() {
    assert_eq!(LOWEST_FREQ, b(20.0));
    assert!(is_on_axis(b(20.0), b(22050.0)));
    assert!(is_on_axis(b(22050.0), b(22050.0)));
    assert!(!is_on_axis(b(19.9), b(22050.0)));
    assert!(!is_on_axis(b(22051.0), b(22050.0)));
    assert!(marks_added(b(1.1)));
    assert!(!marks_added(b(1.0)));
}

#[test]
fn labels_stand_below_their_bands() {
    let freqs = bits(&[50.0, 95.0, 105.0, 200.0]);
    assert_eq!(label_band(&freqs, b(90.0), b(110.0)), Some(1));
    assert_eq!(label_band(&freqs, b(180.0), b(220.0)), Some(3));
    assert_eq!(label_band(&freqs, b(900.0), b(1100.0)), None);
    let labels: Vec<String> = labelled_freqs().iter().map(|hz| freq_label(*hz)).collect();
    assert_eq!(labels, strings(&["100", "200", "500", "1k", "2k", "5k", "10k", "20k"]));
    assert_eq!(hovered_band(3, 48), 3);
    assert_eq!(hovered_band(48, 48), 47);
}

#[test]
fn spectrogram_constants_are_their_numbers() {
    assert_eq!(ZOOM_LOW, b(500.0));
    assert_eq!(ZOOM_HIGH, b(22000.0));
    assert_eq!(SIGNAL_THRESHOLD, b(0.02));
    assert_eq!(DIFF_THRESHOLD, b(0.01));
    assert_eq!(QUIET_THRESHOLD, b(0.01 * 3.0));
    assert_eq!(
        [HEAT_BLUE, HEAT_CYAN, HEAT_GREEN, HEAT_YELLOW],
        [b(0.2), b(0.4), b(0.6), b(0.8)]
    );
    assert_eq!(zoom(b(100.0)), b(500.0));
    assert_eq!(zoom(b(1000.0)), b(1000.0));
    assert_eq!(zoom(b(30000.0)), b(22000.0));
}

#[test]
fn rows_of_a_spectrogram_show_bins() {
    assert_eq!(layout(100, 2049), Grid { max_bin: 100, bin_step: 1, num_rows: 100 });
    assert_eq!(layout(0, 2049), Grid { max_bin: 1, bin_step: 1, num_rows: 1 });
    assert_eq!(layout(5000, 2049), Grid { max_bin: 2049, bin_step: 4, num_rows: 512 });
    assert_eq!(layout(1023, 2049), Grid { max_bin: 1023, bin_step: 1, num_rows: 1023 });
    assert_eq!(layout(1030, 2049), Grid { max_bin: 1030, bin_step: 2, num_rows: 515 });
    let grid = layout(5000, 2049);
    assert_eq!(grid.source_bin(10, 2049), Some(40));
    assert_eq!(grid.source_bin(511, 2049), Some(2044));
    assert_eq!(grid.source_bin(511, 2000), None);
}

#[test]
fn compared_histories_end_together() {
    assert_eq!(compared_columns(10, 4), 4);
    assert_eq!(compared_columns(4, 10), 4);
    assert_eq!(column_frames(10, 4, 0), (6, 0));
    assert_eq!(column_frames(10, 4, 3), (9, 3));
    assert_eq!(column_frames(4, 10, 3), (3, 9));
}

#[test]
fn changes_of_the_signal_are_told_apart() {
    let change = |post: f32, pre: f32| {
        let diff = post - pre;
        classify(b(post), b(pre), b(diff), b(diff.abs()))
    };
    assert_eq!(change(0.01, 0.0), None);
    assert_eq!(change(0.5, 0.5), Some(SignalChange::Unchanged));
    assert_eq!(change(0.5, 0.01), Some(SignalChange::Created));
    assert_eq!(change(0.5, 0.3), Some(SignalChange::Strengthened));
    assert_eq!(change(0.01, 0.5), Some(SignalChange::Removed));
    assert_eq!(change(0.3, 0.5), Some(SignalChange::Weakened));
}

#[test]
fn heat_rises_with_the_level() {
    let parts: Vec<Heat> =
        [0.0, 0.19, 0.2, 0.4, 0.6, 0.8, 1.0].iter().map(|v| heat(b(*v)).0).collect();
    assert_eq!(
        parts,
        vec![
            Heat::BlackToBlue,
            Heat::BlackToBlue,
            Heat::BlueToCyan,
            Heat::CyanToGreen,
            Heat::GreenToYellow,
            Heat::YellowToRed,
            Heat::YellowToRed,
        ]
    );
    assert_eq!(heat(b(-3.0)), (Heat::BlackToBlue, b(0.0)));
    assert_eq!(heat(b(3.0)), (Heat::YellowToRed, b(1.0)));
}
