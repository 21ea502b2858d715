use nih_faust_jit::presets::Preset;
use nih_faust_jit::session::{
    clock_data, ClockData, DspState, DspType, LoadMode, LoadedDsp, Session, Tasks,
};
use nih_faust_jit::store::ParamStore;
use nih_faust_jit::widgets::tree::{
    BoolParamLayout, BoxLayout, NumMetadata, NumParamLayout, NumParamStyle, Widget, WidgetScale,
};

fn b(v: f32) -> u32 {
    v.to_bits()
}

fn number(label: &str, value: f32, nopre: bool) -> Widget {
    Widget::NumParam {
        layout: NumParamLayout::HorizontalSlider,
        style: NumParamStyle::Plain,
        label: label.to_string(),
        zone: b(value),
        min: b(0.0),
        max: b(1.0),
        step: b(0.01),
        init: b(0.5),
        metadata: NumMetadata {
            unit: None,
            scale: WidgetScale::Lin,
            hidden: false,
            tooltip: None,
            nopre,
        },
    }
}

fn switch(label: &str, on: bool) -> Widget {
    Widget::BoolParam {
        layout: BoolParamLayout::Checkbox,
        label: label.to_string(),
        zone: b(if on { 1.0 } else { 0.0 }),
        hidden: false,
        tooltip: None,
        nopre: false,
    }
}

fn group(label: &str, inner: Vec<Widget>) -> Widget {
    Widget::Group { layout: BoxLayout::Vertical, label: label.to_string(), inner }
}

fn script(inputs: u32, outputs: u32, drive: f32, level: f32) -> LoadedDsp {
    LoadedDsp {
        num_inputs: inputs,
        num_outputs: outputs,
        widgets: vec![group(
            "Fx",
            vec![number("drive", drive, false), number("level", level, true), switch("on", false)],
        )],
    }
}

fn zones(state: &DspState) -> Vec<f32> {
    match state {
        DspState::Loaded(dsp) => match &dsp.widgets[0] {
            Widget::Group { inner, .. } => inner
                .iter()
                .map(|w| match w {
                    Widget::NumParam { zone, .. } => f32::from_bits(*zone),
                    Widget::BoolParam { zone, .. } => f32::from_bits(*zone),
                    _ => panic!("unexpected widget"),
                })
                .collect(),
            _ => panic!("expected a group"),
        },
        _ => panic!("expected a loaded script"),
    }
}

fn preset(values: &[(&str, f32)]) -> Preset {
    let mut store = ParamStore::new();
    for (path, value) in values {
        store.insert(path.to_string(), b(*value));
    }
    Preset { name: "P".to_string(), values: store }
}

#[test]
fn session_starts_without_a_script() {
    let session: Session<&str> = Session::new(None, "libs");
    assert!(matches!(session.dsp_state, DspState::NoDspScript));
    assert_eq!(session.dsp_nvoices, -1);
    assert!(session.faust_param_values.is_empty());
    assert!(!session.preset_loading && !session.is_effect() && !session.shows_keyboard());
}

#[test]
fn command_line_selects_script_and_audio_file() {
    let mut session = Session::new(Some("old.dsp"), "libs");
    let tasks = session.initialize(Some("new.dsp"), Some("a.wav"));
    assert_eq!(session.selected_paths.dsp_script, Some("new.dsp"));
    assert_eq!(tasks.len(), 2);
    assert!(matches!(tasks[0], Tasks::LoadAudioFile("a.wav")));
    assert!(matches!(tasks[1], Tasks::ReloadDsp));
    let tasks = session.initialize(None, None);
    assert_eq!(session.selected_paths.dsp_script, Some("new.dsp"));
    assert!(tasks.len() == 1 && matches!(tasks[0], Tasks::ReloadDsp));
}

#[test]
fn reload_reports_what_came_out() {
    let mut session: Session<&str> = Session::new(Some("x.dsp"), "libs");
    session.preset_loading = true;
    session.reload_dsp(Some(Err("syntax error".to_string())));
    assert!(matches!(&session.dsp_state, DspState::Failed(m) if m == "syntax error"));
    assert!(!session.preset_loading);
    session.reload_dsp(Some(Ok(script(3, 2, 0.0, 0.0))));
    match &session.dsp_state {
        DspState::Failed(m) => {
            assert_eq!(m, "DSP has 3 input and 2 output channels. Max is 2 for each")
        }
        _ => panic!("expected a failure"),
    }
    session.reload_dsp(Some(Ok(script(2, 10, 0.0, 0.0))));
    assert!(matches!(&session.dsp_state, DspState::Failed(m) if m.contains("2 input and 10 output")));
    session.reload_dsp(None);
    assert!(matches!(session.dsp_state, DspState::NoDspScript));
    session.reload_dsp(Some(Ok(script(2, 2, 0.25, 0.75))));
    assert_eq!(zones(&session.dsp_state), vec![0.25, 0.75, 0.0]);
    assert!(session.is_effect() && !session.shows_keyboard());
}

#[test]
fn stored_values_are_brought_back_on_reload() {
    let mut session: Session<&str> = Session::new(Some("x.dsp"), "libs");
    session.reload_dsp(Some(Ok(script(1, 1, 0.3, 0.6))));
    session.store_drawn();
    assert_eq!(session.faust_param_values.get("Fx/drive"), Some(b(0.3)));
    assert_eq!(session.faust_param_values.get("Fx/level"), Some(b(0.6)));
    assert_eq!(session.faust_param_values.get("Fx/on"), Some(b(0.0)));
    session.reload_dsp(Some(Ok(script(1, 1, 0.0, 0.0))));
    assert_eq!(zones(&session.dsp_state), vec![0.3, 0.6, 0.0]);
}

#[test]
fn preset_values_survive_the_reload() {
    let mut session: Session<&str> = Session::new(Some("x.dsp"), "libs");
    session.reload_dsp(Some(Ok(script(1, 1, 0.3, 0.6))));
    session.store_drawn();
    session.merge_preset(&preset(&[("Fx/drive", 7.0), ("Fx/on", 1.0), ("gone", 0.1)]));
    assert!(session.preset_loading);
    for _ in 0..3 {
        session.store_drawn();
    }
    assert_eq!(session.faust_param_values.get("Fx/drive"), Some(b(7.0)));
    session.reload_dsp(Some(Ok(script(1, 1, 0.0, 0.0))));
    // The drive is moved into its range; the level was not in the preset and is kept.
    assert_eq!(zones(&session.dsp_state), vec![1.0, 0.6, 1.0]);
    session.store_drawn();
    assert_eq!(session.faust_param_values.get("Fx/drive"), Some(b(1.0)));
    assert_eq!(session.faust_param_values.get("gone"), Some(b(0.1)));
}

#[test]
fn presets_leave_marked_parameters_out() {
    let mut session: Session<&str> = Session::new(Some("x.dsp"), "libs");
    session.reload_dsp(Some(Ok(script(1, 1, 0.3, 0.6))));
    session.store_drawn();
    let saved = session.preset_values();
    assert_eq!(saved.len(), 2);
    assert_eq!(saved.get("Fx/level"), None);
    session.reload_dsp(None);
    assert_eq!(session.preset_values().len(), 3);
    session.merge_preset(&Preset { name: "P".to_string(), values: saved });
    assert_eq!(session.faust_param_values.get("Fx/level"), Some(b(0.6)));
}

#[test]
fn saved_preset_comes_back() {
    let mut session: Session<&str> = Session::new(Some("x.dsp"), "libs");
    session.reload_dsp(Some(Ok(script(1, 1, 0.3, 0.6))));
    let values = session.preset_values();
    session.reload_dsp(Some(Ok(script(1, 1, 0.9, 0.9))));
    session.store_drawn();
    session.merge_preset(&Preset { name: "P".to_string(), values });
    session.reload_dsp(Some(Ok(script(1, 1, 0.5, 0.5))));
    assert_eq!(zones(&session.dsp_state), vec![0.3, 0.9, 0.0]);
}

#[test]
fn mono_scripts_play_on_both_sides() {
    let mut session: Session<&str> = Session::new(Some("x.dsp"), "libs");
    let mut buffer = vec![vec![1, 2], vec![3, 4, 5]];
    session.finish_buffer(&mut buffer);
    assert_eq!(buffer, vec![vec![1, 2], vec![3, 4, 5]]);
    session.reload_dsp(Some(Ok(script(2, 2, 0.0, 0.0))));
    session.finish_buffer(&mut buffer);
    assert_eq!(buffer, vec![vec![1, 2], vec![3, 4, 5]]);
    session.reload_dsp(Some(Ok(script(0, 1, 0.0, 0.0))));
    assert!(session.shows_keyboard());
    session.finish_buffer(&mut buffer);
    assert_eq!(buffer, vec![vec![1, 2], vec![1, 2, 5]]);
    let mut single = vec![vec![1]];
    session.finish_buffer(&mut single);
    assert_eq!(single, vec![vec![1]]);
}

#[test]
fn selected_type_sets_the_voices() {
    let modes = [
        (LoadMode::AutoDetect, DspType::AutoDetect),
        (LoadMode::Effect, DspType::Effect),
        (LoadMode::Instrument { nvoices: 8 }, DspType::Instrument),
    ];
    for (mode, kind) in modes {
        assert_eq!(DspType::from_load_mode(mode), kind);
    }
    assert_eq!(DspType::AutoDetect.nvoices(DspType::Instrument, 8), -1);
    assert_eq!(DspType::Effect.nvoices(DspType::Effect, 8), 0);
    assert_eq!(DspType::Instrument.nvoices(DspType::Effect, 0), 1);
    assert_eq!(DspType::Instrument.nvoices(DspType::Instrument, 8), 8);
    assert_eq!(DspType::all().len(), 3);
}

#[test]
fn clock_needs_tempo_and_position() {
    let tempo = 120.0f64.to_bits();
    let known = clock_data(Some(tempo), Some(-5), 512);
    assert_eq!(
        known,
        Some(ClockData { tempo, next_buffer_size: 512, next_buffer_sample_position: -5 })
    );
    assert_eq!(clock_data(None, Some(1), 512), None);
    assert_eq!(clock_data(Some(tempo), None, 512), None);
}
