use nih_faust_jit::store::ParamStore;
use nih_faust_jit::text::{joined, same_text, to_decimal, to_two_digits};
use nih_faust_jit::widgets::controls::{
    align_choice, drag_sensitivity, is_on, Action, FadePhase, FadeState, TooltipState,
};
use nih_faust_jit::widgets::meter::{
    bar_level, bar_segments, meter_colors, MeterColorState, MeterState, Rgb, GREEN_END,
    ORANGE_END, WARN_THRESHOLD,
};
use nih_faust_jit::widgets::persistence::{
    build_widget_path, has_moved, log_param_changes, restore_widget_values, save_widget_values,
    MOVED_THRESHOLD,
};
use nih_faust_jit::widgets::plan::{
    plan_tab_buttons, plan_widgets, DisplayView, NumControl, Step,
};
use nih_faust_jit::widgets::tree::{
    BoolParamLayout, BoxLayout, Choices, NumDisplayLayout, NumDisplayStyle, NumMetadata,
    NumParamLayout, NumParamStyle, Widget, WidgetScale,
};
use nih_faust_jit::widgets::voices::{
    apply_voice_params, collect_all_params, collect_voice_params, is_voice_group_to_skip, should_skip, should_unwrap,
    sync_voice_parameters,
};

fn b(v: f32) -> u32 {
    v.to_bits()
}

fn metadata() -> NumMetadata {
    NumMetadata {
        unit: None,
        scale: WidgetScale::Lin,
        hidden: false,
        tooltip: None,
        nopre: false,
    }
}

fn styled(label: &str, value: f32, layout: NumParamLayout, style: NumParamStyle) -> Widget {
    Widget::NumParam {
        layout,
        style,
        label: label.to_string(),
        zone: b(value),
        min: b(0.0),
        max: b(10.0),
        step: b(0.1),
        init: b(5.0),
        metadata: metadata(),
    }
}

fn number(label: &str, value: f32) -> Widget {
    styled(label, value, NumParamLayout::HorizontalSlider, NumParamStyle::Plain)
}

fn switch(label: &str, value: f32, layout: BoolParamLayout) -> Widget {
    Widget::BoolParam {
        layout,
        label: label.to_string(),
        zone: b(value),
        hidden: false,
        tooltip: None,
        nopre: true,
    }
}

fn display(label: &str, value: f32, style: NumDisplayStyle) -> Widget {
    Widget::NumDisplay {
        layout: NumDisplayLayout::Vertical,
        style,
        label: label.to_string(),
        zone: b(value),
        min: b(0.0),
        max: b(1.0),
        metadata: metadata(),
    }
}

fn group(label: &str, inner: Vec<Widget>) -> Widget {
    Widget::Group { layout: BoxLayout::Vertical, label: label.to_string(), inner }
}

fn tabs(label: &str, selected: usize, inner: Vec<Widget>) -> Widget {
    Widget::Group { layout: BoxLayout::Tab { selected }, label: label.to_string(), inner }
}

fn zone(w: &Widget) -> f32 {
    match w {
        Widget::BoolParam { zone, .. } => f32::from_bits(*zone),
        Widget::NumParam { zone, .. } => f32::from_bits(*zone),
        Widget::NumDisplay { zone, .. } => f32::from_bits(*zone),
        Widget::Group { .. } => panic!("a group has no value"),
    }
}

fn inner(w: &Widget) -> &Vec<Widget> {
    match w {
        Widget::Group { inner, .. } => inner,
        _ => panic!("expected a group"),
    }
}

#[test]
fn numbers_are_written_in_decimal() {
    for n in [0u64, 7, 10, 44100, u64::MAX] {
        assert_eq!(to_decimal(n), n.to_string());
    }
    assert_eq!(to_two_digits(0), "00");
    assert_eq!(to_two_digits(9), "09");
    assert_eq!(to_two_digits(10), "10");
    assert_eq!(to_two_digits(123), "123");
    assert_eq!(joined("a\u{e9}", "b"), "a\u{e9}b");
    assert!(same_text("x", "x") && !same_text("x", "y"));
}

#[test]
fn store_keeps_the_last_value() {
    let mut store = ParamStore::new();
    assert!(store.is_empty());
    store.insert("a".to_string(), 1);
    store.insert("b".to_string(), 2);
    store.insert("a".to_string(), 3);
    assert_eq!(store.len(), 2);
    assert_eq!(store.get("a"), Some(3));
    assert_eq!(store.get("c"), None);
    let mut other = ParamStore::new();
    other.insert("b".to_string(), 9);
    other.insert("c".to_string(), 8);
    store.extend(&other);
    assert_eq!((store.get("a"), store.get("b"), store.get("c")), (Some(3), Some(9), Some(8)));
    let copy = store.copy();
    assert_eq!(copy.len(), 3);
    let mut entries = copy.to_entries();
    entries.sort();
    assert_eq!(
        entries,
        vec![("a".to_string(), 3), ("b".to_string(), 9), ("c".to_string(), 8)]
    );
}

#[test]
fn paths_skip_empty_labels() {
    assert_eq!(build_widget_path("", "Drive"), "Drive");
    assert_eq!(build_widget_path("Razor", ""), "Razor");
    assert_eq!(build_widget_path("Razor", "Drive"), "Razor/Drive");
    assert_eq!(build_widget_path("", ""), "");
}

#[test]
fn parameters_are_saved_by_path() {
    let widgets = vec![
        group("Razor", vec![group("", vec![number("Drive", 3.0)]), number("", 4.0)]),
        switch("Bypass", 1.0, BoolParamLayout::Checkbox),
        display("Level", 0.5, NumDisplayStyle::Led),
        number("", 9.0),
    ];
    let mut all = ParamStore::new();
    save_widget_values(&widgets, &mut all, "", false);
    assert_eq!(all.len(), 3);
    assert_eq!(all.get("Razor/Drive"), Some(b(3.0)));
    assert_eq!(all.get("Razor"), Some(b(4.0)));
    assert_eq!(all.get("Bypass"), Some(b(1.0)));
    let mut preset = ParamStore::new();
    save_widget_values(&widgets, &mut preset, "", true);
    assert_eq!(preset.get("Bypass"), None);
    assert_eq!(preset.len(), 2);
}

#[test]
fn stored_values_are_brought_back_in_range() {
    let mut widgets = vec![
        group("A", vec![number("x", 1.0), number("y", 2.0)]),
        switch("s", 0.0, BoolParamLayout::Held),
        display("d", 0.5, NumDisplayStyle::Led),
    ];
    let mut stored = ParamStore::new();
    stored.insert("A/x".to_string(), b(99.0));
    stored.insert("s".to_string(), b(7.0));
    stored.insert("d".to_string(), b(1.0));
    restore_widget_values(&mut widgets, &stored, "");
    assert_eq!(zone(&inner(&widgets[0])[0]), 10.0);
    assert_eq!(zone(&inner(&widgets[0])[1]), 2.0);
    assert_eq!(zone(&widgets[1]), 7.0);
    assert_eq!(zone(&widgets[2]), 0.5);
    restore_widget_values(&mut widgets, &stored, "");
    assert_eq!(zone(&inner(&widgets[0])[0]), 10.0);
}

#[test]
fn saved_values_come_back() {
    let widgets = vec![group("A", vec![number("x", 1.5), number("y", 2.5)])];
    let mut stored = ParamStore::new();
    save_widget_values(&widgets, &mut stored, "", false);
    let mut fresh = vec![group("A", vec![number("x", 0.0), number("y", 0.0)])];
    restore_widget_values(&mut fresh, &stored, "");
    assert_eq!(zone(&inner(&fresh[0])[0]), 1.5);
    assert_eq!(zone(&inner(&fresh[0])[1]), 2.5);
}

#[test]
fn moved_parameters_are_reported() {
    assert_eq!(MOVED_THRESHOLD, b(0.001));
    let widgets = vec![group("A", vec![number("x", 1.5), number("y", 2.5)])];
    let mut stored = ParamStore::new();
    stored.insert("A/x".to_string(), b(1.0));
    let changes = log_param_changes(&widgets, &stored, "");
    assert_eq!(changes.len(), 1);
    assert_eq!(changes[0].path, "A/x");
    assert_eq!((changes[0].old_value, changes[0].new_value), (b(1.0), b(1.5)));
    assert!(has_moved(b(0.5)) && !has_moved(b(0.001)) && !has_moved(b(f32::NAN)));
}

#[test]
fn other_voices_are_hidden() {
    for hidden in ["V2", "V16", "V11", "V01", "V0", "DSP2"] {
        assert!(should_skip(hidden), "{}", hidden);
    }
    for shown in ["V1", "V", "", "V1a", "Vox", "v2", "DSP1", "V\u{662}", "W2"] {
        assert!(!should_skip(shown), "{}", shown);
    }
    assert!(is_voice_group_to_skip("V2") && !is_voice_group_to_skip("DSP2"));
    for plain in ["Sequencer", "Polyphonic", "DSP1", "V1", "FaustDSP"] {
        assert!(should_unwrap(plain));
    }
    assert!(!should_unwrap("V2"));
}

#[test]
fn voices_follow_the_first() {
    let voice = |label: &str, cutoff: f32, gate: f32| {
        group(label, vec![
            group("Filter", vec![number("cutoff", cutoff)]),
            switch("gate", gate, BoolParamLayout::Held),
            number("freq", gate * 100.0),
        ])
    };
    let mut widgets = vec![group("Polyphonic", vec![
        voice("V1", 7.0, 1.0),
        voice("V2", 1.0, 0.0),
        group("Box", vec![voice("V16", 2.0, 0.5)]),
        voice("V17", 3.0, 0.0),
        voice("V32", 4.0, 0.0),
        voice("V123456789012345678901234567890", 5.0, 0.0),
        voice("V02", 6.0, 0.0),
        voice("V0", 8.0, 0.0),
    ])];
    sync_voice_parameters(&mut widgets);
    let voices = inner(&widgets[0]);
    let cutoff = |v: &Widget| zone(&inner(&inner(v)[0])[0]);
    assert_eq!(cutoff(&voices[0]), 7.0);
    assert_eq!(cutoff(&voices[1]), 7.0);
    assert_eq!(cutoff(&inner(&voices[2])[0]), 7.0);
    assert_eq!(cutoff(&voices[3]), 7.0);
    assert_eq!(cutoff(&voices[4]), 7.0);
    assert_eq!(cutoff(&voices[5]), 7.0);
    assert_eq!(cutoff(&voices[6]), 6.0);
    assert_eq!(cutoff(&voices[7]), 8.0);
    assert_eq!(zone(&inner(&voices[1])[1]), 0.0);
    assert_eq!(zone(&inner(&voices[1])[2]), 0.0);
    assert_eq!(zone(&inner(&voices[0])[2]), 100.0);
}

#[test]
fn voices_inside_voices_follow_the_first() {
    let mut widgets = vec![
        group("V1", vec![
            number("a", 1.0),
            group("V3", vec![number("b", 2.0)]),
            group("gate", vec![number("c", 3.0)]),
        ]),
        group("V2", vec![
            number("a", 0.0),
            group("V3", vec![number("a", 0.0), number("b", 0.0), number("d", 0.0)]),
            group("gate", vec![number("c", 0.0), group("V4", vec![number("a", 0.0)])]),
        ]),
    ];
    sync_voice_parameters(&mut widgets);
    let second = inner(&widgets[1]);
    assert_eq!(zone(&second[0]), 1.0);
    let nested: Vec<f32> = inner(&second[1]).iter().map(zone).collect();
    assert_eq!(nested, vec![1.0, 2.0, 0.0]);
    let driven = inner(&second[2]);
    assert_eq!(zone(&driven[0]), 0.0);
    assert_eq!(zone(&inner(&driven[1])[0]), 1.0);
}

#[test]
fn values_are_applied_to_later_voices_only() {
    let mut values = ParamStore::new();
    values.insert("a".to_string(), b(9.0));
    let mut widgets = vec![
        number("a", 1.0),
        group("V1", vec![number("a", 2.0)]),
        group("V9", vec![number("a", 3.0), display("a", 4.0, NumDisplayStyle::Led)]),
    ];
    apply_voice_params(&mut widgets, &values);
    assert_eq!(zone(&widgets[0]), 1.0);
    assert_eq!(zone(&inner(&widgets[1])[0]), 2.0);
    assert_eq!(zone(&inner(&widgets[2])[0]), 9.0);
    assert_eq!(zone(&inner(&widgets[2])[1]), 4.0);
}

#[test]
fn highest_voice_decides() {
    let first = || group("V1", vec![number("x", 1.0), group("V2", vec![number("x", 2.0)])]);
    let nested = |outer: &str, label: &str| {
        group(outer, vec![group(label, vec![number("x", 0.0)])])
    };
    for (outer, label, expected) in [
        ("V3", "V2", 2.0),
        ("V10", "V2", 2.0),
        ("V2", "V3", 1.0),
        ("V9", "V10", 1.0),
        ("V19", "V20", 1.0),
        ("V2", "V2", 2.0),
        ("V3", "V3", 0.0),
    ] {
        let mut widgets = vec![first(), nested(outer, label)];
        sync_voice_parameters(&mut widgets);
        assert_eq!(zone(&inner(&inner(&widgets[1])[0])[0]), expected, "{} {}", outer, label);
    }
    let mut widgets =
        vec![first(), group("V4", vec![group("gate", vec![nested("V4", "V2")])])];
    sync_voice_parameters(&mut widgets);
    let deep = inner(&inner(&inner(&inner(&widgets[1])[0])[0])[0]);
    assert_eq!(zone(&deep[0]), 1.0);
}

#[test]
fn parameters_of_a_voice_are_collected() {
    let widgets = vec![group("P", vec![
        group("V1", vec![number("a", 1.0), number("gain", 2.0), group("g", vec![number("b", 3.0)])]),
        group("V2", vec![number("a", 9.0)]),
    ])];
    let mut values = ParamStore::new();
    collect_voice_params(&widgets, "V1", &mut values);
    assert_eq!(values.len(), 2);
    assert_eq!((values.get("a"), values.get("g/b")), (Some(b(1.0)), Some(b(3.0))));
    let mut all = ParamStore::new();
    collect_all_params(&widgets, "", &mut all);
    assert_eq!(all.get("P/V2/a"), Some(b(9.0)));
}

#[test]
fn plan_draws_what_is_shown() {
    let widgets = vec![
        group("DSP2", vec![number("hidden", 1.0)]),
        group("V1", vec![number("x", 1.0)]),
        tabs("Pages", 1, vec![number("first", 1.0), group("second", vec![number("y", 1.0)])]),
        group("", vec![switch("s", 0.0, BoolParamLayout::Held)]),
        group("Named", vec![]),
        styled("k", 1.0, NumParamLayout::NumEntry, NumParamStyle::Knob),
        styled("e", 1.0, NumParamLayout::NumEntry, NumParamStyle::Plain),
        styled("v", 1.0, NumParamLayout::VerticalSlider, NumParamStyle::Plain),
        display("led", 0.0, NumDisplayStyle::Led),
        display("num", 0.0, NumDisplayStyle::Numerical),
        display("bar", 0.0, NumDisplayStyle::Bargraph),
    ];
    let slider = NumControl::Slider { vertical: false, logarithmic: false };
    assert_eq!(
        plan_widgets(&widgets, false),
        vec![
            Step::Unwrap { index: 1 },
            Step::Number { index: 0, control: slider },
            Step::Close,
            Step::Tabs { index: 2 },
            Step::Group { index: 1, headed: false },
            Step::Number { index: 0, control: slider },
            Step::Close,
            Step::Close,
            Step::Group { index: 3, headed: false },
            Step::Switch { index: 0 },
            Step::Close,
            Step::Group { index: 4, headed: true },
            Step::Close,
            Step::Number { index: 5, control: NumControl::Knob },
            Step::Number { index: 6, control: NumControl::Entry },
            Step::Number {
                index: 7,
                control: NumControl::Slider { vertical: true, logarithmic: false },
            },
            Step::Display { index: 8, view: DisplayView::Led },
            Step::Display { index: 9, view: DisplayView::Numerical },
            Step::Display { index: 10, view: DisplayView::Bar { vertical: true } },
        ]
    );
}

#[test]
fn scales_and_choices_have_their_controls() {
    let choices = || Choices { options: vec![("a".to_string(), b(1.0))], selected: 0 };
    let mut log = number("l", 1.0);
    if let Widget::NumParam { metadata, .. } = &mut log {
        metadata.scale = WidgetScale::Exp;
    }
    let mut gone = number("h", 1.0);
    if let Widget::NumParam { metadata, .. } = &mut gone {
        metadata.hidden = true;
    }
    let widgets = vec![
        log,
        gone,
        styled("m", 1.0, NumParamLayout::NumEntry, NumParamStyle::Menu(choices())),
        styled("r", 1.0, NumParamLayout::VerticalSlider, NumParamStyle::Radio(choices())),
    ];
    assert_eq!(
        plan_widgets(&widgets, true),
        vec![
            Step::Number {
                index: 0,
                control: NumControl::Slider { vertical: false, logarithmic: true },
            },
            Step::Number { index: 2, control: NumControl::Menu },
            Step::Number { index: 3, control: NumControl::Radio { vertical: true } },
        ]
    );
}

#[test]
fn hidden_groups_have_no_tab_button() {
    let inner = vec![group("A", vec![]), group("V2", vec![]), number("x", 1.0)];
    assert_eq!(plan_tab_buttons(&inner), vec![0, 2]);
}

#[test]
fn actions_change_their_widgets() {
    let mut held = switch("h", 0.0, BoolParamLayout::Held);
    held.act(Action::Press);
    assert_eq!(zone(&held), 1.0);
    held.act(Action::Check(false));
    assert_eq!(zone(&held), 1.0);
    held.act(Action::Release);
    assert_eq!(zone(&held), 0.0);
    let mut check = switch("c", 0.0, BoolParamLayout::Checkbox);
    check.act(Action::Check(true));
    assert_eq!(zone(&check), 1.0);
    check.act(Action::Press);
    check.act(Action::Check(false));
    assert_eq!(zone(&check), 0.0);
    let mut x = styled("x", 1.0, NumParamLayout::NumEntry, NumParamStyle::Knob);
    x.act(Action::Turn(b(3.5)));
    assert_eq!(zone(&x), 3.5);
    x.act(Action::Turn(b(-1.0)));
    assert_eq!(zone(&x), 0.0);
    x.act(Action::Turn(b(11.0)));
    assert_eq!(zone(&x), 10.0);
    x.act(Action::Reset);
    assert_eq!(zone(&x), 5.0);
    let mut backwards = number("y", 1.0);
    if let Widget::NumParam { min, max, .. } = &mut backwards {
        (*min, *max) = (b(10.0), b(0.0));
    }
    backwards.act(Action::Turn(b(4.0)));
    assert_eq!(zone(&backwards), 4.0);
    backwards.act(Action::Reset);
    assert_eq!(zone(&backwards), 5.0);
    let choices = Choices { options: vec![("one".to_string(), b(1.0))], selected: 0 };
    let mut menu = styled("m", 1.0, NumParamLayout::NumEntry, NumParamStyle::Menu(choices));
    menu.act(Action::Turn(b(4.0)));
    assert_eq!(zone(&menu), 1.0);
    let mut pages = tabs("p", 0, vec![number("a", 1.0), number("b", 1.0)]);
    pages.act(Action::SelectTab(1));
    pages.act(Action::SelectTab(2));
    assert!(matches!(pages, Widget::Group { layout: BoxLayout::Tab { selected: 1 }, .. }));
    assert!(is_on(b(1.0)) && is_on(b(0.5)) && !is_on(b(0.0)) && !is_on(b(-0.0)));
}

#[test]
fn shift_slows_dragging_down() {
    assert_eq!(drag_sensitivity(true), b(0.1));
    assert_eq!(drag_sensitivity(false), b(1.0));
}

#[test]
fn chosen_option_sets_the_value() {
    let choices = Choices {
        options: vec![("off".to_string(), b(0.0)), ("on".to_string(), b(4.0))],
        selected: 0,
    };
    assert_eq!(align_choice(&choices, b(0.0), &vec![true, true]), 0);
    assert_eq!(align_choice(&choices, b(4.0), &vec![false, true]), 1);
    assert_eq!(align_choice(&choices, b(2.0), &vec![false, false]), 0);
    let mut menu = styled("m", 0.0, NumParamLayout::NumEntry, NumParamStyle::Menu(choices));
    menu.act(Action::Choose(1));
    assert_eq!(zone(&menu), 4.0);
    menu.act(Action::Choose(2));
    assert_eq!(zone(&menu), 4.0);
}

#[test]
fn tooltip_fades_after_the_last_move() {
    let mut fade = FadeState::default();
    assert_eq!(fade.fade(b(0.0), b(0.25), b(0.5)), None);
    fade.trigger();
    assert!(fade.last_trigger().is_some());
    assert_eq!(fade.fade(b(0.1), b(0.25), b(0.5)), Some(FadePhase::Held));
    assert_eq!(fade.fade(b(0.25), b(0.25), b(0.5)), Some(FadePhase::Fading));
    assert_eq!(fade.fade(b(0.5), b(0.25), b(0.5)), None);
    let mut tooltip = TooltipState::default();
    let now = std::time::Instant::now();
    tooltip.update(false, b(3.0), now);
    assert_eq!(tooltip.last_value, 0);
    tooltip.update(true, b(3.0), now);
    assert_eq!(tooltip.last_value, b(3.0));
    assert_eq!(tooltip.fade.last_trigger(), Some(now));
}

#[test]
fn trigger_takes_the_present_time() {
    let before = std::time::Instant::now();
    let mut fade = FadeState::new();
    fade.trigger();
    let after = std::time::Instant::now();
    let at = fade.last_trigger().unwrap();
    assert!(before <= at && at <= after);
}

#[test]
fn meter_holds_peaks_and_clips() {
    assert_eq!(WARN_THRESHOLD, b(0.8));
    assert_eq!(GREEN_END, b(0.7));
    assert_eq!(ORANGE_END, b(0.9));
    let mut meter = MeterState::default();
    let mut update = |v: f32| {
        let decayed = f32::from_bits(meter.get_display_value()) * 0.95;
        let color = meter.update(b(v), b(decayed));
        (color, meter.is_clipping(), f32::from_bits(meter.get_display_value()))
    };
    let green = Rgb { r: 0, g: 180, b: 0 };
    let orange = Rgb { r: 255, g: 165, b: 0 };
    let red = Rgb { r: 255, g: 0, b: 0 };
    assert_eq!(update(0.5), (green, false, 0.5));
    assert_eq!(update(0.9), (orange, false, 0.9));
    assert_eq!(update(1.0), (orange, false, 1.0));
    assert_eq!(update(1.2), (red, true, 1.2));
    let mut frames = 0;
    let mut last = red;
    while last == red {
        last = update(0.0).0;
        frames += 1;
        assert!(frames < 100);
    }
    assert!(frames >= 10);
    assert_eq!(MeterColorState::default(), MeterColorState::Normal);
}

#[test]
fn meter_color_follows_the_level() {
    let mut meter = MeterState::default();
    let mut seen = 0;
    for v in [0.0, 0.79, 0.8, f32::NAN, 1.0, 1.0, 0.1, 1.0001, 0.0, f32::INFINITY, -1.0] {
        for _ in 0..7 {
            let decayed = f32::from_bits(meter.get_display_value()) * 0.95;
            let color = meter.update(b(v), b(decayed));
            let level = f32::from_bits(meter.get_display_value());
            match (color.r, color.g) {
                (255, 0) => seen |= 4,
                (255, 165) => {
                    assert!((0.8..=1.0).contains(&level));
                    seen |= 2;
                }
                (0, 180) => {
                    assert!(level < 0.8);
                    seen |= 1;
                }
                _ => panic!("unknown color"),
            }
            if level > 1.0 {
                assert!(meter.is_clipping());
            }
            if meter.is_clipping() {
                assert_eq!((color.r, color.g, color.b), (255, 0, 0));
            }
        }
    }
    assert_eq!(seen, 7);
}

#[test]
fn bars_are_filled_without_a_gap() {
    let (green, orange, red) = meter_colors();
    assert!(bar_segments(b(0.0)).is_empty());
    let full = bar_segments(b(1.0));
    assert_eq!(full.len(), 3);
    assert_eq!((full[0].from, full[0].to, full[0].color), (b(0.0), b(0.7), green));
    assert_eq!((full[1].from, full[1].to, full[1].color), (b(0.7), b(0.9), orange));
    assert_eq!((full[2].from, full[2].to, full[2].color), (b(0.9), b(1.0), red));
    let low = bar_segments(b(0.3));
    assert_eq!(low.len(), 1);
    assert_eq!(low[0].to, b(0.3));
    assert_eq!(bar_level(b(0.5), b(1.5)), b(1.0));
    assert_eq!(bar_level(b(0.5), b(0.25)), b(0.25));
    assert_eq!(bar_level(b(0.0), b(0.25)), b(0.0));
    assert_eq!(bar_level(b(-1.0), b(0.25)), b(0.0));
}
