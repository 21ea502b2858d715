use nih_faust_jit::testbench::erb::{ErbState, ERB_SMOOTHING, QUIET_DB};
use nih_faust_jit::testbench::history::{copy_window, extend_newest};
use nih_faust_jit::testbench::levels::{
    find_peak, show_levels, Level, LOWEST_DB, NEG_INFINITY, SILENCE,
};
use nih_faust_jit::testbench::oscilloscope::{
    find_trigger_point, OscilloscopeState, DEFAULT_RATE,
};
use nih_faust_jit::testbench::spectrum::{SpectrumState, HIGHEST_FREQ, SPECTRUM_SMOOTHING};
use nih_faust_jit::testbench::TestbenchState;

fn bits(values: &[f32]) -> Vec<u32> {
    values.iter().map(|v| v.to_bits()).collect()
}

#[test]
fn constants_are_their_numbers() {
    assert_eq!(SILENCE, 1e-10f32.to_bits());
    assert_eq!(LOWEST_DB, (-96.0f32).to_bits());
    assert_eq!(NEG_INFINITY, f32::NEG_INFINITY.to_bits());
    assert_eq!(QUIET_DB, (-100.0f32).to_bits());
    assert_eq!(ERB_SMOOTHING, 0.7f32.to_bits());
    assert_eq!(SPECTRUM_SMOOTHING, 0.8f32.to_bits());
    assert_eq!(DEFAULT_RATE, 44100.0f32.to_bits());
    assert_eq!(HIGHEST_FREQ, 20000.0f32.to_bits());
}

#[test]
fn newest_samples_are_kept() {
    let mut kept = vec![1, 2, 3];
    extend_newest(&mut kept, &vec![4, 5], 4);
    assert_eq!(kept, vec![2, 3, 4, 5]);
    extend_newest(&mut kept, &vec![6], 10);
    assert_eq!(kept, vec![2, 3, 4, 5, 6]);
    extend_newest(&mut kept, &vec![], 0);
    assert!(kept.is_empty());
    assert_eq!(copy_window(&vec![1, 2, 3], 1, 5), vec![2, 3]);
    assert_eq!(copy_window(&vec![1, 2, 3], 0, 2), vec![1, 2]);
    assert!(copy_window(&vec![1, 2, 3], 3, 2).is_empty());
}

#[test]
fn history_of_a_stream_does_not_depend_on_the_pieces() {
    let (mut in_pieces, mut at_once) = (vec![], vec![]);
    for i in 0..20u32 {
        extend_newest(&mut in_pieces, &vec![2 * i, 2 * i + 1], 7);
    }
    extend_newest(&mut at_once, &(0..40).collect(), 7);
    assert_eq!(in_pieces, at_once);
}

#[test]
fn trigger_is_the_first_rising_edge() {
    let zero = 0.0f32.to_bits();
    assert_eq!(find_trigger_point(&bits(&[1.0, -1.0, 0.0, 0.5, -1.0, 1.0, 1.0]), zero), 3);
    assert_eq!(find_trigger_point(&bits(&[1.0, 0.5, 0.25, 0.1]), zero), 0);
    // The very last sample is no trigger.
    assert_eq!(find_trigger_point(&bits(&[1.0, -1.0, 1.0]), zero), 0);
    assert_eq!(find_trigger_point(&bits(&[-1.0, 1.0, 1.0]), zero), 1);
    assert_eq!(find_trigger_point(&vec![], zero), 0);
    assert_eq!(find_trigger_point(&bits(&[1.0]), zero), 0);
    let half = 0.5f32.to_bits();
    assert_eq!(find_trigger_point(&bits(&[0.0, 0.4, 0.6, 0.7]), half), 2);
    assert_eq!(find_trigger_point(&bits(&[f32::NAN, 1.0, 1.0, 1.0]), zero), 0);
}

#[test]
fn oscilloscope_shows_from_the_trigger_on() {
    let mut osc = OscilloscopeState::default();
    assert_eq!(osc.display_samples, 2048);
    osc.display_samples = 3;
    osc.update_from_samples(&bits(&[1.0, -1.0]), &bits(&[10.0, 20.0]));
    assert!(osc.left_buffer.is_empty());
    osc.update_from_samples(&bits(&[2.0, 3.0, 4.0]), &bits(&[30.0, 40.0, 50.0]));
    assert_eq!(osc.left_buffer, bits(&[2.0, 3.0, 4.0]));
    assert_eq!(osc.right_buffer, bits(&[30.0, 40.0, 50.0]));
    osc.trigger_enabled = false;
    osc.update_from_samples(&vec![], &vec![]);
    assert_eq!(osc.left_buffer, bits(&[1.0, -1.0, 2.0]));
}

#[test]
fn oscilloscope_keeps_four_displays() {
    let mut osc = OscilloscopeState::default();
    osc.display_samples = 2;
    osc.trigger_enabled = false;
    osc.update_from_samples(&(1..=9).collect(), &(1..=3).collect());
    assert_eq!(osc.accum_left, (2..=9).collect::<Vec<u32>>());
    assert_eq!(osc.accum_right, vec![1, 2, 3]);
    assert_eq!(osc.left_buffer, vec![2, 3]);
    assert_eq!(osc.right_buffer, vec![1, 2]);
}

#[test]
fn right_channel_may_be_shorter() {
    let mut osc = OscilloscopeState::default();
    osc.display_samples = 2;
    osc.update_from_samples(&bits(&[0.5, -1.0, -1.0, 1.0, 1.0]), &bits(&[7.0]));
    assert_eq!(osc.left_buffer, bits(&[1.0, 1.0]));
    assert!(osc.right_buffer.is_empty());
}

#[test]
fn display_length_stays_in_its_range() {
    let mut osc = OscilloscopeState::default();
    for (wanted, shown) in [(0, 64), (64, 64), (1000, 1000), (8192, 8192), (9000, 8192)] {
        osc.set_display_samples(wanted);
        assert_eq!(osc.display_samples, shown);
    }
}

#[test]
fn shown_levels_stay_in_the_range() {
    let level = |m: f32, d: f32| Level { magnitude: m.to_bits(), decibels: d.to_bits() };
    let levels = vec![
        level(0.5, -6.0),
        level(2.0, 6.0),
        level(1e-6, -120.0),
        level(0.0, f32::NEG_INFINITY),
        level(f32::NAN, f32::NAN),
    ];
    let shown = show_levels(&levels, (-96.0f32).to_bits(), 0.0f32.to_bits());
    assert_eq!(shown, bits(&[-6.0, 0.0, -96.0, -96.0, -96.0]));
}

#[test]
fn spectrum_collects_blocks() {
    let mut spectrum = SpectrumState::new(4);
    assert_eq!(spectrum.magnitude_db, vec![LOWEST_DB; 3]);
    assert!(spectrum.process(&vec![1, 2, 3]).is_none());
    assert_eq!(spectrum.process(&vec![4, 5]), Some(vec![2, 3, 4, 5]));
    assert_eq!(spectrum.process(&vec![6, 7, 8, 9, 10]), Some(vec![7, 8, 9, 10]));
    assert_eq!(spectrum.accum_buffer, (3..=10).collect::<Vec<u32>>());
    assert_eq!(SpectrumState::default().fft_size, 4096);
}

#[test]
fn peaks_are_held_until_reset() {
    let mut spectrum = SpectrumState::new(2);
    let first = bits(&[-10.0, -20.0]);
    spectrum.record(first.clone(), first.clone());
    assert_eq!(spectrum.peak_db, vec![LOWEST_DB; 2]);
    spectrum.peak_hold = true;
    spectrum.record(first.clone(), first.clone());
    spectrum.record(bits(&[-30.0, -5.0]), first.clone());
    assert_eq!(spectrum.peak_db, bits(&[-10.0, -5.0]));
    assert_eq!(spectrum.magnitude_db, bits(&[-30.0, -5.0]));
    assert_eq!(spectrum.smoothed_db, first);
    spectrum.reset_peaks();
    assert_eq!(spectrum.peak_db, bits(&[-96.0, -96.0]));
}

#[test]
fn waterfall_drops_the_oldest_rows() {
    let mut spectrum = SpectrumState::new(2);
    spectrum.waterfall_history = 2;
    spectrum.record(bits(&[-1.0, -1.0]), bits(&[-1.0, -1.0]));
    assert!(spectrum.waterfall.is_empty());
    spectrum.show_waterfall = true;
    for i in 1..=3 {
        let row = bits(&[-(i as f32), 0.0]);
        spectrum.record(row.clone(), row);
    }
    assert_eq!(spectrum.waterfall, vec![bits(&[-2.0, 0.0]), bits(&[-3.0, 0.0])]);
}

#[test]
fn spectrum_shows_levels_in_its_own_range() {
    let spectrum = SpectrumState::new(2);
    let level = Level { magnitude: 1.0f32.to_bits(), decibels: 3.0f32.to_bits() };
    assert_eq!(spectrum.shown(&vec![level]), bits(&[0.0]));
}

#[test]
fn bands_follow_the_filterbank() {
    let mut erb = ErbState::new(3, 44100.0f32.to_bits());
    assert_eq!(erb.envelope_db, vec![QUIET_DB; 3]);
    erb.show_waterfall = true;
    erb.process(&bits(&[-1.0, -2.0]), &bits(&[-3.0, -4.0]));
    assert_eq!(erb.envelope_db, bits(&[-1.0, -2.0, -100.0]));
    assert_eq!(erb.smoothed_db, bits(&[-3.0, -4.0, -100.0]));
    assert_eq!(erb.waterfall, vec![bits(&[-3.0, -4.0, -100.0])]);
    let level = Level { magnitude: 0.0f32.to_bits(), decibels: 0 };
    assert_eq!(erb.shown(&vec![level]), bits(&[-96.0]));
    erb.reset();
    assert_eq!(erb.envelope_db, bits(&[-96.0, -96.0, -96.0]));
    assert_eq!(erb.smoothed_db, bits(&[-96.0, -96.0, -96.0]));
    assert!(erb.waterfall.is_empty());
    assert_eq!(ErbState::default().num_bands, 48);
}

#[test]
fn small_changes_of_the_rate_are_ignored() {
    let mut erb = ErbState::new(2, 44100.0f32.to_bits());
    assert!(!erb.set_sample_rate(44101.0f32.to_bits(), 1.0f32.to_bits()));
    assert_eq!(erb.sample_rate, 44100.0f32.to_bits());
    assert!(erb.set_sample_rate(48000.0f32.to_bits(), 3900.0f32.to_bits()));
    assert_eq!(erb.sample_rate, 48000.0f32.to_bits());
}

#[test]
fn peak_is_the_highest_level_in_the_range() {
    let db = bits(&[-1.0, -30.0, -10.0, -20.0, -2.0]);
    let freqs = bits(&[10.0, 20.0, 100.0, 5000.0, 6000.0]);
    let peak = find_peak(&db, &freqs, 20.0f32.to_bits(), 5000.0f32.to_bits());
    assert_eq!(f32::from_bits(peak), -10.0);
    let none = find_peak(&db, &freqs, 7000.0f32.to_bits(), 8000.0f32.to_bits());
    assert_eq!(f32::from_bits(none), 0.0);
    let quiet = find_peak(&bits(&[f32::NEG_INFINITY]), &bits(&[50.0]), 0, HIGHEST_FREQ);
    assert_eq!(f32::from_bits(quiet), 0.0);
    let broken = find_peak(&bits(&[f32::NAN, -3.0]), &bits(&[50.0, 60.0]), 0, HIGHEST_FREQ);
    assert_eq!(f32::from_bits(broken), -3.0);
}

#[test]
fn testbench_starts_on_the_oscilloscope() {
    let state = TestbenchState::default();
    assert!(state.visible && !state.show_comparison && !state.normalize_to_max);
    assert_eq!((state.selected_tab, state.show_spectrogram), (0, false));
}
