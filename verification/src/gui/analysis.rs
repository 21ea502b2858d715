//! The views of the testbench.
use vstd::prelude::*;

use crate::bits::{is_le, is_lt, le, lt, Bits, ONE};
use crate::testbench::TestbenchState;
use crate::text::{decimal, to_decimal};

verus! {

/// The bit pattern of `20.0`, the lowest frequency that is shown.
pub const LOWEST_FREQ: u32 = 0x41a0_0000;

/// A tab of the testbench.
#[derive(Clone, Copy, Debug, PartialEq, Eq, Structural)]
pub enum Tab {
    Oscilloscope,
    Spectrum,
    ErbBands,
    Benchmark,
}

/// The tab of a number; there are four.
pub open spec fn tab_of(selected: usize) -> Option<Tab> {
    if selected == 0 {
        Some(Tab::Oscilloscope)
    } else if selected == 1 {
        Some(Tab::Spectrum)
    } else if selected == 2 {
        Some(Tab::ErbBands)
    } else if selected == 3 {
        Some(Tab::Benchmark)
    } else {
        None
    }
}

/// The tab of a number.
pub fn tab(selected: usize) -> (r: Option<Tab>)
    ensures
        r == tab_of(selected),
{
    match selected {
        0 => Some(Tab::Oscilloscope),
        1 => Some(Tab::Spectrum),
        2 => Some(Tab::ErbBands),
        3 => Some(Tab::Benchmark),
        _ => None,
    }
}

/// How a spectrum is shown.
#[derive(Clone, Copy, Debug, PartialEq, Eq, Structural)]
pub struct SpectrumView {
    /// As a spectrogram, rather than by its present levels.
    pub spectrogram: bool,
    /// Together with the input.
    pub comparing: bool,
    /// Relative to its peak.
    pub normalizing: bool,
    /// Whether normalizing can be switched.
    pub offers_normalizing: bool,
}

/// How a spectrum is shown: only an effect has an input to be compared with, and only
/// present levels are normalized, and only where they are compared.
pub open spec fn view_of(
    show_spectrogram: bool,
    show_comparison: bool,
    normalize_to_max: bool,
    is_effect: bool,
) -> SpectrumView {
    SpectrumView {
        spectrogram: show_spectrogram,
        comparing: show_comparison && is_effect,
        normalizing: !show_spectrogram && normalize_to_max && show_comparison && is_effect,
        offers_normalizing: is_effect && show_comparison && !show_spectrogram,
    }
}

/// How the spectra are shown. The histories are kept up only for a spectrogram that
/// is shown: of the spectrum, where its tab is drawn.
pub fn spectrum_view(state: &mut TestbenchState, is_effect: bool) -> (r: SpectrumView)
    ensures
        r == view_of(
            old(state).show_spectrogram,
            old(state).show_comparison,
            old(state).normalize_to_max,
            is_effect,
        ),
        final(state).spectrum.show_waterfall == old(state).show_spectrogram,
        *final(state) == (TestbenchState {
            spectrum: crate::testbench::spectrum::SpectrumState {
                show_waterfall: old(state).show_spectrogram,
                ..old(state).spectrum
            },
            ..*old(state)
        }),
{
    state.spectrum.show_waterfall = state.show_spectrogram;
    view(state, is_effect)
}

/// How the bands are shown. Their history is kept up only for a spectrogram that is
/// shown.
pub fn erb_view(state: &mut TestbenchState, is_effect: bool) -> (r: SpectrumView)
    ensures
        r == view_of(
            old(state).show_spectrogram,
            old(state).show_comparison,
            old(state).normalize_to_max,
            is_effect,
        ),
        *final(state) == (TestbenchState {
            erb: crate::testbench::erb::ErbState {
                show_waterfall: old(state).show_spectrogram,
                ..old(state).erb
            },
            ..*old(state)
        }),
{
    state.erb.show_waterfall = state.show_spectrogram;
    view(state, is_effect)
}

/// How a spectrum is shown.
fn view(state: &TestbenchState, is_effect: bool) -> (r: SpectrumView)
    ensures
        r == view_of(
            state.show_spectrogram,
            state.show_comparison,
            state.normalize_to_max,
            is_effect,
        ),
{
    let comparing: bool = state.show_comparison && is_effect;
    SpectrumView {
        spectrogram: state.show_spectrogram,
        comparing,
        normalizing: !state.show_spectrogram && state.normalize_to_max && comparing,
        offers_normalizing: comparing && !state.show_spectrogram,
    }
}

/// Whether a frequency is on the axis of the line spectrum: from 20 Hz to half the
/// sample rate.
pub fn is_on_axis(freq: Bits, nyquist: Bits) -> (r: bool)
    ensures
        r == (le(LOWEST_FREQ, freq) && le(freq, nyquist)),
        r == (le(0x41a0_0000, freq) && le(freq, nyquist)),
{
    is_le(LOWEST_FREQ, freq) && is_le(freq, nyquist)
}

/// Whether the output of a band is so much louder than the input that what was added
/// is marked: by more than one decibel.
pub fn marks_added(difference: Bits) -> (r: bool)
    ensures
        r == lt(ONE, difference),
        r == lt(0x3f80_0000, difference),
{
    is_lt(ONE, difference)
}

/// The first band from `from` on whose frequency lies in a range; the number of bands
/// where there is none.
pub open spec fn first_band(freqs: Seq<Bits>, low: Bits, high: Bits, from: nat) -> nat
    decreases freqs.len() - from,
{
    if from >= freqs.len() {
        freqs.len()
    } else if le(low, freqs[from as int]) && le(freqs[from as int], high) {
        from
    } else {
        first_band(freqs, low, high, from + 1)
    }
}

/// The band that a frequency label stands below: the first one whose frequency lies in
/// the range around it.
pub fn label_band(freqs: &Vec<Bits>, low: Bits, high: Bits) -> (r: Option<usize>)
    ensures
        match r {
            Some(band) => band == first_band(freqs@, low, high, 0) && band < freqs@.len(),
            None => first_band(freqs@, low, high, 0) == freqs@.len(),
        },
{
    let mut i: usize = 0;
    while i < freqs.len()
        invariant
            i <= freqs@.len(),
            first_band(freqs@, low, high, 0) == first_band(freqs@, low, high, i as nat),
        decreases freqs@.len() - i,
    {
        if is_le(low, freqs[i]) && is_le(freqs[i], high) {
            return Some(i);
        }
        i = i + 1;
    }
    None
}

/// The frequencies that are labelled, in hertz.
pub fn labelled_freqs() -> (r: Vec<u32>)
    ensures
        r@ == seq![100u32, 200u32, 500u32, 1000u32, 2000u32, 5000u32, 10000u32, 20000u32],
{
    let r: Vec<u32> = vec![100, 200, 500, 1000, 2000, 5000, 10000, 20000];
    assert(r@ =~= seq![100u32, 200u32, 500u32, 1000u32, 2000u32, 5000u32, 10000u32, 20000u32]);
    r
}

/// How a frequency is labelled: from a thousand hertz on by its thousands.
pub open spec fn freq_text(hz: u32) -> Seq<char> {
    if hz >= 1000 {
        decimal((hz / 1000) as nat).push('k')
    } else {
        decimal(hz as nat)
    }
}

/// How a frequency is labelled.
pub fn freq_label(hz: u32) -> (r: String)
    ensures
        r@ == freq_text(hz),
{
    if hz >= 1000 {
        let mut r: String = to_decimal((hz / 1000) as u64);
        r.push('k');
        r
    } else {
        to_decimal(hz as u64)
    }
}

/// The band below the pointer. `at` is where the pointer is, in widths of a band; the
/// last band ends the display.
pub fn hovered_band(at: usize, num_bands: usize) -> (r: usize)
    requires
        num_bands > 0,
    ensures
        r == (if at < num_bands {
            at as int
        } else {
            num_bands - 1
        }),
{
    if at < num_bands {
        at
    } else {
        num_bands - 1
    }
}

/// Without an effect nothing is compared, and what is not compared is not normalized.
pub proof fn law_only_effects_are_compared(
    show_spectrogram: bool,
    show_comparison: bool,
    normalize_to_max: bool,
    is_effect: bool,
)
    ensures
        ({
            let view = view_of(show_spectrogram, show_comparison, normalize_to_max, is_effect);
            &&& !is_effect ==> !view.comparing
            &&& view.normalizing ==> view.comparing && !view.spectrogram && view.offers_normalizing
        }),
{
}

/// A spectrum is shown as a spectrogram where that is asked for; compared where that is
/// asked for and the script is an effect; and where it is compared and no spectrogram,
/// normalizing is offered and done where it is asked for. There are four tabs.
pub proof fn law_views_show_what_was_asked_for(
    show_spectrogram: bool,
    show_comparison: bool,
    normalize_to_max: bool,
    is_effect: bool,
)
    ensures
        ({
            let view = view_of(show_spectrogram, show_comparison, normalize_to_max, is_effect);
            &&& view.spectrogram == show_spectrogram
            &&& view.comparing == (show_comparison && is_effect)
            &&& view.offers_normalizing == (view.comparing && !view.spectrogram)
            &&& view.normalizing == (view.offers_normalizing && normalize_to_max)
        }),
        tab_of(0) == Some(Tab::Oscilloscope),
        tab_of(1) == Some(Tab::Spectrum),
        tab_of(2) == Some(Tab::ErbBands),
        tab_of(3) == Some(Tab::Benchmark),
        forall|n: usize| n > 3 ==> #[trigger] tab_of(n) is None,
{
}

/// The band of a label is the first whose frequency lies in the range: it does, none
/// before it does, and there is none exactly if no frequency does.
pub proof fn law_label_stands_below_the_first_band(
    freqs: Seq<Bits>,
    low: Bits,
    high: Bits,
    from: nat,
    k: int,
)
    requires
        from <= freqs.len(),
    ensures
        ({
            let band = first_band(freqs, low, high, from);
            &&& from <= band <= freqs.len()
            &&& band < freqs.len() ==> le(low, freqs[band as int]) && le(freqs[band as int], high)
            &&& from <= k < band ==> !(le(low, freqs[k]) && le(freqs[k], high))
        }),
    decreases freqs.len() - from,
{
    if from < freqs.len() && !(le(low, freqs[from as int]) && le(freqs[from as int], high)) {
        law_label_stands_below_the_first_band(freqs, low, high, from + 1, k);
    }
}

/// A frequency below a thousand hertz is labelled by its number, a higher one by its whole
/// thousands and a `k`.
pub proof fn law_frequencies_are_labelled(hz: u32)
    ensures
        hz < 1000 ==> crate::text::read_back(freq_text(hz)) == hz,
        hz >= 1000 ==> freq_text(hz).last() == 'k' && crate::text::read_back(
            freq_text(hz).drop_last(),
        ) == hz / 1000,
{
    crate::text::law_decimal_is_read_back(hz as nat);
    crate::text::law_decimal_is_read_back((hz / 1000) as nat);
    if hz >= 1000 {
        assert(freq_text(hz).drop_last() =~= decimal((hz / 1000) as nat));
    }
}

} // verus!
