//! Audio visualization and benchmarking.
//!
//! - Oscilloscope (time-domain waveform display)
//! - Spectrum analyzer (frequency display)
//! - Pre/post DSP comparison for effects
//! - Performance metrics
//!
//! The audio thread owns the producers and writes samples; the GUI thread owns the
//! consumers and reads them.
pub mod benchmarking;
pub mod erb;
pub mod history;
pub mod levels;
pub mod oscilloscope;
pub mod ring_buffer;
pub mod spectrum;

use vstd::prelude::*;

use crate::bits::Bits;
use crate::testbench::benchmarking::BenchmarkMetrics;
use crate::testbench::erb::{fresh_bands, ErbState};
use crate::testbench::oscilloscope::{advanced, fresh_scope, OscilloscopeState, DEFAULT_RATE};
use crate::testbench::ring_buffer::{
    caught_up, connected, create_stereo_ring_buffer, producer_capacity, read, sent, wrote,
    AudioConsumer, AudioProducer,
};
use crate::testbench::spectrum::{collected, fresh_spectrum, SpectrumState};

verus! {

/// How many samples the rings of the testbench hold.
pub const RING_CAPACITY: usize = 8192;

/// Audio thread side of the testbench.
pub struct TestbenchAudio {
    /// Ring buffer producer for post-DSP visualization.
    pub producer: AudioProducer,
    /// Ring buffer producer for pre-DSP visualization (effects only).
    pub pre_producer: AudioProducer,
    /// Whether visualization is enabled.
    pub enabled: bool,
}

/// Pushing a buffer turned `before` into `after`: a mono buffer goes to both sides,
/// of a buffer without channels nothing is pushed.
pub open spec fn pushed(before: AudioProducer, after: AudioProducer, buffer: Seq<Vec<Bits>>) -> bool {
    &&& buffer.len() == 0 ==> after == before
    &&& buffer.len() > 0 ==> wrote(before.left, after.left, buffer[0]@)
    &&& buffer.len() == 1 ==> wrote(before.right, after.right, buffer[0]@)
    &&& buffer.len() > 1 ==> wrote(before.right, after.right, buffer[1]@)
}

impl TestbenchAudio {
    /// Pushes post-DSP samples to the visualization, where it is enabled.
    pub fn push_from_buffer(&mut self, buffer: &Vec<Vec<Bits>>)
        ensures
            !old(self).enabled ==> *final(self) == *old(self),
            old(self).enabled ==> pushed(old(self).producer, final(self).producer, buffer@),
            final(self).pre_producer == old(self).pre_producer,
            final(self).enabled == old(self).enabled,
    {
        if self.enabled {
            self.producer.push_from_buffer(buffer);
        }
    }

    /// Pushes pre-DSP samples to the visualization, where it is enabled.
    pub fn push_pre_dsp(&mut self, buffer: &Vec<Vec<Bits>>)
        ensures
            !old(self).enabled ==> *final(self) == *old(self),
            old(self).enabled ==> pushed(old(self).pre_producer, final(self).pre_producer, buffer@),
            final(self).producer == old(self).producer,
            final(self).enabled == old(self).enabled,
    {
        if self.enabled {
            self.pre_producer.push_from_buffer(buffer);
        }
    }
}

/// Combined testbench visualization state.
#[derive(Debug)]
pub struct TestbenchState {
    pub oscilloscope: OscilloscopeState,
    /// Post-DSP spectrum (output).
    pub spectrum: SpectrumState,
    /// Pre-DSP spectrum (input, for comparison).
    pub pre_spectrum: SpectrumState,
    /// Post-DSP ERB bands (output).
    pub erb: ErbState,
    /// Pre-DSP ERB bands (input, for comparison).
    pub pre_erb: ErbState,
    /// What was read last from the ring buffer.
    pub temp_left: Vec<Bits>,
    pub temp_right: Vec<Bits>,
    /// Whether the testbench is expanded.
    pub visible: bool,
    /// Currently selected tab (0=oscilloscope, 1=spectrum, 2=erb, 3=benchmark).
    pub selected_tab: usize,
    /// Show pre/post comparison overlay (for effects).
    pub show_comparison: bool,
    /// Normalize spectra to their maximum (for harmonic comparison).
    pub normalize_to_max: bool,
    /// Show the spectrogram instead of the line or bar view.
    pub show_spectrogram: bool,
}

impl TestbenchState {
    /// The analysers fit their numbers of bins and bands, and none keeps more
    /// history than a machine can count.
    pub open spec fn well_formed(self) -> bool {
        &&& self.spectrum.well_formed()
        &&& self.pre_spectrum.well_formed()
        &&& self.erb.well_formed()
        &&& self.pre_erb.well_formed()
        &&& self.oscilloscope.display_samples * 4 <= usize::MAX
        &&& self.spectrum.fft_size * 2 <= usize::MAX
        &&& self.pre_spectrum.fft_size * 2 <= usize::MAX
    }
}

/// The visualization before any sample came in.
pub open spec fn fresh(s: TestbenchState) -> bool {
    &&& s.well_formed()
    &&& fresh_scope(s.oscilloscope)
    &&& fresh_spectrum(s.spectrum, 4096)
    &&& fresh_spectrum(s.pre_spectrum, 4096)
    &&& fresh_bands(s.erb, 48, DEFAULT_RATE)
    &&& fresh_bands(s.pre_erb, 48, DEFAULT_RATE)
    &&& s.temp_left@.len() == 0
    &&& s.temp_right@.len() == 0
    &&& s.visible
    &&& s.selected_tab == 0
    &&& !s.show_comparison
    &&& !s.normalize_to_max
    &&& !s.show_spectrogram
}

impl Default for TestbenchState {
    fn default() -> (r: Self)
        ensures
            fresh(r),
    {
        TestbenchState {
            oscilloscope: OscilloscopeState::default(),
            spectrum: SpectrumState::default(),
            pre_spectrum: SpectrumState::default(),
            erb: ErbState::default(),
            pre_erb: ErbState::default(),
            temp_left: Vec::new(),
            temp_right: Vec::new(),
            visible: true,
            selected_tab: 0,
            show_comparison: false,
            normalize_to_max: false,
            show_spectrogram: false,
        }
    }
}

/// What the caller's analysers have to do after new samples came in: blocks to be
/// transformed, and whether the filterbanks are to hear the samples that were read.
pub struct Analysis {
    pub spectrum: Option<Vec<Bits>>,
    pub erb: bool,
    pub pre_spectrum: Option<Vec<Bits>>,
    pub pre_erb: bool,
}

/// GUI thread side of the testbench.
pub struct TestbenchGui {
    /// Ring buffer consumer for post-DSP samples.
    pub consumer: AudioConsumer,
    /// Ring buffer consumer for pre-DSP samples.
    pub pre_consumer: AudioConsumer,
    /// Visualization state.
    pub state: TestbenchState,
    /// What was read last from the pre-DSP ring buffer.
    pub temp_pre_left: Vec<Bits>,
    pub temp_pre_right: Vec<Bits>,
}

impl TestbenchGui {
    /// The consumers read in order, and the visualization state is well-formed.
    pub open spec fn well_formed(self) -> bool {
        self.consumer.in_order() && self.pre_consumer.in_order() && self.state.well_formed()
    }

    /// Updates the visualization from what the ring buffers hold. The input's
    /// spectrogram follows the output's. Where output samples came in, the
    /// oscilloscope advances, the spectrum collects them and the filterbank is to
    /// hear them; where input samples came in, the same holds of the input's
    /// spectrum and filterbank.
    pub fn update(&mut self) -> (r: Analysis)
        requires
            old(self).well_formed(),
        ensures
            final(self).well_formed(),
            read(old(self).consumer.left, final(self).consumer.left, final(self).state.temp_left@),
            read(
                old(self).consumer.right,
                final(self).consumer.right,
                final(self).state.temp_right@,
            ),
            read(
                old(self).pre_consumer.left,
                final(self).pre_consumer.left,
                final(self).temp_pre_left@,
            ),
            read(
                old(self).pre_consumer.right,
                final(self).pre_consumer.right,
                final(self).temp_pre_right@,
            ),
            r.erb == (final(self).state.temp_left@.len() > 0),
            r.erb ==> advanced(
                old(self).state.oscilloscope,
                final(self).state.oscilloscope,
                final(self).state.temp_left@,
                final(self).state.temp_right@,
            ),
            !r.erb ==> final(self).state.oscilloscope == old(self).state.oscilloscope,
            r.erb ==> collected(
                old(self).state.spectrum,
                final(self).state.spectrum,
                final(self).state.temp_left@,
                r.spectrum,
            ),
            !r.erb ==> r.spectrum is None && final(self).state.spectrum == old(
                self,
            ).state.spectrum,
            r.pre_erb == (final(self).temp_pre_left@.len() > 0),
            ({
                let synced = SpectrumState {
                    show_waterfall: old(self).state.spectrum.show_waterfall,
                    ..old(self).state.pre_spectrum
                };
                if r.pre_erb {
                    collected(
                        synced,
                        final(self).state.pre_spectrum,
                        final(self).temp_pre_left@,
                        r.pre_spectrum,
                    )
                } else {
                    r.pre_spectrum is None && final(self).state.pre_spectrum == synced
                }
            }),
            final(self).state.erb == old(self).state.erb,
            final(self).state.pre_erb == (ErbState {
                show_waterfall: old(self).state.erb.show_waterfall,
                ..old(self).state.pre_erb
            }),
            final(self).state.visible == old(self).state.visible,
            final(self).state.selected_tab == old(self).state.selected_tab,
            final(self).state.show_comparison == old(self).state.show_comparison,
            final(self).state.normalize_to_max == old(self).state.normalize_to_max,
            final(self).state.show_spectrogram == old(self).state.show_spectrogram,
    {
        self.state.pre_spectrum.show_waterfall = self.state.spectrum.show_waterfall;
        self.state.pre_erb.show_waterfall = self.state.erb.show_waterfall;
        self.consumer.read_available(&mut self.state.temp_left, &mut self.state.temp_right);
        self.pre_consumer.read_available(&mut self.temp_pre_left, &mut self.temp_pre_right);
        let mut spectrum: Option<Vec<Bits>> = None;
        let mut pre_spectrum: Option<Vec<Bits>> = None;
        let heard: bool = self.state.temp_left.len() > 0;
        let pre_heard: bool = self.temp_pre_left.len() > 0;
        if heard {
            self.state.oscilloscope.update_from_samples(
                &self.state.temp_left,
                &self.state.temp_right,
            );
            spectrum = self.state.spectrum.process(&self.state.temp_left);
        }
        if pre_heard {
            pre_spectrum = self.state.pre_spectrum.process(&self.temp_pre_left);
        }
        Analysis { spectrum, erb: heard, pre_spectrum, pre_erb: pre_heard }
    }
}

/// Creates the testbench components: for the audio thread, for the GUI thread, and
/// the metrics for both. Output and input each have their own pair of rings.
pub fn create_testbench() -> (r: (TestbenchAudio, TestbenchGui, BenchmarkMetrics))
    ensures
        r.0.enabled,
        r.0.producer.in_order(),
        r.0.pre_producer.in_order(),
        r.1.well_formed(),
        connected(r.0.producer, r.1.consumer),
        connected(r.0.pre_producer, r.1.pre_consumer),
        producer_capacity(r.0.producer.left) == RING_CAPACITY,
        producer_capacity(r.0.producer.right) == RING_CAPACITY,
        producer_capacity(r.0.pre_producer.left) == RING_CAPACITY,
        producer_capacity(r.0.pre_producer.right) == RING_CAPACITY,
        producer_capacity(r.0.producer.left) == 8192,
        sent(r.0.producer.left).len() == 0,
        sent(r.0.producer.right).len() == 0,
        sent(r.0.pre_producer.left).len() == 0,
        sent(r.0.pre_producer.right).len() == 0,
        caught_up(r.0.producer.left, r.1.consumer.left),
        caught_up(r.0.producer.right, r.1.consumer.right),
        caught_up(r.0.pre_producer.left, r.1.pre_consumer.left),
        caught_up(r.0.pre_producer.right, r.1.pre_consumer.right),
        fresh(r.1.state),
        r.1.temp_pre_left@.len() == 0,
        r.1.temp_pre_right@.len() == 0,
        r.2 == (BenchmarkMetrics {
            last_process_ns: 0,
            max_process_ns: 0,
            process_sum_ns: 0,
            process_count: 0,
            buffer_size: 512,
            sample_rate: 44100,
            xrun_count: 0,
        }),
{
    let (producer, consumer) = create_stereo_ring_buffer(RING_CAPACITY);
    let (pre_producer, pre_consumer) = create_stereo_ring_buffer(RING_CAPACITY);
    let metrics = BenchmarkMetrics::new();
    let audio = TestbenchAudio { producer, pre_producer, enabled: true };
    let gui = TestbenchGui {
        consumer,
        pre_consumer,
        state: TestbenchState::default(),
        temp_pre_left: Vec::new(),
        temp_pre_right: Vec::new(),
    };
    (audio, gui, metrics)
}

/// Pushing a buffer writes its first channel to the left and its second to the right, the
/// first also to the right where it is the only one, and nothing where there is none.
pub proof fn law_channels_go_to_their_sides(
    before: AudioProducer,
    after: AudioProducer,
    buffer: Seq<Vec<Bits>>,
)
    requires
        pushed(before, after, buffer),
    ensures
        buffer.len() == 0 ==> after == before,
        buffer.len() > 0 ==> wrote(before.left, after.left, buffer[0]@),
        buffer.len() == 1 ==> wrote(before.right, after.right, buffer[0]@),
        buffer.len() > 1 ==> wrote(before.right, after.right, buffer[1]@),
{
}

/// A new testbench is visible, on its first tab, with nothing heard: blocks of 4096
/// samples, 48 bands at 44100 Hz, and neither comparison nor normalizing nor spectrogram.
pub proof fn law_new_testbench_is_empty(s: TestbenchState)
    requires
        fresh(s),
    ensures
        s.well_formed(),
        fresh_scope(s.oscilloscope),
        fresh_spectrum(s.spectrum, 4096),
        fresh_spectrum(s.pre_spectrum, 4096),
        fresh_bands(s.erb, 48, 0x472c_4400),
        fresh_bands(s.pre_erb, 48, 0x472c_4400),
        s.temp_left@.len() == 0,
        s.temp_right@.len() == 0,
        s.visible,
        s.selected_tab == 0,
        !s.show_comparison,
        !s.normalize_to_max,
        !s.show_spectrogram,
{
}

/// The visualization is well-formed where every bin and every band has its levels and four
/// times the display and two blocks can be counted.
pub proof fn law_visualization_fits_its_sizes(s: TestbenchState)
    ensures
        s.well_formed() <==> {
            &&& s.spectrum.magnitude_db@.len() == s.spectrum.fft_size / 2 + 1
            &&& s.spectrum.smoothed_db@.len() == s.spectrum.fft_size / 2 + 1
            &&& s.spectrum.peak_db@.len() == s.spectrum.fft_size / 2 + 1
            &&& s.pre_spectrum.magnitude_db@.len() == s.pre_spectrum.fft_size / 2 + 1
            &&& s.pre_spectrum.smoothed_db@.len() == s.pre_spectrum.fft_size / 2 + 1
            &&& s.pre_spectrum.peak_db@.len() == s.pre_spectrum.fft_size / 2 + 1
            &&& s.erb.envelope_db@.len() == s.erb.num_bands
            &&& s.erb.smoothed_db@.len() == s.erb.num_bands
            &&& s.pre_erb.envelope_db@.len() == s.pre_erb.num_bands
            &&& s.pre_erb.smoothed_db@.len() == s.pre_erb.num_bands
            &&& s.oscilloscope.display_samples * 4 <= usize::MAX
            &&& s.spectrum.fft_size * 2 <= usize::MAX
            &&& s.pre_spectrum.fft_size * 2 <= usize::MAX
        },
{
}

} // verus!
