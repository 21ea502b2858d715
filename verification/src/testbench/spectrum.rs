//! The frequency-domain view: the newest block of the signal goes to the caller,
//! who transforms it; what is kept of the result is decided here.
use vstd::prelude::*;

use crate::bits::{is_lt, le, lt, Bits};
use crate::testbench::history::{
    copy_window, extend_newest, filled, newest, push_newest, };
use crate::testbench::levels::{show_levels, shown_levels, Level, LOWEST_DB};
use crate::testbench::oscilloscope::DEFAULT_RATE;

verus! {

/// The bit pattern of `0.8`, the smoothing at first.
pub const SPECTRUM_SMOOTHING: u32 = 0x3f4c_cccd;

/// The bit pattern of `20000.0`, the highest frequency that is shown at first.
pub const HIGHEST_FREQ: u32 = 0x469c_4000;

/// Spectrum analyzer state for frequency-domain visualization.
#[derive(Debug)]
pub struct SpectrumState {
    /// FFT size.
    pub fft_size: usize,
    /// Accumulation buffer for samples.
    pub accum_buffer: Vec<Bits>,
    /// Magnitude in dB for display.
    pub magnitude_db: Vec<Bits>,
    /// Smoothed magnitude for display.
    pub smoothed_db: Vec<Bits>,
    /// Smoothing factor (0.0 = no smoothing, 1.0 = full smoothing).
    pub smoothing: Bits,
    /// Minimum dB for display.
    pub min_db: Bits,
    /// Maximum dB for display.
    pub max_db: Bits,
    /// Sample rate for the frequency axis.
    pub sample_rate: Bits,
    /// Peak hold values.
    pub peak_db: Vec<Bits>,
    /// Whether peak hold is enabled.
    pub peak_hold: bool,
    /// Waterfall history (each row is one frame, oldest first).
    pub waterfall: Vec<Vec<Bits>>,
    /// Maximum waterfall history length.
    pub waterfall_history: usize,
    /// Show the waterfall instead of the line spectrum.
    pub show_waterfall: bool,
    /// Maximum frequency to display in the spectrogram (Hz).
    pub max_display_freq: Bits,
}

impl SpectrumState {
    /// How many bins the transform of a block has.
    pub open spec fn bins(self) -> nat {
        (self.fft_size / 2 + 1) as nat
    }

    /// Every bin has a magnitude, a smoothed one and a peak.
    pub open spec fn well_formed(self) -> bool {
        &&& self.magnitude_db@.len() == self.bins()
        &&& self.smoothed_db@.len() == self.bins()
        &&& self.peak_db@.len() == self.bins()
    }

    /// Whether two states have the same settings.
    pub open spec fn same_settings(self, other: Self) -> bool {
        &&& self.fft_size == other.fft_size
        &&& self.smoothing == other.smoothing
        &&& self.min_db == other.min_db
        &&& self.max_db == other.max_db
        &&& self.sample_rate == other.sample_rate
        &&& self.peak_hold == other.peak_hold
        &&& self.waterfall_history == other.waterfall_history
        &&& self.show_waterfall == other.show_waterfall
        &&& self.max_display_freq == other.max_display_freq
    }

    /// A new spectrum analyzer with the given FFT size.
    pub fn new(fft_size: usize) -> (r: Self)
        ensures
            fresh_spectrum(r, fft_size),
    {
        let bins: usize = fft_size / 2 + 1;
        SpectrumState {
            fft_size,
            accum_buffer: Vec::new(),
            magnitude_db: filled(LOWEST_DB, bins),
            smoothed_db: filled(LOWEST_DB, bins),
            smoothing: SPECTRUM_SMOOTHING,
            min_db: LOWEST_DB,
            max_db: crate::bits::ZERO,
            sample_rate: DEFAULT_RATE,
            peak_db: filled(LOWEST_DB, bins),
            peak_hold: false,
            waterfall: Vec::new(),
            waterfall_history: 200,
            show_waterfall: false,
            max_display_freq: HIGHEST_FREQ,
        }
    }

    /// Accumulates samples, at most two blocks of them. Once there are enough, the
    /// newest block is to be transformed.
    pub fn process(&mut self, samples: &Vec<Bits>) -> (r: Option<Vec<Bits>>)
        requires
            old(self).fft_size * 2 <= usize::MAX,
        ensures
            collected(*old(self), *final(self), samples@, r),
    {
        let limit: usize = self.fft_size * 2;
        extend_newest(&mut self.accum_buffer, samples, limit);
        if self.accum_buffer.len() < self.fft_size {
            return None;
        }
        let start: usize = self.accum_buffer.len() - self.fft_size;
        let block = copy_window(&self.accum_buffer, start, self.fft_size);
        assert(block@ =~= newest(self.accum_buffer@, self.fft_size as nat));
        Some(block)
    }

    /// The levels that are shown for the magnitudes of the bins.
    pub fn shown(&self, levels: &Vec<Level>) -> (r: Vec<Bits>)
        requires
            le(self.min_db, self.max_db),
        ensures
            r@ == shown_levels(levels@, self.min_db, self.max_db),
    {
        show_levels(levels, self.min_db, self.max_db)
    }

    /// Takes over the levels of a transformed block: `db` as `shown` gave them, and
    /// `smoothed`, the caller's mixture of them with the smoothed levels so far. A
    /// held peak rises to a higher level; the waterfall, where it is shown, gets
    /// the smoothed levels as its newest row.
    pub fn record(&mut self, db: Vec<Bits>, smoothed: Vec<Bits>)
        requires
            old(self).well_formed(),
            db@.len() == old(self).bins(),
            smoothed@.len() == old(self).bins(),
        ensures
            final(self).well_formed(),
            final(self).same_settings(*old(self)),
            final(self).accum_buffer == old(self).accum_buffer,
            final(self).magnitude_db@ == db@,
            final(self).smoothed_db@ == smoothed@,
            final(self).peak_db@ == (if old(self).peak_hold {
                risen(old(self).peak_db@, db@)
            } else {
                old(self).peak_db@
            }),
            rows(final(self).waterfall@) == (if old(self).show_waterfall {
                newest(rows(old(self).waterfall@).push(smoothed@), old(self).waterfall_history as nat)
            } else {
                rows(old(self).waterfall@)
            }),
    {
        if self.peak_hold {
            raise_peaks(&mut self.peak_db, &db);
        }
        self.magnitude_db = db;
        if self.show_waterfall {
            let row = copy_window(&smoothed, 0, smoothed.len());
            assert(row@ =~= smoothed@);
            let ghost before = self.waterfall@;
            push_newest(&mut self.waterfall, row, self.waterfall_history);
            proof {
                lemma_rows_of_newest(before, row, self.waterfall_history as nat);
            }
        }
        self.smoothed_db = smoothed;
    }

    /// Resets the peak hold values to the lowest level that is shown.
    pub fn reset_peaks(&mut self)
        ensures
            final(self).peak_db@ == Seq::new(old(self).peak_db@.len(), |i: int| old(self).min_db),
            *final(self) == (SpectrumState { peak_db: final(self).peak_db, ..*old(self) }),
    {
        self.peak_db = filled(self.min_db, self.peak_db.len());
    }
}

/// A spectrum analyzer before any sample came in.
pub open spec fn fresh_spectrum(s: SpectrumState, fft_size: usize) -> bool {
    &&& s.well_formed()
    &&& s.fft_size == fft_size
    &&& s.accum_buffer@.len() == 0
    &&& s.magnitude_db@ == Seq::new(s.bins(), |i: int| LOWEST_DB)
    &&& s.smoothed_db@ == Seq::new(s.bins(), |i: int| LOWEST_DB)
    &&& s.peak_db@ == Seq::new(s.bins(), |i: int| LOWEST_DB)
    &&& s.smoothing == SPECTRUM_SMOOTHING
    &&& s.min_db == LOWEST_DB
    &&& s.max_db == crate::bits::ZERO
    &&& s.sample_rate == DEFAULT_RATE
    &&& !s.peak_hold
    &&& s.waterfall@.len() == 0
    &&& s.waterfall_history == 200
    &&& !s.show_waterfall
    &&& s.max_display_freq == HIGHEST_FREQ
}

/// How the state changes with new samples: at most two blocks are accumulated, and
/// once there are enough samples, the newest block is to be transformed.
pub open spec fn collected(
    before: SpectrumState,
    after: SpectrumState,
    samples: Seq<Bits>,
    block: Option<Vec<Bits>>,
) -> bool {
    &&& after.accum_buffer@ == newest(before.accum_buffer@ + samples, (before.fft_size * 2) as nat)
    &&& after == (SpectrumState { accum_buffer: after.accum_buffer, ..before })
    &&& block is Some <==> after.accum_buffer@.len() >= before.fft_size
    &&& block matches Some(b) ==> b@ == newest(after.accum_buffer@, before.fft_size as nat)
}

impl Default for SpectrumState {
    fn default() -> (r: Self)
        ensures
            fresh_spectrum(r, 4096),
    {
        SpectrumState::new(4096)
    }
}

/// The rows of a waterfall, as sequences of levels.
pub open spec fn rows(waterfall: Seq<Vec<Bits>>) -> Seq<Seq<Bits>> {
    Seq::new(waterfall.len(), |i: int| waterfall[i]@)
}

/// The rows that are kept after one was added.
pub proof fn lemma_rows_of_newest(before: Seq<Vec<Bits>>, row: Vec<Bits>, limit: nat)
    ensures
        rows(newest(before.push(row), limit)) == newest(rows(before).push(row@), limit),
{
    assert(rows(newest(before.push(row), limit)) =~= newest(rows(before).push(row@), limit));
}

/// Peaks after levels came in: each the level where it is higher.
pub open spec fn risen(peaks: Seq<Bits>, db: Seq<Bits>) -> Seq<Bits> {
    Seq::new(
        peaks.len(),
        |i: int|
            if lt(peaks[i], db[i]) {
                db[i]
            } else {
                peaks[i]
            },
    )
}

/// Raises every peak to its level where that is higher.
fn raise_peaks(peaks: &mut Vec<Bits>, db: &Vec<Bits>)
    requires
        old(peaks)@.len() == db@.len(),
    ensures
        final(peaks)@ == risen(old(peaks)@, db@),
{
    let ghost before = peaks@;
    let mut i: usize = 0;
    while i < peaks.len()
        invariant
            i <= peaks@.len(),
            peaks@.len() == db@.len(),
            before.len() == db@.len(),
            forall|k: int| 0 <= k < i ==> peaks@[k] == risen(before, db@)[k],
            forall|k: int| i <= k < peaks@.len() ==> peaks@[k] == before[k],
        decreases peaks@.len() - i,
    {
        if is_lt(peaks[i], db[i]) {
            peaks.set(i, db[i]);
        }
        i = i + 1;
    }
    assert(peaks@ =~= risen(before, db@));
}

/// Held peaks never fall, and lie at or above every level that came in.
pub proof fn law_held_peaks_only_rise(peaks: Seq<Bits>, db: Seq<Bits>, i: int)
    requires
        0 <= i < peaks.len(),
        peaks.len() == db.len(),
        !crate::bits::nan(peaks[i]),
    ensures
        le(peaks[i], risen(peaks, db)[i]),
        !crate::bits::nan(db[i]) ==> le(db[i], risen(peaks, db)[i]),
{
}

/// The waterfall never grows beyond its limit, its newest row is the one that was
/// recorded last, and the older rows keep their order.
pub proof fn law_waterfall_is_bounded(before: Seq<Seq<Bits>>, row: Seq<Bits>, limit: nat)
    requires
        limit > 0,
    ensures
        newest(before.push(row), limit).len() <= limit,
        newest(before.push(row), limit).last() == row,
        newest(before.push(row), limit).drop_last() == newest(before, (limit - 1) as nat),
{
    assert(newest(before.push(row), limit).drop_last() =~= newest(before, (limit - 1) as nat));
}

/// What new samples do to a spectrum: the newest samples are kept, up to two blocks; there
/// is a block to be transformed exactly if there are enough for one, and it is the newest;
/// nothing else changes.
pub proof fn law_newest_block_is_transformed(
    before: SpectrumState,
    after: SpectrumState,
    samples: Seq<Bits>,
    block: Option<Vec<Bits>>,
)
    requires
        collected(before, after, samples, block),
    ensures
        ({
            let stream = before.accum_buffer@ + samples;
            let limit = before.fft_size * 2;
            let kept = if stream.len() < limit {
                stream.len() as int
            } else {
                limit
            };
            &&& after.accum_buffer@ == stream.skip(stream.len() - kept)
            &&& block is Some <==> stream.len() >= before.fft_size
            &&& block matches Some(b) ==> b@ == stream.skip(stream.len() - before.fft_size)
            &&& after == (SpectrumState { accum_buffer: after.accum_buffer, ..before })
        }),
{
    let stream = before.accum_buffer@ + samples;
    assert(stream.skip(0) =~= stream);
    if block is Some {
        let kept = after.accum_buffer@;
        assert(newest(kept, before.fft_size as nat) =~= stream.skip(
            stream.len() - before.fft_size,
        ));
    }
}

/// A held peak becomes the level where that is higher and stays where it is not; the rows
/// of a waterfall are its frames; there is one bin more than half the block; and the same
/// settings are the same in everything but what was measured.
pub proof fn law_peaks_rows_and_settings(
    peaks: Seq<Bits>,
    db: Seq<Bits>,
    waterfall: Seq<Vec<Bits>>,
    i: int,
    a: SpectrumState,
    b: SpectrumState,
)
    ensures
        risen(peaks, db).len() == peaks.len(),
        0 <= i < peaks.len() && lt(peaks[i], db[i]) ==> risen(peaks, db)[i] == db[i],
        0 <= i < peaks.len() && !lt(peaks[i], db[i]) ==> risen(peaks, db)[i] == peaks[i],
        rows(waterfall).len() == waterfall.len(),
        0 <= i < waterfall.len() ==> rows(waterfall)[i] == waterfall[i]@,
        a.bins() == a.fft_size / 2 + 1,
        a.well_formed() <==> a.magnitude_db@.len() == a.fft_size / 2 + 1 && a.smoothed_db@.len()
            == a.fft_size / 2 + 1 && a.peak_db@.len() == a.fft_size / 2 + 1,
        a.same_settings(b) ==> b == (SpectrumState {
            accum_buffer: b.accum_buffer,
            magnitude_db: b.magnitude_db,
            smoothed_db: b.smoothed_db,
            peak_db: b.peak_db,
            waterfall: b.waterfall,
            ..a
        }),
{
}

/// A new spectrum is empty, with every level at -96 dB, from there to 0 dB, for 44100 Hz,
/// up to 20000 Hz and with a history of 200 rows.
pub proof fn law_new_spectrum_is_empty(s: SpectrumState, fft_size: usize, i: int)
    requires
        fresh_spectrum(s, fft_size),
    ensures
        s.fft_size == fft_size,
        s.accum_buffer@.len() == 0,
        s.magnitude_db@.len() == fft_size / 2 + 1,
        s.smoothed_db@.len() == fft_size / 2 + 1,
        s.peak_db@.len() == fft_size / 2 + 1,
        0 <= i < fft_size / 2 + 1 ==> s.magnitude_db@[i] == 0xc2c0_0000 && s.smoothed_db@[i]
            == 0xc2c0_0000 && s.peak_db@[i] == 0xc2c0_0000,
        s.smoothing == 0x3f4c_cccd,
        s.min_db == 0xc2c0_0000,
        s.max_db == 0,
        s.sample_rate == 0x472c_4400,
        !s.peak_hold,
        s.waterfall@.len() == 0,
        s.waterfall_history == 200,
        !s.show_waterfall,
        s.max_display_freq == 0x469c_4000,
{
}

} // verus!
