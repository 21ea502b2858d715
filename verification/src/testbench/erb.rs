//! The view by bands of equal width to the ear: the caller's filterbank gives the
//! envelope of every band; what is kept of it is decided here.
use vstd::prelude::*;

use crate::bits::{is_lt, le, lt, Bits, ONE, ZERO};
use crate::testbench::history::{copy_window, filled, newest, push_newest};
use crate::testbench::levels::{show_levels, shown_levels, Level, LOWEST_DB};
use crate::testbench::oscilloscope::DEFAULT_RATE;
use crate::testbench::spectrum::{lemma_rows_of_newest, rows};

verus! {

/// The bit pattern of `-100.0`, the level of a band before anything was heard.
pub const QUIET_DB: u32 = 0xc2c8_0000;

/// The bit pattern of `0.7`, the smoothing at first.
pub const ERB_SMOOTHING: u32 = 0x3f33_3333;

/// ERB (Equivalent Rectangular Bandwidth) analyzer state.
#[derive(Debug)]
pub struct ErbState {
    /// Number of ERB bands.
    pub num_bands: usize,
    /// Current envelope in dB.
    pub envelope_db: Vec<Bits>,
    /// Smoothed envelope for display.
    pub smoothed_db: Vec<Bits>,
    /// Sample rate.
    pub sample_rate: Bits,
    /// Minimum dB for display.
    pub min_db: Bits,
    /// Maximum dB for display.
    pub max_db: Bits,
    /// Smoothing factor for display.
    pub smoothing: Bits,
    /// Waterfall history for the spectrogram.
    pub waterfall: Vec<Vec<Bits>>,
    /// Maximum waterfall history length.
    pub waterfall_history: usize,
    /// Show the waterfall (spectrogram) view.
    pub show_waterfall: bool,
}

impl ErbState {
    /// Every band has an envelope and a smoothed one.
    pub open spec fn well_formed(self) -> bool {
        &&& self.envelope_db@.len() == self.num_bands
        &&& self.smoothed_db@.len() == self.num_bands
    }

    /// Whether two states have the same settings.
    pub open spec fn same_settings(self, other: Self) -> bool {
        &&& self.num_bands == other.num_bands
        &&& self.sample_rate == other.sample_rate
        &&& self.min_db == other.min_db
        &&& self.max_db == other.max_db
        &&& self.smoothing == other.smoothing
        &&& self.waterfall_history == other.waterfall_history
        &&& self.show_waterfall == other.show_waterfall
    }

    /// A new ERB analyzer with the given number of bands.
    pub fn new(num_bands: usize, sample_rate: Bits) -> (r: Self)
        ensures
            fresh_bands(r, num_bands, sample_rate),
    {
        ErbState {
            num_bands,
            envelope_db: filled(QUIET_DB, num_bands),
            smoothed_db: filled(QUIET_DB, num_bands),
            sample_rate,
            min_db: LOWEST_DB,
            max_db: ZERO,
            smoothing: ERB_SMOOTHING,
            waterfall: Vec::new(),
            waterfall_history: 200,
            show_waterfall: false,
        }
    }

    /// Takes over a sample rate that differs from the present one by `difference`,
    /// where that is more than one hertz. Says whether the filterbank has to be
    /// built anew.
    pub fn set_sample_rate(&mut self, sample_rate: Bits, difference: Bits) -> (r: bool)
        ensures
            r == lt(ONE, difference),
            *final(self) == (ErbState {
                sample_rate: if r {
                    sample_rate
                } else {
                    old(self).sample_rate
                },
                ..*old(self)
            }),
    {
        let rebuild: bool = is_lt(ONE, difference);
        if rebuild {
            self.sample_rate = sample_rate;
        }
        rebuild
    }

    /// The levels that are shown for the envelopes of the bands.
    pub fn shown(&self, levels: &Vec<Level>) -> (r: Vec<Bits>)
        requires
            le(self.min_db, self.max_db),
        ensures
            r@ == shown_levels(levels@, self.min_db, self.max_db),
    {
        show_levels(levels, self.min_db, self.max_db)
    }

    /// Takes over the levels of the bands: `db` as `shown` gave them, and
    /// `smoothed`, the caller's mixture of them with the smoothed levels so far.
    /// Bands that the filterbank gave no envelope for keep their levels. The
    /// waterfall, where it is shown, gets the smoothed levels as its newest row.
    pub fn process(&mut self, db: &Vec<Bits>, smoothed: &Vec<Bits>)
        requires
            old(self).well_formed(),
            db@.len() <= old(self).num_bands,
            smoothed@.len() == db@.len(),
        ensures
            final(self).well_formed(),
            final(self).same_settings(*old(self)),
            final(self).envelope_db@ == overlaid(old(self).envelope_db@, db@),
            final(self).smoothed_db@ == overlaid(old(self).smoothed_db@, smoothed@),
            rows(final(self).waterfall@) == (if old(self).show_waterfall {
                newest(
                    rows(old(self).waterfall@).push(final(self).smoothed_db@),
                    old(self).waterfall_history as nat,
                )
            } else {
                rows(old(self).waterfall@)
            }),
    {
        overlay(&mut self.envelope_db, db);
        overlay(&mut self.smoothed_db, smoothed);
        if self.show_waterfall {
            let row = copy_window(&self.smoothed_db, 0, self.smoothed_db.len());
            assert(row@ =~= self.smoothed_db@);
            let ghost before = self.waterfall@;
            push_newest(&mut self.waterfall, row, self.waterfall_history);
            proof {
                lemma_rows_of_newest(before, row, self.waterfall_history as nat);
            }
        }
    }

    /// Silences all bands and forgets the waterfall.
    pub fn reset(&mut self)
        ensures
            final(self).same_settings(*old(self)),
            final(self).envelope_db@ == Seq::new(
                old(self).envelope_db@.len(),
                |i: int| old(self).min_db,
            ),
            final(self).smoothed_db@ == Seq::new(
                old(self).smoothed_db@.len(),
                |i: int| old(self).min_db,
            ),
            final(self).waterfall@.len() == 0,
    {
        self.envelope_db = filled(self.min_db, self.envelope_db.len());
        self.smoothed_db = filled(self.min_db, self.smoothed_db.len());
        self.waterfall.clear();
    }
}

/// An analyzer before any sample came in.
pub open spec fn fresh_bands(e: ErbState, num_bands: usize, sample_rate: Bits) -> bool {
    &&& e.well_formed()
    &&& e.num_bands == num_bands
    &&& e.envelope_db@ == Seq::new(num_bands as nat, |i: int| QUIET_DB)
    &&& e.smoothed_db@ == Seq::new(num_bands as nat, |i: int| QUIET_DB)
    &&& e.sample_rate == sample_rate
    &&& e.min_db == LOWEST_DB
    &&& e.max_db == ZERO
    &&& e.smoothing == ERB_SMOOTHING
    &&& e.waterfall@.len() == 0
    &&& e.waterfall_history == 200
    &&& !e.show_waterfall
}

impl Default for ErbState {
    fn default() -> (r: Self)
        ensures
            fresh_bands(r, 48, DEFAULT_RATE),
    {
        ErbState::new(48, DEFAULT_RATE)
    }
}

/// A list whose beginning is replaced.
pub open spec fn overlaid(list: Seq<Bits>, beginning: Seq<Bits>) -> Seq<Bits> {
    Seq::new(
        list.len(),
        |i: int|
            if i < beginning.len() {
                beginning[i]
            } else {
                list[i]
            },
    )
}

/// Replaces the beginning of a list.
fn overlay(list: &mut Vec<Bits>, beginning: &Vec<Bits>)
    requires
        beginning@.len() <= old(list)@.len(),
    ensures
        final(list)@ == overlaid(old(list)@, beginning@),
{
    let ghost before = list@;
    let mut i: usize = 0;
    while i < beginning.len()
        invariant
            i <= beginning@.len() <= list@.len(),
            list@.len() == before.len(),
            forall|k: int| 0 <= k < i ==> list@[k] == beginning@[k],
            forall|k: int| i <= k < list@.len() ==> list@[k] == before[k],
        decreases beginning@.len() - i,
    {
        list.set(i, beginning[i]);
        i = i + 1;
    }
    assert(list@ =~= overlaid(before, beginning@));
}

/// New levels take the place of the first ones, the others stay; the same settings are the
/// same in everything but what was measured; every band has its two levels.
pub proof fn law_levels_are_overlaid(
    list: Seq<Bits>,
    beginning: Seq<Bits>,
    i: int,
    a: ErbState,
    b: ErbState,
)
    ensures
        overlaid(list, beginning).len() == list.len(),
        0 <= i < list.len() && i < beginning.len() ==> overlaid(list, beginning)[i] == beginning[i],
        beginning.len() <= i < list.len() ==> overlaid(list, beginning)[i] == list[i],
        a.well_formed() <==> a.envelope_db@.len() == a.num_bands && a.smoothed_db@.len()
            == a.num_bands,
        a.same_settings(b) ==> b == (ErbState {
            envelope_db: b.envelope_db,
            smoothed_db: b.smoothed_db,
            waterfall: b.waterfall,
            ..a
        }),
{
}

/// A new analyzer is quiet: every band at -100 dB, shown from -96 dB to 0 dB, with a
/// history of 200 rows.
pub proof fn law_new_analyzer_is_quiet(e: ErbState, num_bands: usize, sample_rate: Bits, i: int)
    requires
        fresh_bands(e, num_bands, sample_rate),
    ensures
        e.num_bands == num_bands,
        e.sample_rate == sample_rate,
        e.envelope_db@.len() == num_bands,
        e.smoothed_db@.len() == num_bands,
        0 <= i < num_bands ==> e.envelope_db@[i] == 0xc2c8_0000 && e.smoothed_db@[i] == 0xc2c8_0000,
        e.min_db == 0xc2c0_0000,
        e.max_db == 0,
        e.smoothing == 0x3f33_3333,
        e.waterfall@.len() == 0,
        e.waterfall_history == 200,
        !e.show_waterfall,
{
}

} // verus!
