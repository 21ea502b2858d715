//! Levels in decibels, as the analysers show them.
use vstd::prelude::*;

use crate::bits::{clamp, clamped, is_finite, is_le, is_lt, le, lt, Bits};

verus! {

/// The bit pattern of `1e-10`: what is not above it counts as silence.
pub const SILENCE: u32 = 0x2edb_e6ff;

/// The bit pattern of `-96.0`, the lowest level that is shown at first.
pub const LOWEST_DB: u32 = 0xc2c0_0000;

/// The bit pattern of negative infinity.
pub const NEG_INFINITY: u32 = 0xff80_0000;

/// A magnitude and its level in decibels, twenty times its decimal logarithm.
#[derive(Clone, Copy, Debug, PartialEq, Eq, Structural)]
pub struct Level {
    pub magnitude: Bits,
    pub decibels: Bits,
}

/// The level that is shown for a magnitude: silence is at the lowest level, and
/// everything stays in the range that is shown.
pub open spec fn shown_level(level: Level, min_db: Bits, max_db: Bits) -> Bits {
    clamped(
        if lt(SILENCE, level.magnitude) {
            level.decibels
        } else {
            min_db
        },
        min_db,
        max_db,
    )
}

/// The levels that are shown for a list of magnitudes.
pub open spec fn shown_levels(levels: Seq<Level>, min_db: Bits, max_db: Bits) -> Seq<Bits> {
    Seq::new(levels.len(), |i: int| shown_level(levels[i], min_db, max_db))
}

/// The levels that are shown for a list of magnitudes.
pub fn show_levels(levels: &Vec<Level>, min_db: Bits, max_db: Bits) -> (r: Vec<Bits>)
    requires
        le(min_db, max_db),
    ensures
        r@ == shown_levels(levels@, min_db, max_db),
{
    let mut r: Vec<Bits> = Vec::new();
    let mut i: usize = 0;
    while i < levels.len()
        invariant
            i <= levels@.len(),
            le(min_db, max_db),
            r@ == shown_levels(levels@, min_db, max_db).take(i as int),
        decreases levels@.len() - i,
    {
        let level = levels[i];
        let db: Bits = if is_lt(SILENCE, level.magnitude) {
            level.decibels
        } else {
            min_db
        };
        r.push(clamp(db, min_db, max_db));
        assert(r@ =~= shown_levels(levels@, min_db, max_db).take(i + 1));
        i = i + 1;
    }
    assert(r@ =~= shown_levels(levels@, min_db, max_db));
    r
}

/// The highest of the levels so far, after the levels of the places up to `n` whose
/// frequency is in the range.
pub open spec fn highest(
    db: Seq<Bits>,
    freqs: Seq<Bits>,
    min_freq: Bits,
    max_freq: Bits,
    n: nat,
) -> Bits
    decreases n,
{
    if n == 0 {
        NEG_INFINITY
    } else {
        let so_far = highest(db, freqs, min_freq, max_freq, (n - 1) as nat);
        if le(min_freq, freqs[n - 1]) && le(freqs[n - 1], max_freq) && lt(so_far, db[n - 1]) {
            db[n - 1]
        } else {
            so_far
        }
    }
}

/// The peak of a spectrum within a range of frequencies: the highest level there,
/// and zero where there is none.
pub open spec fn peak_level(
    db: Seq<Bits>,
    freqs: Seq<Bits>,
    min_freq: Bits,
    max_freq: Bits,
) -> Bits {
    let peak = highest(db, freqs, min_freq, max_freq, db.len());
    if crate::bits::finite(peak) {
        peak
    } else {
        crate::bits::ZERO
    }
}

/// Finds the highest level whose frequency is in the range.
pub fn find_peak(db: &Vec<Bits>, freqs: &Vec<Bits>, min_freq: Bits, max_freq: Bits) -> (r: Bits)
    requires
        freqs@.len() >= db@.len(),
    ensures
        r == peak_level(db@, freqs@, min_freq, max_freq),
{
    let mut peak: Bits = NEG_INFINITY;
    let mut i: usize = 0;
    while i < db.len()
        invariant
            i <= db@.len(),
            freqs@.len() >= db@.len(),
            peak == highest(db@, freqs@, min_freq, max_freq, i as nat),
        decreases db@.len() - i,
    {
        if is_le(min_freq, freqs[i]) && is_le(freqs[i], max_freq) && is_lt(peak, db[i]) {
            peak = db[i];
        }
        i = i + 1;
    }
    if is_finite(peak) {
        peak
    } else {
        crate::bits::ZERO
    }
}

/// The highest level is at least as high as every level in the range, and is one of
/// them, or negative infinity.
pub proof fn law_peak_is_the_highest(
    db: Seq<Bits>,
    freqs: Seq<Bits>,
    min_freq: Bits,
    max_freq: Bits,
    n: nat,
)
    requires
        n <= db.len(),
    ensures
        !crate::bits::nan(highest(db, freqs, min_freq, max_freq, n)),
        forall|i: int|
            0 <= i < n && le(min_freq, freqs[i]) && le(freqs[i], max_freq) && !crate::bits::nan(
                #[trigger] db[i],
            ) ==> le(db[i], highest(db, freqs, min_freq, max_freq, n)),
        highest(db, freqs, min_freq, max_freq, n) == NEG_INFINITY || exists|i: int|
            0 <= i < n && le(min_freq, freqs[i]) && le(freqs[i], max_freq) && #[trigger] db[i]
                == highest(db, freqs, min_freq, max_freq, n),
    decreases n,
{
    if n > 0 {
        law_peak_is_the_highest(db, freqs, min_freq, max_freq, (n - 1) as nat);
        let so_far = highest(db, freqs, min_freq, max_freq, (n - 1) as nat);
        let now = highest(db, freqs, min_freq, max_freq, n);
        assert forall|i: int|
            0 <= i < n && le(min_freq, freqs[i]) && le(freqs[i], max_freq) && !crate::bits::nan(
                #[trigger] db[i],
            ) implies le(db[i], now) by {
            if i < n - 1 {
                assert(le(db[i], so_far));
            }
        }
        if now != so_far {
            assert(db[n - 1] == now);
        }
    }
}

/// The level that is shown for a magnitude above 1e-10 is its level in decibels, or the
/// end of the range that it lies behind; for anything else it is the lowest of the range.
pub proof fn law_levels_are_shown_in_range(
    levels: Seq<Level>,
    min_db: Bits,
    max_db: Bits,
    i: int,
)
    requires
        le(min_db, max_db),
        0 <= i < levels.len(),
    ensures
        shown_levels(levels, min_db, max_db).len() == levels.len(),
        !lt(0x2edb_e6ff, levels[i].magnitude) ==> shown_levels(levels, min_db, max_db)[i] == min_db,
        lt(0x2edb_e6ff, levels[i].magnitude) ==> shown_levels(levels, min_db, max_db)[i] == (if lt(
            levels[i].decibels,
            min_db,
        ) {
            min_db
        } else if lt(max_db, levels[i].decibels) {
            max_db
        } else {
            levels[i].decibels
        }),
{
}

/// The peak within a range of frequencies is as high as every level there, and is one of
/// them; it is zero where there is no finite one. Levels outside the range do not count.
pub proof fn law_peak_is_a_level_in_range(
    db: Seq<Bits>,
    freqs: Seq<Bits>,
    min_freq: Bits,
    max_freq: Bits,
    i: int,
)
    requires
        freqs.len() >= db.len(),
    ensures
        ({
            let peak = peak_level(db, freqs, min_freq, max_freq);
            &&& (exists|k: int|
                0 <= k < db.len() && le(min_freq, freqs[k]) && le(freqs[k], max_freq)
                    && #[trigger] db[k] == peak) || peak == 0
            &&& crate::bits::finite(peak)
            &&& (forall|k: int|
                0 <= k < db.len() && le(min_freq, freqs[k]) && le(freqs[k], max_freq)
                    ==> crate::bits::finite(#[trigger] db[k])) && 0 <= i < db.len() && le(
                min_freq,
                freqs[i],
            ) && le(freqs[i], max_freq) ==> le(db[i], peak)
        }),
{
    law_peak_is_the_highest(db, freqs, min_freq, max_freq, db.len());
    let peak = highest(db, freqs, min_freq, max_freq, db.len());
    if 0 <= i < db.len() && le(min_freq, freqs[i]) && le(freqs[i], max_freq)
        && crate::bits::finite(db[i]) {
        assert(le(db[i], peak));
        assert(peak != NEG_INFINITY);
    }
}

} // verus!
