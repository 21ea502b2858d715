//! Laying out spectrograms, and the colors of their cells.
use vstd::prelude::*;

use crate::bits::{clamp, clamped, is_lt, larger, lt, max, Bits, ONE, ZERO};

verus! {

/// The bit pattern of `500.0`, the lowest upper end of the frequency axis.
pub const ZOOM_LOW: u32 = 0x43fa_0000;

/// The bit pattern of `22000.0`, the highest upper end of the frequency axis.
pub const ZOOM_HIGH: u32 = 0x46ab_e000;

/// The bit pattern of `0.02`: cells below it are not drawn.
pub const SIGNAL_THRESHOLD: u32 = 0x3ca3_d70a;

/// The bit pattern of `0.01`: smaller differences are none.
pub const DIFF_THRESHOLD: u32 = 0x3c23_d70a;

/// The bit pattern of three times the difference threshold: below it a signal is
/// quiet.
pub const QUIET_THRESHOLD: u32 = 0x3cf5_c28f;

/// How many rows are enough for a display.
pub const ROW_LIMIT: usize = 512;

/// The upper end of the frequency axis after zooming, kept in its range. `zoomed` is
/// where the zoom would move it.
pub fn zoom(zoomed: Bits) -> (r: Bits)
    ensures
        r == clamped(zoomed, ZOOM_LOW, ZOOM_HIGH),
        r == clamped(zoomed, 0x43fa_0000, 0x46ab_e000),
{
    clamp(zoomed, ZOOM_LOW, ZOOM_HIGH)
}

/// The rows of a spectrogram: every `bin_step`-th bin, `num_rows` of them.
#[derive(Clone, Copy, Debug, PartialEq, Eq, Structural)]
pub struct Grid {
    pub max_bin: usize,
    pub bin_step: usize,
    pub num_rows: usize,
}

/// The highest bin that is shown: at least one is, and no more than there are.
pub open spec fn shown_bins(wanted: nat, total: nat) -> nat {
    let bounded = if wanted < total {
        wanted
    } else {
        total
    };
    if bounded < 1 {
        1
    } else {
        bounded
    }
}

/// How many bins a row stands for: where there are more bins than rows that are
/// enough, as many as fit into them.
pub open spec fn step_for(bins: nat) -> nat {
    if bins > ROW_LIMIT {
        bins / ROW_LIMIT as nat
    } else {
        1
    }
}

/// Lays out the rows of a spectrogram. `wanted` is the bin of the highest frequency to
/// show, `total` the number of bins.
pub fn layout(wanted: usize, total: usize) -> (r: Grid)
    ensures
        r.max_bin == shown_bins(wanted as nat, total as nat),
        r.bin_step == step_for(r.max_bin as nat),
        r.num_rows == r.max_bin / r.bin_step,
        r.num_rows * r.bin_step <= r.max_bin,
{
    let bounded: usize = if wanted < total {
        wanted
    } else {
        total
    };
    let max_bin: usize = if bounded < 1 {
        1
    } else {
        bounded
    };
    let display_bins: usize = if max_bin < ROW_LIMIT {
        max_bin
    } else {
        ROW_LIMIT
    };
    let bin_step: usize = if max_bin > display_bins {
        max_bin / display_bins
    } else {
        1
    };
    let num_rows: usize = max_bin / bin_step;
    assert(num_rows * bin_step <= max_bin) by (nonlinear_arith)
        requires
            num_rows == max_bin / bin_step,
            bin_step > 0,
    ;
    Grid { max_bin, bin_step, num_rows }
}

impl Grid {
    /// The bin that a row shows, where the frame has it.
    pub fn source_bin(&self, row: usize, frame_len: usize) -> (r: Option<usize>)
        requires
            row < self.num_rows,
            self.num_rows * self.bin_step <= self.max_bin,
        ensures
            r == (if row * self.bin_step < frame_len {
                Some((row * self.bin_step) as usize)
            } else {
                None
            }),
    {
        assert(row * self.bin_step <= self.num_rows * self.bin_step) by (nonlinear_arith)
            requires
                row < self.num_rows,
        ;
        let bin: usize = row * self.bin_step;
        if bin < frame_len {
            Some(bin)
        } else {
            None
        }
    }
}

/// Which frames of two histories are drawn in column `column`, where the histories
/// are compared: the newest frames of both stand in the last column.
pub open spec fn compared_frames(post: nat, pre: nat, column: int) -> (int, int) {
    let n = if post < pre {
        post
    } else {
        pre
    };
    (post - n + column, pre - n + column)
}

/// How many columns there are where two histories are compared.
pub fn compared_columns(post: usize, pre: usize) -> (r: usize)
    ensures
        r == (if post < pre {
            post
        } else {
            pre
        }),
{
    if post < pre {
        post
    } else {
        pre
    }
}

/// The frames of both histories that stand in a column.
pub fn column_frames(post: usize, pre: usize, column: usize) -> (r: (usize, usize))
    requires
        column < post,
        column < pre,
    ensures
        (r.0 as int, r.1 as int) == compared_frames(post as nat, pre as nat, column as int),
        r.0 < post,
        r.1 < pre,
{
    let n: usize = compared_columns(post, pre);
    (post - n + column, pre - n + column)
}

/// What an effect did to a frequency.
#[derive(Clone, Copy, Debug, PartialEq, Eq, Structural)]
pub enum SignalChange {
    Unchanged,
    Created,
    Strengthened,
    Removed,
    Weakened,
}

/// What an effect did to a frequency, by the levels of output and input, their
/// difference and its magnitude; nothing where neither is significant.
pub open spec fn change_of(post: Bits, pre: Bits, diff: Bits, distance: Bits) -> Option<
    SignalChange,
> {
    if lt(larger(post, pre), SIGNAL_THRESHOLD) {
        None
    } else if lt(distance, DIFF_THRESHOLD) {
        Some(SignalChange::Unchanged)
    } else if lt(ZERO, diff) {
        if lt(pre, QUIET_THRESHOLD) {
            Some(SignalChange::Created)
        } else {
            Some(SignalChange::Strengthened)
        }
    } else {
        if lt(post, QUIET_THRESHOLD) {
            Some(SignalChange::Removed)
        } else {
            Some(SignalChange::Weakened)
        }
    }
}

/// What an effect did to a frequency. `diff` is the output's level minus the input's,
/// `distance` its magnitude.
pub fn classify(post: Bits, pre: Bits, diff: Bits, distance: Bits) -> (r: Option<SignalChange>)
    ensures
        r == change_of(post, pre, diff, distance),
{
    if is_lt(max(post, pre), SIGNAL_THRESHOLD) {
        None
    } else if is_lt(distance, DIFF_THRESHOLD) {
        Some(SignalChange::Unchanged)
    } else if is_lt(ZERO, diff) {
        if is_lt(pre, QUIET_THRESHOLD) {
            Some(SignalChange::Created)
        } else {
            Some(SignalChange::Strengthened)
        }
    } else {
        if is_lt(post, QUIET_THRESHOLD) {
            Some(SignalChange::Removed)
        } else {
            Some(SignalChange::Weakened)
        }
    }
}

/// The bit patterns of `0.2`, `0.4`, `0.6` and `0.8`, between the parts of the heat
/// map.
pub const HEAT_BLUE: u32 = 0x3e4c_cccd;

pub const HEAT_CYAN: u32 = 0x3ecc_cccd;

pub const HEAT_GREEN: u32 = 0x3f19_999a;

pub const HEAT_YELLOW: u32 = 0x3f4c_cccd;

/// A part of the heat map.
#[derive(Clone, Copy, Debug, PartialEq, Eq, Structural)]
pub enum Heat {
    BlackToBlue,
    BlueToCyan,
    CyanToGreen,
    GreenToYellow,
    YellowToRed,
}

/// The part of the heat map that a level from zero to one lies in.
pub open spec fn heat_of(level: Bits) -> Heat {
    let v = clamped(level, ZERO, ONE);
    if lt(v, HEAT_BLUE) {
        Heat::BlackToBlue
    } else if lt(v, HEAT_CYAN) {
        Heat::BlueToCyan
    } else if lt(v, HEAT_GREEN) {
        Heat::CyanToGreen
    } else if lt(v, HEAT_YELLOW) {
        Heat::GreenToYellow
    } else {
        Heat::YellowToRed
    }
}

/// The part of the heat map that a level lies in, and the level kept between zero and
/// one.
pub fn heat(level: Bits) -> (r: (Heat, Bits))
    ensures
        r == (heat_of(level), clamped(level, ZERO, ONE)),
{
    let v: Bits = clamp(level, ZERO, ONE);
    let part = if is_lt(v, HEAT_BLUE) {
        Heat::BlackToBlue
    } else if is_lt(v, HEAT_CYAN) {
        Heat::BlueToCyan
    } else if is_lt(v, HEAT_GREEN) {
        Heat::CyanToGreen
    } else if is_lt(v, HEAT_YELLOW) {
        Heat::GreenToYellow
    } else {
        Heat::YellowToRed
    };
    (part, v)
}

/// Every row shows one of the bins, there is at least one row, and different rows
/// show different bins.
pub proof fn law_rows_show_bins(wanted: nat, total: nat, row: nat, other: nat)
    requires
        ({
            let bins = shown_bins(wanted, total);
            row < bins / step_for(bins) && other < bins / step_for(bins)
        }),
    ensures
        ({
            let bins = shown_bins(wanted, total);
            let step = step_for(bins);
            &&& step >= 1
            &&& bins / step >= 1
            &&& row * step < bins
            &&& (bins / step) * step <= bins
            &&& row != other ==> row * step != other * step
        }),
{
    let bins = shown_bins(wanted, total);
    let step = step_for(bins);
    let rows = bins / step;
    assert(step >= 1) by {
        if bins > ROW_LIMIT {
            assert(bins / 512nat >= 1) by (nonlinear_arith)
                requires
                    bins > 512,
            ;
        }
    }
    assert(rows * step <= bins) by (nonlinear_arith)
        requires
            rows == bins / step,
            step >= 1,
    ;
    assert(row * step + step <= rows * step) by (nonlinear_arith)
        requires
            row < rows,
    ;
    if row != other {
        assert(row * step != other * step) by (nonlinear_arith)
            requires
                row != other,
                step >= 1,
        ;
    }
}

/// Compared histories end together: the newest frame of each stands in the last
/// column, and every column shows frames of the same age.
pub proof fn law_histories_end_together(post: nat, pre: nat, column: int)
    requires
        0 <= column < post,
        column < pre,
    ensures
        ({
            let (a, b) = compared_frames(post, pre, column);
            post - a == pre - b
        }),
        ({
            let n = if post < pre {
                post
            } else {
                pre
            };
            compared_frames(post, pre, n - 1) == (post - 1, pre - 1)
        }),
{
}

/// Louder levels are never cooler: of two levels, the larger lies in the same part of
/// the heat map or in a later one.
pub proof fn law_heat_rises(a: Bits, b: Bits)
    requires
        crate::bits::le(a, b),
    ensures
        heat_place(heat_of(a)) <= heat_place(heat_of(b)),
{
}

/// The place of a part in the heat map.
pub open spec fn heat_place(h: Heat) -> nat {
    match h {
        Heat::BlackToBlue => 0,
        Heat::BlueToCyan => 1,
        Heat::CyanToGreen => 2,
        Heat::GreenToYellow => 3,
        Heat::YellowToRed => 4,
    }
}

/// The bins that are shown: those that are wanted, no more than there are, and at least
/// one; up to 512 of them a row each, of more of them as many to a row as go 512 times
/// into them.
pub proof fn law_rows_are_enough(wanted: nat, total: nat)
    ensures
        wanted < 1 || total < 1 ==> shown_bins(wanted, total) == 1,
        1 <= wanted <= total ==> shown_bins(wanted, total) == wanted,
        1 <= total <= wanted ==> shown_bins(wanted, total) == total,
        wanted <= 512 ==> step_for(wanted) == 1,
        wanted > 512 ==> step_for(wanted) == wanted / 512,
{
}

/// The columns of a comparison are frames in a row of both histories: the next column
/// shows the next frame of each.
pub proof fn law_columns_are_frames_in_a_row(post: nat, pre: nat, column: int)
    ensures
        ({
            let (a, b) = compared_frames(post, pre, column);
            let (c, d) = compared_frames(post, pre, column + 1);
            c == a + 1 && d == b + 1
        }),
        post <= pre ==> compared_frames(post, pre, 0) == (0int, pre - post),
        pre <= post ==> compared_frames(post, pre, 0) == (post - pre, 0int),
{
}

/// What an effect did to a frequency: nothing is said where both levels are below 0.02;
/// it is unchanged where they differ by less than 0.01; else louder or softer, and where
/// the input was below 0.03 it was created, where the output is, removed.
pub proof fn law_changes_are_told_apart(post: Bits, pre: Bits, diff: Bits, distance: Bits)
    ensures
        ({
            let change = change_of(post, pre, diff, distance);
            let heard = !lt(larger(post, pre), 0x3ca3_d70a);
            let differs = !lt(distance, 0x3c23_d70a);
            let louder = lt(0, diff);
            &&& change is None <==> !heard
            &&& change == Some(SignalChange::Unchanged) <==> heard && !differs
            &&& change == Some(SignalChange::Created) <==> heard && differs && louder && lt(
                pre,
                0x3cf5_c28f,
            )
            &&& change == Some(SignalChange::Strengthened) <==> heard && differs && louder && !lt(
                pre,
                0x3cf5_c28f,
            )
            &&& change == Some(SignalChange::Removed) <==> heard && differs && !louder && lt(
                post,
                0x3cf5_c28f,
            )
            &&& change == Some(SignalChange::Weakened) <==> heard && differs && !louder && !lt(
                post,
                0x3cf5_c28f,
            )
        }),
{
}

/// The heat map has five parts of a fifth each; levels below zero are in the first, those
/// above one in the last.
pub proof fn law_heat_has_five_parts(level: Bits)
    requires
        !crate::bits::nan(level),
    ensures
        heat_of(level) == Heat::BlackToBlue <==> lt(level, 0x3e4c_cccd),
        heat_of(level) == Heat::BlueToCyan <==> !lt(level, 0x3e4c_cccd) && lt(level, 0x3ecc_cccd),
        heat_of(level) == Heat::CyanToGreen <==> !lt(level, 0x3ecc_cccd) && lt(level, 0x3f19_999a),
        heat_of(level) == Heat::GreenToYellow <==> !lt(level, 0x3f19_999a) && lt(
            level,
            0x3f4c_cccd,
        ),
        heat_of(level) == Heat::YellowToRed <==> !lt(level, 0x3f4c_cccd),
{
}

} // verus!
