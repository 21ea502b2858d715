//! The time-domain view: a stretch of the signal that starts at a trigger point.
use vstd::prelude::*;

use crate::bits::{is_le, is_lt, le, lt, Bits, ONE, ZERO};
use crate::testbench::history::{copy_window, extend_newest, newest, window};

verus! {

/// The bit pattern of `44100.0`, the sample rate before the host says another.
pub const DEFAULT_RATE: u32 = 0x472c_4400;

/// Oscilloscope state for time-domain visualization.
#[derive(Debug)]
pub struct OscilloscopeState {
    /// Display buffer for the left channel.
    pub left_buffer: Vec<Bits>,
    /// Display buffer for the right channel.
    pub right_buffer: Vec<Bits>,
    /// Accumulation buffer for the left channel (keeps history).
    pub accum_left: Vec<Bits>,
    /// Accumulation buffer for the right channel.
    pub accum_right: Vec<Bits>,
    /// Number of samples to display.
    pub display_samples: usize,
    /// Vertical scale (amplitude zoom).
    pub vertical_scale: Bits,
    /// Trigger level for a stable display (-1.0 to 1.0).
    pub trigger_level: Bits,
    /// Whether triggering is enabled.
    pub trigger_enabled: bool,
    /// Sample rate for the time axis.
    pub sample_rate: Bits,
}

/// An oscilloscope before any sample came in.
pub open spec fn fresh_scope(o: OscilloscopeState) -> bool {
    &&& o.left_buffer@.len() == 0
    &&& o.right_buffer@.len() == 0
    &&& o.accum_left@.len() == 0
    &&& o.accum_right@.len() == 0
    &&& o.display_samples == 2048
    &&& o.vertical_scale == ONE
    &&& o.trigger_level == ZERO
    &&& o.trigger_enabled
    &&& o.sample_rate == DEFAULT_RATE
}

impl Default for OscilloscopeState {
    fn default() -> (r: Self)
        ensures
            fresh_scope(r),
    {
        OscilloscopeState {
            left_buffer: Vec::new(),
            right_buffer: Vec::new(),
            accum_left: Vec::new(),
            accum_right: Vec::new(),
            display_samples: 2048,
            vertical_scale: ONE,
            trigger_level: ZERO,
            trigger_enabled: true,
            sample_rate: DEFAULT_RATE,
        }
    }
}

/// Whether the signal rises through the level at sample `i`.
pub open spec fn crosses(samples: Seq<Bits>, level: Bits, i: int) -> bool {
    le(samples[i - 1], level) && lt(level, samples[i])
}

/// The first sample from `from` on, but for the very last one, at which the signal
/// rises through the level; 0 where there is none.
pub open spec fn trigger_point(samples: Seq<Bits>, level: Bits, from: nat) -> nat
    decreases samples.len() - from,
{
    if from + 1 >= samples.len() {
        0
    } else if crosses(samples, level, from as int) {
        from
    } else {
        trigger_point(samples, level, from + 1)
    }
}

/// Finds the zero-crossing trigger point with positive slope.
pub fn find_trigger_point(samples: &Vec<Bits>, level: Bits) -> (r: usize)
    ensures
        r == trigger_point(samples@, level, 1),
        r == 0 || r < samples@.len(),
{
    let mut i: usize = 1;
    while i < samples.len() && i < samples.len() - 1
        invariant
            1 <= i,
            i <= 1 || i <= samples@.len(),
            trigger_point(samples@, level, 1) == trigger_point(samples@, level, i as nat),
        decreases samples@.len() - i,
    {
        if is_le(samples[i - 1], level) && is_lt(level, samples[i]) {
            return i;
        }
        i = i + 1;
    }
    0
}

/// Where the display starts in the accumulated samples.
pub open spec fn display_start(
    accumulated: Seq<Bits>,
    trigger_enabled: bool,
    trigger_level: Bits,
) -> nat {
    if trigger_enabled {
        trigger_point(accumulated, trigger_level, 1)
    } else {
        0
    }
}

/// How the state changes with new samples: they are accumulated, and once there are
/// enough of them, both channels are displayed from the trigger point on.
pub open spec fn advanced(
    before: OscilloscopeState,
    after: OscilloscopeState,
    left: Seq<Bits>,
    right: Seq<Bits>,
) -> bool {
    let shown = before.display_samples as nat;
    let start = display_start(after.accum_left@, before.trigger_enabled, before.trigger_level);
    &&& after.accum_left@ == newest(before.accum_left@ + left, before.limit())
    &&& after.accum_right@ == newest(before.accum_right@ + right, before.limit())
    &&& after.left_buffer@ == (if after.accum_left@.len() >= shown {
        window(after.accum_left@, start, shown)
    } else {
        before.left_buffer@
    })
    &&& after.right_buffer@ == (if after.accum_left@.len() >= shown {
        window(after.accum_right@, start, shown)
    } else {
        before.right_buffer@
    })
    &&& after.display_samples == before.display_samples
    &&& after.vertical_scale == before.vertical_scale
    &&& after.trigger_level == before.trigger_level
    &&& after.trigger_enabled == before.trigger_enabled
    &&& after.sample_rate == before.sample_rate
}

impl OscilloscopeState {
    /// How many samples of a channel are kept: four times what is displayed.
    pub open spec fn limit(self) -> nat {
        (self.display_samples * 4) as nat
    }

    /// Accumulates new samples, and displays the stretch from the trigger point on
    /// of both channels once there are enough of them.
    pub fn update_from_samples(&mut self, left: &Vec<Bits>, right: &Vec<Bits>)
        requires
            old(self).display_samples * 4 <= usize::MAX,
        ensures
            advanced(*old(self), *final(self), left@, right@),
    {
        let limit: usize = self.display_samples * 4;
        extend_newest(&mut self.accum_left, left, limit);
        extend_newest(&mut self.accum_right, right, limit);
        if self.accum_left.len() >= self.display_samples {
            let start: usize = if self.trigger_enabled {
                find_trigger_point(&self.accum_left, self.trigger_level)
            } else {
                0
            };
            self.left_buffer = copy_window(&self.accum_left, start, self.display_samples);
            self.right_buffer = copy_window(&self.accum_right, start, self.display_samples);
        }
    }

    /// Sets how many samples are displayed: `wanted`, kept between 64 and 8192.
    pub fn set_display_samples(&mut self, wanted: usize)
        ensures
            *final(self) == (OscilloscopeState {
                display_samples: if wanted < 64 {
                    64
                } else if wanted > 8192 {
                    8192
                } else {
                    wanted
                },
                ..*old(self)
            }),
    {
        self.display_samples =
        if wanted < 64 {
            64
        } else if wanted > 8192 {
            8192
        } else {
            wanted
        };
    }
}

/// A trigger point other than the start is a rising edge, and none comes before it.
pub proof fn law_trigger_is_the_first_rising_edge(
    samples: Seq<Bits>,
    level: Bits,
    from: nat,
    other: int,
)
    requires
        1 <= from,
    ensures
        ({
            let at = trigger_point(samples, level, from);
            &&& at != 0 ==> from <= at && at + 1 < samples.len() && crosses(
                samples,
                level,
                at as int,
            )
            &&& at != 0 && from <= other < at ==> !crosses(samples, level, other)
            &&& at == 0 && from <= other && other + 1 < samples.len() ==> !crosses(
                samples,
                level,
                other,
            )
        }),
    decreases samples.len() - from,
{
    if from + 1 < samples.len() && !crosses(samples, level, from as int) {
        law_trigger_is_the_first_rising_edge(samples, level, from + 1, other);
    }
}

/// The display never shows more than was asked for, and it shows a stretch of the
/// signal without gaps.
pub proof fn law_display_is_a_stretch(accumulated: Seq<Bits>, start: nat, n: nat, i: int)
    ensures
        window(accumulated, start, n).len() <= n,
        0 <= i < window(accumulated, start, n).len() ==> window(accumulated, start, n)[i]
            == accumulated[start + i],
{
}

/// The signal rises through a level where a sample lies above it and the one before does
/// not. The display starts at the trigger point, and at the start where triggering is
/// switched off.
pub proof fn law_display_starts_at_the_trigger(
    samples: Seq<Bits>,
    level: Bits,
    enabled: bool,
    i: int,
)
    ensures
        crosses(samples, level, i) <==> le(samples[i - 1], level) && lt(level, samples[i]),
        enabled ==> display_start(samples, enabled, level) == trigger_point(samples, level, 1),
        !enabled ==> display_start(samples, enabled, level) == 0,
{
}

/// What new samples do to the oscilloscope: of both channels the newest samples are kept,
/// four times as many as are displayed; once the left one has as many as are displayed,
/// both are displayed from the same start on; and no setting changes.
pub proof fn law_oscilloscope_follows_the_signal(
    before: OscilloscopeState,
    after: OscilloscopeState,
    left: Seq<Bits>,
    right: Seq<Bits>,
    i: int,
)
    requires
        advanced(before, after, left, right),
    ensures
        ({
            let limit = before.display_samples * 4;
            let stream = before.accum_left@ + left;
            let other = before.accum_right@ + right;
            let kept = if stream.len() < limit {
                stream.len() as int
            } else {
                limit
            };
            let other_kept = if other.len() < limit {
                other.len() as int
            } else {
                limit
            };
            let start = display_start(
                after.accum_left@,
                before.trigger_enabled,
                before.trigger_level,
            );
            &&& after.accum_left@ == stream.skip(stream.len() - kept)
            &&& after.accum_right@ == other.skip(other.len() - other_kept)
            &&& kept < before.display_samples ==> after.left_buffer@ == before.left_buffer@
                && after.right_buffer@ == before.right_buffer@
            &&& kept >= before.display_samples ==> {
                &&& after.left_buffer@.len() <= before.display_samples
                &&& after.left_buffer@.len() < before.display_samples ==> start
                    + after.left_buffer@.len() >= after.accum_left@.len()
                &&& after.right_buffer@.len() <= before.display_samples
                &&& after.right_buffer@.len() < before.display_samples ==> start
                    + after.right_buffer@.len() >= after.accum_right@.len()
                &&& 0 <= i < after.left_buffer@.len() ==> after.left_buffer@[i]
                    == after.accum_left@[start + i]
                &&& 0 <= i < after.right_buffer@.len() ==> after.right_buffer@[i]
                    == after.accum_right@[start + i]
            }
            &&& after.display_samples == before.display_samples
            &&& after.vertical_scale == before.vertical_scale
            &&& after.trigger_level == before.trigger_level
            &&& after.trigger_enabled == before.trigger_enabled
            &&& after.sample_rate == before.sample_rate
        }),
{
    let stream = before.accum_left@ + left;
    let other = before.accum_right@ + right;
    assert(stream.skip(0) =~= stream);
    assert(other.skip(0) =~= other);
}

/// A new oscilloscope is empty, shows 2048 samples at 44100 Hz, and is triggered at zero.
pub proof fn law_new_oscilloscope_is_empty(o: OscilloscopeState)
    requires
        fresh_scope(o),
    ensures
        o.left_buffer@.len() == 0,
        o.right_buffer@.len() == 0,
        o.accum_left@.len() == 0,
        o.accum_right@.len() == 0,
        o.display_samples == 2048,
        o.vertical_scale == 0x3f80_0000,
        o.trigger_level == 0,
        o.trigger_enabled,
        o.sample_rate == 0x472c_4400,
{
}

} // verus!
