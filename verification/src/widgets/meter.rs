//! Level meters: the colour state with its clip hold, and the segments of a bar.
use vstd::prelude::*;

use crate::bits::{clamp, clamped, is_le, is_lt, le, lt, min, nan, smaller, Bits, ONE, ZERO};

verus! {

/// A colour by its red, green and blue parts.
#[derive(Clone, Copy, Debug, PartialEq, Eq, Structural)]
pub struct Rgb {
    pub r: u8,
    pub g: u8,
    pub b: u8,
}

/// Meter color state for VU meter visualization.
#[derive(Clone, Copy, Debug, PartialEq, Eq, Structural)]
pub enum MeterColorState {
    /// Green (0-80%).
    Normal,
    /// Orange (80-100%).
    Warn,
    /// Red (>100%).
    Clip,
}

impl Default for MeterColorState {
    fn default() -> (r: Self)
        ensures
            r == MeterColorState::Normal,
    {
        MeterColorState::Normal
    }
}

/// The bit pattern of `0.8`, where a meter starts to warn.
pub const WARN_THRESHOLD: u32 = 0x3f4c_cccd;

/// For how many updates a meter shows that it clipped.
pub const CLIP_HOLD_FRAMES: u8 = 10;

/// The bit pattern of `0.7`, where the green part of a bar ends.
pub const GREEN_END: u32 = 0x3f33_3333;

/// The bit pattern of `0.9`, where the orange part of a bar ends.
pub const ORANGE_END: u32 = 0x3f66_6666;

/// State machine for meter display with peak hold and clip indication.
#[derive(Clone, Copy, Debug)]
pub struct MeterState {
    clip_frames_remaining: u8,
    current_state: MeterColorState,
    peak_hold: Bits,
}

/// The state of a meter.
pub struct Meter {
    pub clip_frames: nat,
    pub color: MeterColorState,
    pub peak: Bits,
}

impl View for MeterState {
    type V = Meter;

    closed spec fn view(&self) -> Meter {
        Meter {
            clip_frames: self.clip_frames_remaining as nat,
            color: self.current_state,
            peak: self.peak_hold,
        }
    }
}

/// The colour in which a state is shown.
pub open spec fn color_of(state: MeterColorState) -> Rgb {
    match state {
        MeterColorState::Normal => Rgb { r: 0, g: 180, b: 0 },
        MeterColorState::Warn => Rgb { r: 255, g: 165, b: 0 },
        MeterColorState::Clip => Rgb { r: 255, g: 0, b: 0 },
    }
}

/// The peak after an update: the new value where it is above the old peak, else
/// the old peak decayed.
pub open spec fn next_peak(peak: Bits, value: Bits, decayed: Bits) -> Bits {
    if lt(peak, value) {
        value
    } else {
        decayed
    }
}

/// A meter whose peak has just moved to `peak`.
///
/// A peak above one clips: the red state is taken up and held for
/// `CLIP_HOLD_FRAMES` updates, this one included. While it is held a lower peak
/// changes nothing; after that the colour follows the peak again.
pub open spec fn next_meter(m: Meter, peak: Bits) -> Meter {
    if lt(ONE, peak) {
        Meter { clip_frames: (CLIP_HOLD_FRAMES - 1) as nat, color: MeterColorState::Clip, peak }
    } else if m.clip_frames > 0 {
        Meter {
            clip_frames: (m.clip_frames - 1) as nat,
            color: if le(WARN_THRESHOLD, peak) && m.color != MeterColorState::Clip {
                MeterColorState::Warn
            } else {
                m.color
            },
            peak,
        }
    } else {
        Meter {
            clip_frames: 0,
            color: if le(WARN_THRESHOLD, peak) {
                MeterColorState::Warn
            } else if m.color == MeterColorState::Clip || lt(peak, WARN_THRESHOLD) {
                MeterColorState::Normal
            } else {
                m.color
            },
            peak,
        }
    }
}

impl MeterState {
    /// A meter at rest.
    pub fn new() -> (r: Self)
        ensures
            r@ == (Meter { clip_frames: 0, color: MeterColorState::Normal, peak: ZERO }),
    {
        MeterState {
            clip_frames_remaining: 0,
            current_state: MeterColorState::Normal,
            peak_hold: ZERO,
        }
    }

    /// Shows a value and returns the colour to show it in. `decayed` is the peak
    /// that is held so far, after one step of decay.
    pub fn update(&mut self, normalized_value: Bits, decayed: Bits) -> (r: Rgb)
        ensures
            final(self)@ == next_meter(
                old(self)@,
                next_peak(old(self)@.peak, normalized_value, decayed),
            ),
            r == color_of(final(self)@.color),
    {
        if is_lt(self.peak_hold, normalized_value) {
            self.peak_hold = normalized_value;
        } else {
            self.peak_hold = decayed;
        }
        if is_lt(ONE, self.peak_hold) {
            self.current_state = MeterColorState::Clip;
            self.clip_frames_remaining = CLIP_HOLD_FRAMES;
        } else if is_le(WARN_THRESHOLD, self.peak_hold) {
            if self.current_state != MeterColorState::Clip {
                self.current_state = MeterColorState::Warn;
            }
        }
        if self.clip_frames_remaining > 0 {
            self.clip_frames_remaining = self.clip_frames_remaining - 1;
        } else if self.current_state == MeterColorState::Clip {
            self.current_state =
            if is_le(WARN_THRESHOLD, self.peak_hold) {
                MeterColorState::Warn
            } else {
                MeterColorState::Normal
            };
        } else if self.current_state == MeterColorState::Warn && is_lt(
            self.peak_hold,
            WARN_THRESHOLD,
        ) {
            self.current_state = MeterColorState::Normal;
        }
        match self.current_state {
            MeterColorState::Normal => Rgb { r: 0, g: 180, b: 0 },
            MeterColorState::Warn => Rgb { r: 255, g: 165, b: 0 },
            MeterColorState::Clip => Rgb { r: 255, g: 0, b: 0 },
        }
    }

    /// The peak that is held.
    pub fn get_display_value(&self) -> (r: Bits)
        ensures
            r == self@.peak,
    {
        self.peak_hold
    }

    /// Whether the meter still shows that it clipped.
    pub fn is_clipping(&self) -> (r: bool)
        ensures
            r == (self@.clip_frames > 0),
    {
        self.clip_frames_remaining > 0
    }
}

impl Default for MeterState {
    fn default() -> (r: Self)
        ensures
            r@ == (Meter { clip_frames: 0, color: MeterColorState::Normal, peak: ZERO }),
    {
        MeterState::new()
    }
}

/// Standard meter colors: green, orange and red.
pub fn meter_colors() -> (r: (Rgb, Rgb, Rgb))
    ensures
        r.0 == (Rgb { r: 80, g: 200, b: 120 }),
        r.1 == (Rgb { r: 255, g: 180, b: 0 }),
        r.2 == (Rgb { r: 255, g: 80, b: 80 }),
{
    (Rgb { r: 80, g: 200, b: 120 }, Rgb { r: 255, g: 180, b: 0 }, Rgb { r: 255, g: 80, b: 80 })
}

/// How far a bar is filled: not at all where the level is not above zero, and else up
/// to the scaled peak, kept between zero and one.
pub fn bar_level(raw: Bits, scaled_peak: Bits) -> (r: Bits)
    ensures
        r == (if lt(ZERO, raw) {
            clamped(scaled_peak, ZERO, ONE)
        } else {
            ZERO
        }),
{
    if is_lt(ZERO, raw) {
        clamp(scaled_peak, ZERO, ONE)
    } else {
        ZERO
    }
}

/// A part of a bar, from one fraction of its length to another.
#[derive(Clone, Copy, Debug, PartialEq, Eq, Structural)]
pub struct Segment {
    pub from: Bits,
    pub to: Bits,
    pub color: Rgb,
}

/// The parts of a bar that is filled up to `t`: green first, then orange, then
/// red, each as far as the bar is filled.
pub open spec fn segments(t: Bits) -> Seq<Segment> {
    let green = Segment {
        from: ZERO,
        to: smaller(t, GREEN_END),
        color: Rgb { r: 80, g: 200, b: 120 },
    };
    let orange = Segment {
        from: GREEN_END,
        to: smaller(t, ORANGE_END),
        color: Rgb { r: 255, g: 180, b: 0 },
    };
    let red = Segment { from: ORANGE_END, to: t, color: Rgb { r: 255, g: 80, b: 80 } };
    if lt(ORANGE_END, t) {
        seq![green, orange, red]
    } else if lt(GREEN_END, t) {
        seq![green, orange]
    } else if lt(ZERO, t) {
        seq![green]
    } else {
        Seq::empty()
    }
}

/// The parts of a bar that is filled up to `t`.
pub fn bar_segments(t: Bits) -> (r: Vec<Segment>)
    ensures
        r@ == segments(t),
{
    let (green, orange, red) = meter_colors();
    let mut r: Vec<Segment> = Vec::new();
    if is_lt(ZERO, t) {
        r.push(Segment { from: ZERO, to: min(t, GREEN_END), color: green });
    }
    if is_lt(GREEN_END, t) {
        r.push(Segment { from: GREEN_END, to: min(t, ORANGE_END), color: orange });
    }
    if is_lt(ORANGE_END, t) {
        r.push(Segment { from: ORANGE_END, to: t, color: red });
    }
    assert(r@ =~= segments(t));
    r
}

/// The segments of a bar fill it from the start up to `t` without a gap.
pub proof fn law_segments_fill_the_bar(t: Bits)
    requires
        lt(ZERO, t),
    ensures
        segments(t).len() > 0,
        segments(t)[0].from == ZERO,
        segments(t).last().to == t,
        forall|i: int|
            0 <= i < segments(t).len() - 1 ==> (#[trigger] segments(t)[i]).to == segments(t)[i
                + 1].from,
        forall|i: int|
            0 <= i < segments(t).len() ==> lt(
                (#[trigger] segments(t)[i]).from,
                segments(t)[i].to,
            ),
{
}

/// The state of a meter after several updates that move the peak to the given
/// values, one after the other.
pub open spec fn meter_after(m: Meter, peaks: Seq<Bits>) -> Meter
    decreases peaks.len(),
{
    if peaks.len() == 0 {
        m
    } else {
        next_meter(meter_after(m, peaks.drop_last()), peaks.last())
    }
}

/// A clip is shown for `CLIP_HOLD_FRAMES` updates, the one that clips included,
/// however low the level falls in the meantime, and no longer: at the update after
/// that, the colour follows the level again.
pub proof fn law_clip_is_held(m: Meter, clip: Bits, peaks: Seq<Bits>)
    requires
        lt(ONE, clip),
        forall|i: int| 0 <= i < peaks.len() ==> le(#[trigger] peaks[i], ONE),
        peaks.len() <= CLIP_HOLD_FRAMES,
    ensures
        peaks.len() < CLIP_HOLD_FRAMES ==> {
            &&& meter_after(next_meter(m, clip), peaks).color == MeterColorState::Clip
            &&& meter_after(next_meter(m, clip), peaks).clip_frames == CLIP_HOLD_FRAMES - 1
                - peaks.len()
        },
        peaks.len() == CLIP_HOLD_FRAMES ==> meter_after(next_meter(m, clip), peaks).color == (if le(
            WARN_THRESHOLD,
            peaks.last(),
        ) {
            MeterColorState::Warn
        } else {
            MeterColorState::Normal
        }),
    decreases peaks.len(),
{
    if peaks.len() > 0 {
        let rest = peaks.drop_last();
        assert forall|i: int| 0 <= i < rest.len() implies le(#[trigger] rest[i], ONE) by {
            assert(le(peaks[i], ONE));
        }
        law_clip_is_held(m, clip, rest);
        assert(le(peaks[peaks.len() - 1], ONE));
    }
}

/// The state of a meter after several updates, each with the value shown and the
/// decayed peak.
pub open spec fn updated(m: Meter, calls: Seq<(Bits, Bits)>) -> Meter
    decreases calls.len(),
{
    if calls.len() == 0 {
        m
    } else {
        let before = updated(m, calls.drop_last());
        next_meter(before, next_peak(before.peak, calls.last().0, calls.last().1))
    }
}

/// Red stands for a clip, orange for 80 to 100 percent, green for less: whatever
/// values a new meter has shown, as long as the decayed peaks are numbers, it is red
/// while it clips and where the peak is above one, orange only for a peak from 0.8 to
/// one, and green only for a peak below 0.8.
pub proof fn law_color_follows_the_level(calls: Seq<(Bits, Bits)>)
    requires
        calls.len() > 0,
        forall|i: int| 0 <= i < calls.len() ==> !nan((#[trigger] calls[i]).1),
    ensures
        ({
            let start = Meter { clip_frames: 0, color: MeterColorState::Normal, peak: ZERO };
            let m = updated(start, calls);
            &&& m.clip_frames > 0 ==> m.color == MeterColorState::Clip
            &&& lt(ONE, m.peak) ==> m.color == MeterColorState::Clip && m.clip_frames > 0
            &&& m.color == MeterColorState::Warn ==> le(WARN_THRESHOLD, m.peak) && le(m.peak, ONE)
            &&& m.color == MeterColorState::Normal ==> lt(m.peak, WARN_THRESHOLD)
            &&& !nan(m.peak)
        }),
    decreases calls.len(),
{
    let start = Meter { clip_frames: 0, color: MeterColorState::Normal, peak: ZERO };
    let rest = calls.drop_last();
    assert(!nan(calls[calls.len() - 1].1));
    if rest.len() > 0 {
        assert forall|i: int| 0 <= i < rest.len() implies !nan((#[trigger] rest[i]).1) by {
            assert(!nan(calls[i].1));
        }
        law_color_follows_the_level(rest);
    } else {
        assert(updated(start, rest) == start);
    }
}

/// A peak rises to a higher value at once and else decays; the three states are shown in
/// green, orange and red; a meter warns from 0.8, and a clip is held for ten updates.
pub proof fn law_peaks_rise_at_once(peak: Bits, value: Bits, decayed: Bits)
    ensures
        lt(peak, value) ==> next_peak(peak, value, decayed) == value,
        !lt(peak, value) ==> next_peak(peak, value, decayed) == decayed,
        color_of(MeterColorState::Normal) == (Rgb { r: 0, g: 180, b: 0 }),
        color_of(MeterColorState::Warn) == (Rgb { r: 255, g: 165, b: 0 }),
        color_of(MeterColorState::Clip) == (Rgb { r: 255, g: 0, b: 0 }),
        WARN_THRESHOLD == 0x3f4c_cccd,
        CLIP_HOLD_FRAMES == 10,
{
}

/// Red is for a clip and what follows it: a peak above one turns a meter red and starts the
/// hold, with nine more updates to come; each of them without another clip takes one off;
/// with none left, a peak of at most one is shown in orange from 0.8 on and else in green.
pub proof fn law_red_is_for_clips(m: Meter, peak: Bits)
    ensures
        ({
            let after = next_meter(m, peak);
            &&& after.peak == peak
            &&& lt(0x3f80_0000, peak) ==> after.color == MeterColorState::Clip && after.clip_frames
                == 9
            &&& le(peak, 0x3f80_0000) && m.clip_frames > 0 ==> after.clip_frames == m.clip_frames
                - 1 && (m.color == MeterColorState::Clip ==> after.color == MeterColorState::Clip)
            &&& le(peak, 0x3f80_0000) && m.clip_frames == 0 ==> after.clip_frames == 0
                && after.color == (if le(0x3f4c_cccd, peak) {
                MeterColorState::Warn
            } else {
                MeterColorState::Normal
            })
        }),
{
}

/// Every point of a bar has the colour of its place: green up to 0.7, orange up to 0.9,
/// red behind that.
pub proof fn law_bars_are_coloured_by_place(t: Bits, x: Bits, i: int)
    requires
        0 <= i < segments(t).len(),
        lt(segments(t)[i].from, x),
        le(x, segments(t)[i].to),
    ensures
        le(x, t),
        le(x, 0x3f33_3333) ==> segments(t)[i].color == (Rgb { r: 80, g: 200, b: 120 }),
        lt(0x3f33_3333, x) && le(x, 0x3f66_6666) ==> segments(t)[i].color == (Rgb {
            r: 255,
            g: 180,
            b: 0,
        }),
        lt(0x3f66_6666, x) ==> segments(t)[i].color == (Rgb { r: 255, g: 80, b: 80 }),
{
}

/// A bar that is filled not at all has no parts.
pub proof fn law_empty_bars_have_no_parts(t: Bits)
    requires
        !lt(0, t),
    ensures
        segments(t).len() == 0,
{
}

} // verus!
