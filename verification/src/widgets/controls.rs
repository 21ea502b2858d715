//! What the user's actions do to a widget, and the fading value tooltip.
use std::time::Instant;
use vstd::prelude::*;

use crate::bits::{clamp, clamped, is_lt, is_same, le, lt, same, Bits, ONE, ZERO};
use crate::clock::now;
use crate::widgets::tree::{
    BoolParamLayout, BoxLayout, Choices, NumParamStyle, Widget,
};
use crate::widgets::voices::with_zone;

verus! {

/// Whether a switch is on: any value but zero.
pub open spec fn switched_on(zone: Bits) -> bool {
    !same(zone, ZERO)
}

/// The value of a switch.
pub open spec fn switch_value(on: bool) -> Bits {
    if on {
        ONE
    } else {
        ZERO
    }
}

/// Whether a switch is on.
pub fn is_on(zone: Bits) -> (r: bool)
    ensures
        r == switched_on(zone),
{
    !is_same(zone, ZERO)
}

/// The chosen option after the choices were brought in line with the parameter's
/// value: the chosen one where it has that value, else the first that is close to
/// it, else the chosen one.
pub open spec fn aligned(choices: Choices, zone: Bits, close: Seq<bool>) -> usize {
    if choices.selected < choices.options@.len() && same(
        choices.options@[choices.selected as int].1,
        zone,
    ) {
        choices.selected
    } else if first_set(close, 0) < close.len() {
        first_set(close, 0) as usize
    } else {
        choices.selected
    }
}

/// The first place from `from` on that is set; the length where there is none.
pub open spec fn first_set(flags: Seq<bool>, from: int) -> int
    decreases flags.len() - from,
{
    if from >= flags.len() {
        flags.len() as int
    } else if flags[from] {
        from
    } else {
        first_set(flags, from + 1)
    }
}

/// The first set place, by its properties.
proof fn lemma_first_set(flags: Seq<bool>, from: int, at: int)
    requires
        0 <= from <= at <= flags.len(),
        at < flags.len() ==> flags[at],
        forall|k: int| from <= k < at ==> !flags[k],
    ensures
        first_set(flags, from) == at,
    decreases at - from,
{
    if from < at {
        lemma_first_set(flags, from + 1, at);
    }
}

/// Brings the chosen option in line with the parameter's value, for example after
/// a preset was loaded. `close` says of every option whether its value is close to
/// the parameter's.
pub fn align_choice(choices: &Choices, zone: Bits, close: &Vec<bool>) -> (r: usize)
    ensures
        r == aligned(*choices, zone, close@),
{
    if choices.selected < choices.options.len() && is_same(
        choices.options[choices.selected].1,
        zone,
    ) {
        return choices.selected;
    }
    let mut i: usize = 0;
    while i < close.len()
        invariant
            i <= close@.len(),
            !(choices.selected < choices.options@.len() && same(
                choices.options@[choices.selected as int].1,
                zone,
            )),
            forall|k: int| 0 <= k < i ==> !close@[k],
        decreases close@.len() - i,
    {
        if close[i] {
            proof {
                lemma_first_set(close@, 0, i as int);
            }
            return i;
        }
        i = i + 1;
    }
    proof {
        lemma_first_set(close@, 0, i as int);
    }
    choices.selected
}

/// A choice parameter with another option chosen.
pub open spec fn with_choice(w: Widget, selected: usize) -> Widget {
    match w {
        Widget::NumParam { layout, style, label, zone, min, max, step, init, metadata } => match style {
            NumParamStyle::Menu(c) => if selected < c.options@.len() {
                Widget::NumParam {
                    layout,
                    style: NumParamStyle::Menu(Choices { options: c.options, selected }),
                    label,
                    zone: c.options@[selected as int].1,
                    min,
                    max,
                    step,
                    init,
                    metadata,
                }
            } else {
                w
            },
            NumParamStyle::Radio(c) => if selected < c.options@.len() {
                Widget::NumParam {
                    layout,
                    style: NumParamStyle::Radio(Choices { options: c.options, selected }),
                    label,
                    zone: c.options@[selected as int].1,
                    min,
                    max,
                    step,
                    init,
                    metadata,
                }
            } else {
                w
            },
            _ => w,
        },
        _ => w,
    }
}

/// What the user does to a widget.
#[derive(Clone, Copy, Debug)]
pub enum Action {
    /// A held switch goes down.
    Press,
    /// A held switch comes up.
    Release,
    /// A checkbox shows this state.
    Check(bool),
    /// A knob is dragged or scrolled to this value, or a slider or an entry field shows
    /// it.
    Turn(Bits),
    /// The label or the knob is clicked twice.
    Reset,
    /// An option of a menu or a row of radio buttons is shown as chosen.
    Choose(usize),
    /// The button of a tab is clicked.
    SelectTab(usize),
}

/// The bit pattern of `0.1`, a tenth of the speed.
pub const FINE_SENSITIVITY: u32 = 0x3dcc_cccd;

/// By how much a movement over a knob is scaled: while the shift key is held, to a tenth.
pub fn drag_sensitivity(shift: bool) -> (r: Bits)
    ensures
        r == (if shift {
            FINE_SENSITIVITY
        } else {
            ONE
        }),
        r == (if shift {
            0x3dcc_cccdu32
        } else {
            0x3f80_0000u32
        }),
{
    if shift {
        FINE_SENSITIVITY
    } else {
        ONE
    }
}

/// A widget after an action. A knob is held in its range; a slider or an entry field
/// keeps its own range, so that what it shows is taken as it is. An action that the
/// widget does not know changes nothing, nor does an option or a tab that is not there.
pub open spec fn acted(w: Widget, action: Action) -> Widget {
    match action {
        Action::Press => if w matches Widget::BoolParam { layout: BoolParamLayout::Held, .. } {
            with_zone(w, ONE)
        } else {
            w
        },
        Action::Release => if w matches Widget::BoolParam { layout: BoolParamLayout::Held, .. } {
            with_zone(w, ZERO)
        } else {
            w
        },
        Action::Check(on) => if w matches Widget::BoolParam {
            layout: BoolParamLayout::Checkbox,
            ..
        } {
            with_zone(w, switch_value(on))
        } else {
            w
        },
        Action::Turn(value) => match w {
            Widget::NumParam { style: NumParamStyle::Knob, min, max, .. } => with_zone(
                w,
                clamped(value, min, max),
            ),
            Widget::NumParam { style: NumParamStyle::Plain, .. } => with_zone(w, value),
            _ => w,
        },
        Action::Reset => match w {
            Widget::NumParam { init, .. } => with_zone(w, init),
            _ => w,
        },
        Action::Choose(i) => with_choice(w, i),
        Action::SelectTab(i) => match w {
            Widget::Group { layout: BoxLayout::Tab { .. }, label, inner } => if i < inner@.len() {
                Widget::Group { layout: BoxLayout::Tab { selected: i }, label, inner }
            } else {
                w
            },
            _ => w,
        },
    }
}

impl Widget {
    /// Carries out what the user does to a widget.
    pub fn act(&mut self, action: Action)
        requires
            action is Turn ==> (*old(self) matches Widget::NumParam {
                style: NumParamStyle::Knob,
                min,
                max,
                ..
            } ==> le(min, max)),
        ensures
            *final(self) == acted(*old(self), action),
    {
        match self {
            Widget::BoolParam { layout, zone, .. } => {
                match (*layout, action) {
                    (BoolParamLayout::Held, Action::Press) => {
                        *zone = ONE;
                    },
                    (BoolParamLayout::Held, Action::Release) => {
                        *zone = ZERO;
                    },
                    (BoolParamLayout::Checkbox, Action::Check(on)) => {
                        *zone =
                        if on {
                            ONE
                        } else {
                            ZERO
                        };
                    },
                    _ => {},
                }
            },
            Widget::NumParam { style, zone, min, max, init, .. } => {
                match action {
                    Action::Turn(value) => {
                        match style {
                            NumParamStyle::Knob => {
                                *zone = clamp(value, *min, *max);
                            },
                            NumParamStyle::Plain => {
                                *zone = value;
                            },
                            _ => {},
                        }
                    },
                    Action::Reset => {
                        *zone = *init;
                    },
                    Action::Choose(i) => {
                        match style {
                            NumParamStyle::Menu(choices) => {
                                if i < choices.options.len() {
                                    choices.selected = i;
                                    *zone = choices.options[i].1;
                                }
                            },
                            NumParamStyle::Radio(choices) => {
                                if i < choices.options.len() {
                                    choices.selected = i;
                                    *zone = choices.options[i].1;
                                }
                            },
                            _ => {},
                        }
                    },
                    _ => {},
                }
            },
            Widget::Group { layout, inner, .. } => {
                match (*layout, action) {
                    (BoxLayout::Tab { .. }, Action::SelectTab(i)) => {
                        if i < inner.len() {
                            *layout = BoxLayout::Tab { selected: i };
                        }
                    },
                    _ => {},
                }
            },
            Widget::NumDisplay { .. } => {},
        }
    }
}

/// State for fade-out animations.
#[derive(Clone, Copy)]
pub struct FadeState {
    last_trigger: Option<Instant>,
}

/// Where a fade-out stands.
#[derive(Clone, Copy, Debug, PartialEq, Eq, Structural)]
pub enum FadePhase {
    /// Fully shown.
    Held,
    /// Fading.
    Fading,
    /// Gone.
    Over,
}

/// The phase of a fade-out that started `elapsed` ago, is held for `hold` and is
/// gone at `end`.
pub open spec fn phase(elapsed: Bits, hold: Bits, end: Bits) -> FadePhase {
    if lt(elapsed, hold) {
        FadePhase::Held
    } else if lt(elapsed, end) {
        FadePhase::Fading
    } else {
        FadePhase::Over
    }
}

impl FadeState {
    /// The last trigger.
    pub closed spec fn triggered_at(self) -> Option<Instant> {
        self.last_trigger
    }

    /// A state that was never triggered.
    pub fn new() -> (r: Self)
        ensures
            r.triggered_at() is None,
    {
        FadeState { last_trigger: None }
    }

    /// Starts the animation anew, now.
    pub fn trigger(&mut self)
        ensures
            final(self).triggered_at() is Some,
    {
        self.trigger_at(now());
    }

    /// Starts the animation anew at the given point in time.
    pub fn trigger_at(&mut self, at: Instant)
        ensures
            final(self).triggered_at() == Some(at),
    {
        self.last_trigger = Some(at);
    }

    /// The last trigger.
    pub fn last_trigger(&self) -> (r: Option<Instant>)
        ensures
            r == self.triggered_at(),
    {
        self.last_trigger
    }

    /// Where the animation stands `elapsed` seconds after its last trigger, when
    /// it is held for `hold` seconds and gone at `end` seconds; `None` where it
    /// was never triggered or is over.
    pub fn fade(&self, elapsed: Bits, hold: Bits, end: Bits) -> (r: Option<FadePhase>)
        ensures
            r == (if self.triggered_at() is None || phase(elapsed, hold, end) == FadePhase::Over {
                None
            } else {
                Some(phase(elapsed, hold, end))
            }),
    {
        if self.last_trigger.is_none() {
            None
        } else if is_lt(elapsed, hold) {
            Some(FadePhase::Held)
        } else if is_lt(elapsed, end) {
            Some(FadePhase::Fading)
        } else {
            None
        }
    }
}

impl Default for FadeState {
    fn default() -> (r: Self)
        ensures
            r.triggered_at() is None,
    {
        FadeState::new()
    }
}

/// State for the value tooltip with fade animation.
#[derive(Clone, Copy)]
pub struct TooltipState {
    pub fade: FadeState,
    pub last_value: Bits,
}

impl TooltipState {
    /// Takes note of a frame: while the user moves the control, the tooltip shows
    /// its value and the animation starts anew.
    pub fn update(&mut self, is_interacting: bool, value: Bits, at: Instant)
        ensures
            is_interacting ==> final(self).last_value == value && final(self).fade.triggered_at()
                == Some(at),
            !is_interacting ==> *final(self) == *old(self),
    {
        if is_interacting {
            self.fade.trigger_at(at);
            self.last_value = value;
        }
    }
}

impl Default for TooltipState {
    fn default() -> (r: Self)
        ensures
            r.fade.triggered_at() is None,
            r.last_value == ZERO,
    {
        TooltipState { fade: FadeState::new(), last_value: ZERO }
    }
}

/// A choice parameter never leaves its options: after an option was chosen, the
/// parameter has that option's value, and bringing the choice in line with the
/// value keeps it, whatever the other options are close to.
pub proof fn law_chosen_option_is_kept(choices: Choices, close: Seq<bool>)
    requires
        choices.selected < choices.options@.len(),
        !crate::bits::nan(choices.options@[choices.selected as int].1),
    ensures
        aligned(choices, choices.options@[choices.selected as int].1, close) == choices.selected,
{
}

/// A knob that the user turns stays in its range.
pub proof fn law_turned_knobs_are_in_range(w: Widget, value: Bits)
    requires
        w matches Widget::NumParam { style: NumParamStyle::Knob, min, max, .. } && le(min, max),
        !crate::bits::nan(value),
    ensures
        acted(w, Action::Turn(value)) matches Widget::NumParam { zone, min, max, .. } && le(
            min,
            zone,
        ) && le(zone, max),
{
}

/// Releasing a held switch undoes pressing it.
pub proof fn law_release_undoes_press(w: Widget)
    requires
        w matches Widget::BoolParam { layout: BoolParamLayout::Held, zone, .. } && zone == ZERO,
    ensures
        acted(acted(w, Action::Press), Action::Release) == w,
        acted(w, Action::Press) matches Widget::BoolParam { zone, .. } && switched_on(zone),
{
}

/// What the user's actions do. A held switch is 1 while it is pressed and 0 when it is
/// released; a checkbox is 1 or 0 as it shows. A knob takes the value it is turned to, or
/// the end of its range that it is turned past; a slider or an entry field takes the value
/// as it is. A double click brings a number back to its initial value. Nothing but the
/// value changes, and no other widget knows these actions.
pub proof fn law_actions_set_values(w: Widget, value: Bits, on: bool)
    ensures
        match w {
            Widget::BoolParam { layout: BoolParamLayout::Held, .. } => {
                &&& acted(w, Action::Press) == with_zone(w, 0x3f80_0000)
                &&& acted(w, Action::Release) == with_zone(w, 0)
                &&& acted(w, Action::Check(on)) == w
            },
            Widget::BoolParam { layout: BoolParamLayout::Checkbox, .. } => {
                &&& acted(w, Action::Press) == w
                &&& acted(w, Action::Release) == w
                &&& acted(w, Action::Check(true)) == with_zone(w, 0x3f80_0000)
                &&& acted(w, Action::Check(false)) == with_zone(w, 0)
            },
            _ => acted(w, Action::Press) == w && acted(w, Action::Release) == w && acted(
                w,
                Action::Check(on),
            ) == w,
        },
        match w {
            Widget::NumParam { style: NumParamStyle::Knob, min, max, .. } => {
                &&& lt(value, min) ==> acted(w, Action::Turn(value)) == with_zone(w, min)
                &&& !lt(value, min) && lt(max, value) ==> acted(w, Action::Turn(value))
                    == with_zone(w, max)
                &&& !lt(value, min) && !lt(max, value) ==> acted(w, Action::Turn(value))
                    == with_zone(w, value)
            },
            Widget::NumParam { style: NumParamStyle::Plain, .. } => acted(w, Action::Turn(value))
                == with_zone(w, value),
            _ => acted(w, Action::Turn(value)) == w,
        },
        match w {
            Widget::NumParam { init, .. } => acted(w, Action::Reset) == with_zone(w, init),
            _ => acted(w, Action::Reset) == w,
        },
        crate::widgets::tree::same_but_values(w, with_zone(w, value)) || w is Group,
        w is BoolParam || w is NumParam ==> crate::widgets::tree::zone_of(with_zone(w, value))
            == Some(value),
        w is Group || w is NumDisplay ==> with_zone(w, value) == w,
        switched_on(value) <==> value != 0 && value != 0x8000_0000,
{
    crate::bits::law_order_is_that_of_the_patterns(value, 0);
}

/// Choosing an option of a menu or of radio buttons marks it as chosen and gives the
/// parameter its value; selecting a tab shows it. What is not there cannot be chosen, and
/// nothing else changes.
pub proof fn law_choices_and_tabs_are_chosen(w: Widget, i: usize)
    ensures
        match w {
            Widget::NumParam {
                layout,
                style: NumParamStyle::Menu(c),
                label,
                min,
                max,
                step,
                init,
                metadata,
                zone: _,
            } if i < c.options@.len() => acted(w, Action::Choose(i)) == (Widget::NumParam {
                layout,
                style: NumParamStyle::Menu(Choices { options: c.options, selected: i }),
                label,
                zone: c.options@[i as int].1,
                min,
                max,
                step,
                init,
                metadata,
            }),
            Widget::NumParam {
                layout,
                style: NumParamStyle::Radio(c),
                label,
                min,
                max,
                step,
                init,
                metadata,
                zone: _,
            } if i < c.options@.len() => acted(w, Action::Choose(i)) == (Widget::NumParam {
                layout,
                style: NumParamStyle::Radio(Choices { options: c.options, selected: i }),
                label,
                zone: c.options@[i as int].1,
                min,
                max,
                step,
                init,
                metadata,
            }),
            _ => acted(w, Action::Choose(i)) == w,
        },
        match w {
            Widget::Group { layout: BoxLayout::Tab { .. }, label, inner } if i < inner@.len() => acted(
                w,
                Action::SelectTab(i),
            ) == (Widget::Group { layout: BoxLayout::Tab { selected: i }, label, inner }),
            _ => acted(w, Action::SelectTab(i)) == w,
        },
{
}

/// The choice that is shown for a value: the chosen option where it has the value; else
/// the first option that is close to it; else the chosen one.
pub proof fn law_shown_choice_is_near_the_value(
    choices: Choices,
    zone: Bits,
    close: Seq<bool>,
    k: int,
)
    requires
        close.len() <= usize::MAX,
    ensures
        ({
            let shown = aligned(choices, zone, close);
            let has_it = choices.selected < choices.options@.len() && same(
                choices.options@[choices.selected as int].1,
                zone,
            );
            &&& has_it ==> shown == choices.selected
            &&& !has_it && (exists|i: int| 0 <= i < close.len() && close[i]) ==> shown < close.len()
                && close[shown as int] && (0 <= k < shown ==> !close[k])
            &&& (forall|i: int| 0 <= i < close.len() ==> !close[i]) ==> shown == choices.selected
        }),
{
    lemma_first_set_is_first(close, 0, k);
    if exists|i: int| 0 <= i < close.len() && close[i] {
        let i = choose|i: int| 0 <= i < close.len() && close[i];
        lemma_first_set_is_first(close, 0, i);
    }
}

/// The first set place is set, and none before it is.
proof fn lemma_first_set_is_first(flags: Seq<bool>, from: int, k: int)
    requires
        0 <= from <= flags.len(),
    ensures
        from <= first_set(flags, from) <= flags.len(),
        first_set(flags, from) < flags.len() ==> flags[first_set(flags, from)],
        from <= k < first_set(flags, from) ==> !flags[k],
    decreases flags.len() - from,
{
    if from < flags.len() && !flags[from] {
        lemma_first_set_is_first(flags, from + 1, k);
    }
}

/// A fade-out is held before `hold`, fades before `end`, and is over from then on.
pub proof fn law_fades_go_through_their_phases(elapsed: Bits, hold: Bits, end: Bits)
    ensures
        phase(elapsed, hold, end) == FadePhase::Held <==> lt(elapsed, hold),
        phase(elapsed, hold, end) == FadePhase::Fading <==> !lt(elapsed, hold) && lt(elapsed, end),
        phase(elapsed, hold, end) == FadePhase::Over <==> !lt(elapsed, hold) && !lt(elapsed, end),
{
}

} // verus!
