//! Which widgets are drawn, and how.
//!
//! A plan is the list of drawing steps for a list of widgets. The steps that open
//! something are matched by `Close`, so the caller can draw by walking the plan and
//! the widget tree side by side; `index` is the widget's place among its siblings.
use vstd::prelude::*;

use crate::widgets::tree::{
    label_of, widget_at, BoxLayout, NumDisplayLayout, NumDisplayStyle, NumParamLayout,
    NumParamStyle, Widget, WidgetScale,
};
use crate::widgets::voices::{should_skip, should_unwrap, skipped, unwrapped};

verus! {

/// The control of a numerical parameter.
#[derive(Clone, Copy, Debug, PartialEq, Eq, Structural)]
pub enum NumControl {
    Knob,
    Menu,
    Radio { vertical: bool },
    Entry,
    Slider { vertical: bool, logarithmic: bool },
}

/// The look of a numerical display.
#[derive(Clone, Copy, Debug, PartialEq, Eq, Structural)]
pub enum DisplayView {
    Led,
    Numerical,
    Bar { vertical: bool },
}

/// A drawing step.
#[derive(Clone, Copy, Debug, PartialEq, Eq, Structural)]
pub enum Step {
    /// The children of this group are drawn in its place, until `Close`.
    Unwrap { index: usize },
    /// A row of buttons and below it the selected child, until `Close`.
    Tabs { index: usize },
    /// The children of this group, under a header or without one, until `Close`.
    Group { index: usize, headed: bool },
    /// The end of what was opened last.
    Close,
    Switch { index: usize },
    Number { index: usize, control: NumControl },
    Display { index: usize, view: DisplayView },
}

/// The control of a numerical parameter. Knobs, menus and radio buttons are drawn
/// in any layout; logarithmic and exponential scales share the logarithmic slider.
pub open spec fn control_of(
    layout: NumParamLayout,
    style: NumParamStyle,
    scale: WidgetScale,
) -> NumControl {
    match style {
        NumParamStyle::Knob => NumControl::Knob,
        NumParamStyle::Menu(_) => NumControl::Menu,
        NumParamStyle::Radio(_) => NumControl::Radio {
            vertical: layout == NumParamLayout::VerticalSlider,
        },
        NumParamStyle::Plain => if layout == NumParamLayout::NumEntry {
            NumControl::Entry
        } else {
            NumControl::Slider {
                vertical: layout == NumParamLayout::VerticalSlider,
                logarithmic: scale != WidgetScale::Lin,
            }
        },
    }
}

/// The look of a numerical display.
pub open spec fn view_of(layout: NumDisplayLayout, style: NumDisplayStyle) -> DisplayView {
    match style {
        NumDisplayStyle::Led => DisplayView::Led,
        NumDisplayStyle::Numerical => DisplayView::Numerical,
        NumDisplayStyle::Bargraph => DisplayView::Bar {
            vertical: layout == NumDisplayLayout::Vertical,
        },
    }
}

/// The steps for a list of widgets.
pub open spec fn steps(ws: Seq<Widget>, in_a_tab: bool) -> Seq<Step>
    decreases ws,
{
    if ws.len() == 0 {
        Seq::empty()
    } else {
        steps(ws.drop_last(), in_a_tab) + steps_of(ws.last(), (ws.len() - 1) as usize, in_a_tab)
    }
}

/// The steps for one widget. Hidden groups and hidden parameters have none; the
/// header of a group is left out directly inside a tab and where it has no label.
pub open spec fn steps_of(w: Widget, index: usize, in_a_tab: bool) -> Seq<Step>
    decreases w,
{
    match w {
        Widget::Group { layout, label, inner } => if skipped(label@) {
            Seq::empty()
        } else if unwrapped(label@) {
            seq![Step::Unwrap { index }] + steps(inner@, in_a_tab) + seq![Step::Close]
        } else {
            match layout {
                BoxLayout::Tab { selected } => if selected < inner@.len() {
                    seq![Step::Tabs { index }] + steps_of(inner@[selected as int], selected, true)
                        + seq![Step::Close]
                } else {
                    Seq::empty()
                },
                _ => seq![Step::Group { index, headed: !in_a_tab && label@.len() > 0 }] + steps(
                    inner@,
                    false,
                ) + seq![Step::Close],
            }
        },
        Widget::BoolParam { hidden, .. } => if hidden {
            Seq::empty()
        } else {
            seq![Step::Switch { index }]
        },
        Widget::NumParam { layout, style, metadata, .. } => if metadata.hidden {
            Seq::empty()
        } else {
            seq![Step::Number { index, control: control_of(layout, style, metadata.scale) }]
        },
        Widget::NumDisplay { layout, style, metadata, .. } => if metadata.hidden {
            Seq::empty()
        } else {
            seq![Step::Display { index, view: view_of(layout, style) }]
        },
    }
}

/// Whether every tab group that is drawn has a child selected.
pub open spec fn tabs_selected(w: Widget) -> bool
    decreases w,
{
    match w {
        Widget::Group { layout, label, inner } => if skipped(label@) {
            true
        } else if unwrapped(label@) {
            all_tabs_selected(inner@)
        } else {
            match layout {
                BoxLayout::Tab { selected } => selected < inner@.len() && tabs_selected(
                    inner@[selected as int],
                ),
                _ => all_tabs_selected(inner@),
            }
        },
        _ => true,
    }
}

/// `tabs_selected`, widget by widget.
pub open spec fn all_tabs_selected(ws: Seq<Widget>) -> bool
    decreases ws,
{
    forall|i: int| 0 <= i < ws.len() ==> tabs_selected(#[trigger] ws[i])
}

/// The control of a numerical parameter.
fn num_control(layout: NumParamLayout, style: &NumParamStyle, scale: WidgetScale) -> (r: NumControl)
    ensures
        r == control_of(layout, *style, scale),
{
    match style {
        NumParamStyle::Knob => NumControl::Knob,
        NumParamStyle::Menu(_) => NumControl::Menu,
        NumParamStyle::Radio(_) => NumControl::Radio {
            vertical: layout == NumParamLayout::VerticalSlider,
        },
        NumParamStyle::Plain => {
            if layout == NumParamLayout::NumEntry {
                NumControl::Entry
            } else {
                NumControl::Slider {
                    vertical: layout == NumParamLayout::VerticalSlider,
                    logarithmic: scale != WidgetScale::Lin,
                }
            }
        },
    }
}

/// The look of a numerical display.
fn display_view(layout: NumDisplayLayout, style: NumDisplayStyle) -> (r: DisplayView)
    ensures
        r == view_of(layout, style),
{
    match style {
        NumDisplayStyle::Led => DisplayView::Led,
        NumDisplayStyle::Numerical => DisplayView::Numerical,
        NumDisplayStyle::Bargraph => DisplayView::Bar {
            vertical: layout == NumDisplayLayout::Vertical,
        },
    }
}

/// The plan for a list of widgets.
pub fn plan_widgets(widgets: &Vec<Widget>, in_a_tab: bool) -> (r: Vec<Step>)
    requires
        all_tabs_selected(widgets@),
    ensures
        r@ == steps(widgets@, in_a_tab),
    decreases widgets@,
{
    let mut r: Vec<Step> = Vec::new();
    let mut i: usize = 0;
    assert(widgets@.take(0) =~= Seq::<Widget>::empty());
    while i < widgets.len()
        invariant
            i <= widgets@.len(),
            all_tabs_selected(widgets@),
            r@ == steps(widgets@.take(i as int), in_a_tab),
        decreases widgets@.len() - i,
    {
        let ghost before = r@;
        proof {
            assert(widgets@.take(i + 1).drop_last() =~= widgets@.take(i as int));
            assert(widgets@.take(i + 1).last() == widgets@[i as int]);
            assert(tabs_selected(widgets@[i as int]));
            assert(decreases_to!(widgets@ => widgets@[i as int]));
        }
        plan_widget(&widgets[i], i, in_a_tab, &mut r);
        i = i + 1;
    }
    assert(widgets@.take(i as int) =~= widgets@);
    r
}

/// Adds the steps for one widget to a plan.
pub fn plan_widget(widget: &Widget, index: usize, in_a_tab: bool, plan: &mut Vec<Step>)
    requires
        tabs_selected(*widget),
    ensures
        final(plan)@ == old(plan)@ + steps_of(*widget, index, in_a_tab),
    decreases *widget,
{
    let ghost before = plan@;
    match widget {
        Widget::Group { layout, label, inner } => {
            if should_skip(label.as_str()) {
                assert(before + Seq::<Step>::empty() =~= before);
                return ;
            }
            if should_unwrap(label.as_str()) {
                plan.push(Step::Unwrap { index });
                let mut below = plan_widgets(inner, in_a_tab);
                plan.append(&mut below);
                plan.push(Step::Close);
                assert(plan@ =~= before + steps_of(*widget, index, in_a_tab));
                return ;
            }
            match layout {
                BoxLayout::Tab { selected } => {
                    plan.push(Step::Tabs { index });
                    proof {
                        assert(decreases_to!(*widget => *inner));
                        assert(decreases_to!(inner@ => inner@[*selected as int]));
                    }
                    plan_widget(&inner[*selected], *selected, true, plan);
                    plan.push(Step::Close);
                },
                _ => {
                    let headed = !in_a_tab && !label.as_str().is_empty();
                    plan.push(Step::Group { index, headed });
                    let mut below = plan_widgets(inner, false);
                    plan.append(&mut below);
                    plan.push(Step::Close);
                },
            }
        },
        Widget::BoolParam { hidden, .. } => {
            if !*hidden {
                plan.push(Step::Switch { index });
            }
        },
        Widget::NumParam { layout, style, metadata, .. } => {
            if !metadata.hidden {
                let control = num_control(*layout, style, metadata.scale);
                plan.push(Step::Number { index, control });
            }
        },
        Widget::NumDisplay { layout, style, metadata, .. } => {
            if !metadata.hidden {
                let view = display_view(*layout, *style);
                plan.push(Step::Display { index, view });
            }
        },
    }
    assert(plan@ =~= before + steps_of(*widget, index, in_a_tab));
}

/// The children of a tab group that have a button, from `0` up to `n`.
pub open spec fn tab_buttons(ws: Seq<Widget>, n: nat) -> Seq<usize>
    decreases n,
{
    if n == 0 {
        Seq::empty()
    } else {
        let before = tab_buttons(ws, (n - 1) as nat);
        if skipped(label_of(ws[n - 1])) {
            before
        } else {
            before.push((n - 1) as usize)
        }
    }
}

/// The places of the children of a tab group that have a button: all but the
/// hidden groups.
pub fn plan_tab_buttons(inner: &Vec<Widget>) -> (r: Vec<usize>)
    ensures
        r@ == tab_buttons(inner@, inner@.len()),
{
    let mut r: Vec<usize> = Vec::new();
    let mut i: usize = 0;
    while i < inner.len()
        invariant
            i <= inner@.len(),
            r@ == tab_buttons(inner@, i as nat),
        decreases inner@.len() - i,
    {
        if !should_skip(inner[i].label()) {
            r.push(i);
        }
        i = i + 1;
    }
    r
}

/// How many things are open after a plan was walked.
pub open spec fn open_after(plan: Seq<Step>) -> int
    decreases plan.len(),
{
    if plan.len() == 0 {
        0
    } else {
        open_after(plan.drop_last()) + match plan.last() {
            Step::Unwrap { .. } => 1int,
            Step::Tabs { .. } => 1int,
            Step::Group { .. } => 1int,
            Step::Close => -1int,
            _ => 0int,
        }
    }
}

/// Whether a plan closes all that it opens and nothing else.
pub open spec fn balanced(plan: Seq<Step>) -> bool {
    &&& open_after(plan) == 0
    &&& forall|n: int| 0 <= n <= plan.len() ==> open_after(#[trigger] plan.take(n)) >= 0
}

/// Walking one plan after another.
proof fn lemma_open_after_both(a: Seq<Step>, b: Seq<Step>)
    ensures
        open_after(a + b) == open_after(a) + open_after(b),
    decreases b.len(),
{
    if b.len() == 0 {
        assert(a + b =~= a);
    } else {
        assert((a + b).drop_last() =~= a + b.drop_last());
        lemma_open_after_both(a, b.drop_last());
    }
}

/// Two balanced plans in a row are balanced.
proof fn lemma_balanced_both(a: Seq<Step>, b: Seq<Step>)
    requires
        balanced(a),
        balanced(b),
    ensures
        balanced(a + b),
{
    lemma_open_after_both(a, b);
    assert forall|n: int| 0 <= n <= (a + b).len() implies open_after(#[trigger] (a + b).take(n))
        >= 0 by {
        if n <= a.len() {
            assert((a + b).take(n) =~= a.take(n));
        } else {
            assert((a + b).take(n) =~= a + b.take(n - a.len()));
            lemma_open_after_both(a, b.take(n - a.len()));
        }
    }
}

/// A balanced plan between an opening step and `Close` is balanced.
proof fn lemma_balanced_inside(first: Step, inner: Seq<Step>)
    requires
        balanced(inner),
        first is Unwrap || first is Tabs || first is Group,
    ensures
        balanced(seq![first] + inner + seq![Step::Close]),
{
    let whole = seq![first] + inner + seq![Step::Close];
    reveal_with_fuel(open_after, 2);
    assert(seq![first].drop_last() =~= Seq::<Step>::empty());
    assert(open_after(seq![first]) == 1);
    assert(seq![Step::Close].drop_last() =~= Seq::<Step>::empty());
    assert(open_after(seq![Step::Close]) == -1);
    lemma_open_after_both(seq![first], inner);
    lemma_open_after_both(seq![first] + inner, seq![Step::Close]);
    assert forall|n: int| 0 <= n <= whole.len() implies open_after(#[trigger] whole.take(n))
        >= 0 by {
        if n == 0 {
            assert(whole.take(n) =~= Seq::<Step>::empty());
        } else if n == whole.len() {
            assert(whole.take(n) =~= whole);
        } else {
            assert(whole.take(n) =~= seq![first] + inner.take(n - 1));
            lemma_open_after_both(seq![first], inner.take(n - 1));
        }
    }
}

/// A plan of a single step that opens nothing, or of none, is balanced.
proof fn lemma_balanced_small(plan: Seq<Step>)
    requires
        plan.len() <= 1,
        plan.len() == 1 ==> plan[0] is Switch || plan[0] is Number || plan[0] is Display,
    ensures
        balanced(plan),
{
    reveal_with_fuel(open_after, 2);
    assert forall|n: int| 0 <= n <= plan.len() implies open_after(#[trigger] plan.take(n)) >= 0 by {
        if n == plan.len() {
            assert(plan.take(n) =~= plan);
        }
    }
}

/// The steps of one widget are balanced.
proof fn lemma_balanced_one(w: Widget, index: usize, in_a_tab: bool)
    ensures
        balanced(steps_of(w, index, in_a_tab)),
    decreases w,
{
    match w {
        Widget::Group { layout, label, inner } => {
            if skipped(label@) {
                lemma_balanced_small(Seq::empty());
            } else if unwrapped(label@) {
                law_plans_are_balanced(inner@, in_a_tab);
                lemma_balanced_inside(Step::Unwrap { index }, steps(inner@, in_a_tab));
            } else {
                match layout {
                    BoxLayout::Tab { selected } => {
                        if selected < inner@.len() {
                            assert(decreases_to!(inner@ => inner@[selected as int]));
                            lemma_balanced_one(inner@[selected as int], selected, true);
                            lemma_balanced_inside(
                                Step::Tabs { index },
                                steps_of(inner@[selected as int], selected, true),
                            );
                        } else {
                            lemma_balanced_small(Seq::empty());
                        }
                    },
                    _ => {
                        let headed = !in_a_tab && label@.len() > 0;
                        law_plans_are_balanced(inner@, false);
                        lemma_balanced_inside(Step::Group { index, headed }, steps(inner@, false));
                    },
                }
            }
        },
        _ => {
            lemma_balanced_small(steps_of(w, index, in_a_tab));
        },
    }
}

/// Every plan closes all that it opens, in order.
pub proof fn law_plans_are_balanced(ws: Seq<Widget>, in_a_tab: bool)
    ensures
        balanced(steps(ws, in_a_tab)),
    decreases ws,
{
    if ws.len() == 0 {
        lemma_balanced_small(Seq::empty());
    } else {
        law_plans_are_balanced(ws.drop_last(), in_a_tab);
        assert(decreases_to!(ws => ws[ws.len() - 1]));
        lemma_balanced_one(ws.last(), (ws.len() - 1) as usize, in_a_tab);
        lemma_balanced_both(
            steps(ws.drop_last(), in_a_tab),
            steps_of(ws.last(), (ws.len() - 1) as usize, in_a_tab),
        );
    }
}

/// A step of a plan, and the way down the tree to the widget that it draws.
pub struct Drawn {
    pub at: Seq<int>,
    pub step: Step,
}

/// What a plan draws, in order, and what is open afterwards: a step that opens something
/// goes down to it, `Close` goes back up. `open` is the way down to what was open before.
pub open spec fn walked(plan: Seq<Step>, open: Seq<int>) -> (Seq<int>, Seq<Drawn>)
    decreases plan.len(),
{
    if plan.len() == 0 {
        (open, Seq::empty())
    } else {
        let before = walked(plan.drop_last(), open);
        let step = plan.last();
        match step {
            Step::Unwrap { index } => (
                before.0.push(index as int),
                before.1.push(Drawn { at: before.0.push(index as int), step }),
            ),
            Step::Tabs { index } => (
                before.0.push(index as int),
                before.1.push(Drawn { at: before.0.push(index as int), step }),
            ),
            Step::Group { index, .. } => (
                before.0.push(index as int),
                before.1.push(Drawn { at: before.0.push(index as int), step }),
            ),
            Step::Close => (before.0.drop_last(), before.1),
            Step::Switch { index } => (
                before.0,
                before.1.push(Drawn { at: before.0.push(index as int), step }),
            ),
            Step::Number { index, .. } => (
                before.0,
                before.1.push(Drawn { at: before.0.push(index as int), step }),
            ),
            Step::Display { index, .. } => (
                before.0,
                before.1.push(Drawn { at: before.0.push(index as int), step }),
            ),
        }
    }
}

/// Whether a group of this label is hidden: it is called DSP2, or by a `V` and digits
/// other than a lone 1.
pub open spec fn named_hidden(label: Seq<char>) -> bool {
    label == seq!['D', 'S', 'P', '2'] || (label.len() >= 2 && label[0] == 'V' && label != seq![
        'V',
        '1',
    ] && forall|i: int| 1 <= i < label.len() ==> '0' <= #[trigger] label[i] && label[i] <= '9')
}

/// Whether the children of a group of this label are drawn in its place.
pub open spec fn named_bare(label: Seq<char>) -> bool {
    label == seq!['S', 'e', 'q', 'u', 'e', 'n', 'c', 'e', 'r'] || label == seq![
        'P',
        'o',
        'l',
        'y',
        'p',
        'h',
        'o',
        'n',
        'i',
        'c',
    ] || label == seq!['D', 'S', 'P', '1'] || label == seq!['V', '1'] || label == seq![
        'F',
        'a',
        'u',
        's',
        't',
        'D',
        'S',
        'P',
    ]
}

/// How the widget at the end of a way down the tree is drawn, if it is: every widget is
/// that is not marked hidden, unless it is, or stands in, a hidden group, or stands in a
/// tab that is not selected. A header is left out directly inside a tab.
pub open spec fn shown(ws: Seq<Widget>, at: Seq<int>, in_a_tab: bool) -> Option<Step>
    decreases at.len(), 0int,
{
    if at.len() == 0 || !(0 <= at[0] < ws.len()) {
        None
    } else {
        shown_below(ws[at[0]], at[0], at.skip(1), in_a_tab)
    }
}

/// `shown` for what is reached from one widget.
pub open spec fn shown_below(w: Widget, index: int, down: Seq<int>, in_a_tab: bool) -> Option<
    Step,
>
    decreases down.len(), 1int,
{
    let index = index as usize;
    match w {
        Widget::Group { layout, label, inner } => if named_hidden(label@) {
            None
        } else if named_bare(label@) {
            if down.len() == 0 {
                Some(Step::Unwrap { index })
            } else {
                shown(inner@, down, in_a_tab)
            }
        } else {
            match layout {
                BoxLayout::Tab { selected } => if down.len() == 0 {
                    Some(Step::Tabs { index })
                } else if down[0] == selected {
                    shown(inner@, down, true)
                } else {
                    None
                },
                _ => if down.len() == 0 {
                    Some(Step::Group { index, headed: !in_a_tab && label@.len() > 0 })
                } else {
                    shown(inner@, down, false)
                },
            }
        },
        Widget::BoolParam { hidden, .. } => if hidden || down.len() > 0 {
            None
        } else {
            Some(Step::Switch { index })
        },
        Widget::NumParam { layout, style, metadata, .. } => if metadata.hidden || down.len() > 0 {
            None
        } else {
            Some(Step::Number { index, control: control_of(layout, style, metadata.scale) })
        },
        Widget::NumDisplay { layout, style, metadata, .. } => if metadata.hidden || down.len()
            > 0 {
            None
        } else {
            Some(Step::Display { index, view: view_of(layout, style) })
        },
    }
}

/// Whether one way down the tree comes before another when the tree is drawn: a group
/// before what stands in it, and that in order.
pub open spec fn precedes(a: Seq<int>, b: Seq<int>) -> bool
    decreases a.len(),
{
    b.len() > 0 && (a.len() == 0 || a[0] < b[0] || (a[0] == b[0] && precedes(
        a.skip(1),
        b.skip(1),
    )))
}

/// The order of two ways down the tree that part after `n` steps.
proof fn lemma_precedes(a: Seq<int>, b: Seq<int>, n: nat)
    requires
        n <= a.len(),
        n < b.len(),
        a.take(n as int) == b.take(n as int),
        a.len() == n || a[n as int] < b[n as int],
    ensures
        precedes(a, b),
    decreases n,
{
    if n > 0 {
        assert(a[0] == a.take(n as int)[0] && b[0] == b.take(n as int)[0]);
        let x = a.skip(1);
        let y = b.skip(1);
        assert(x.take(n - 1) =~= a.take(n as int).skip(1));
        assert(y.take(n - 1) =~= b.take(n as int).skip(1));
        lemma_precedes(x, y, (n - 1) as nat);
    }
}

/// Walking one plan after another.
proof fn lemma_walked_both(a: Seq<Step>, b: Seq<Step>, open: Seq<int>)
    ensures
        walked(a + b, open).0 == walked(b, walked(a, open).0).0,
        walked(a + b, open).1 == walked(a, open).1 + walked(b, walked(a, open).0).1,
    decreases b.len(),
{
    if b.len() == 0 {
        assert(a + b =~= a);
        assert(walked(a, open).1 + Seq::empty() =~= walked(a, open).1);
    } else {
        assert((a + b).drop_last() =~= a + b.drop_last());
        assert((a + b).last() == b.last());
        lemma_walked_both(a, b.drop_last(), open);
        assert(walked(a + b, open).1 =~= walked(a, open).1 + walked(b, walked(a, open).0).1);
    }
}

/// Walking a single step.
proof fn lemma_walked_one(step: Step, open: Seq<int>)
    ensures
        walked(seq![step], open) == (match step {
            Step::Unwrap { index } => (
                open.push(index as int),
                seq![Drawn { at: open.push(index as int), step }],
            ),
            Step::Tabs { index } => (
                open.push(index as int),
                seq![Drawn { at: open.push(index as int), step }],
            ),
            Step::Group { index, .. } => (
                open.push(index as int),
                seq![Drawn { at: open.push(index as int), step }],
            ),
            Step::Close => (open.drop_last(), Seq::empty()),
            Step::Switch { index } => (open, seq![Drawn { at: open.push(index as int), step }]),
            Step::Number { index, .. } => (
                open,
                seq![Drawn { at: open.push(index as int), step }],
            ),
            Step::Display { index, .. } => (
                open,
                seq![Drawn { at: open.push(index as int), step }],
            ),
        }),
{
    assert(seq![step].drop_last() =~= Seq::<Step>::empty());
    assert(walked(seq![step].drop_last(), open) == (open, Seq::<Drawn>::empty()));
    assert(seq![step].last() == step);
    assert forall|d: Drawn| #[trigger] Seq::<Drawn>::empty().push(d) =~= seq![d] by {}
}

/// Whether the way down to a drawn widget leads through what is open.
spec fn is_below(open: Seq<int>, at: Seq<int>) -> bool {
    at.len() > open.len() && at.take(open.len() as int) == open
}

/// Whether what is drawn comes in the order of the tree.
spec fn ordered(drawn: Seq<Drawn>) -> bool {
    forall|i: int, j: int|
        0 <= i < j < drawn.len() ==> precedes((#[trigger] drawn[i]).at, (#[trigger] drawn[j]).at)
}

/// What is drawn of a list of widgets.
proof fn lemma_walked(ws: Seq<Widget>, in_a_tab: bool, open: Seq<int>)
    requires
        all_tabs_selected(ws),
        ws.len() <= usize::MAX,
    ensures
        walked(steps(ws, in_a_tab), open).0 == open,
        ordered(walked(steps(ws, in_a_tab), open).1),
        forall|x: Drawn| #[trigger]
            walked(steps(ws, in_a_tab), open).1.contains(x) <==> is_below(open, x.at) && shown(
                ws,
                x.at.skip(open.len() as int),
                in_a_tab,
            ) == Some(x.step),
    decreases ws,
{
    let n = open.len() as int;
    let all = walked(steps(ws, in_a_tab), open).1;
    if ws.len() == 0 {
        assert(all =~= Seq::empty());
    } else {
        let rest = ws.drop_last();
        let last = (ws.len() - 1) as int;
        let w = ws[last];
        let one = steps_of(w, last as usize, in_a_tab);
        assert forall|i: int| 0 <= i < rest.len() implies tabs_selected(#[trigger] rest[i]) by {
            assert(tabs_selected(ws[i]));
        }
        lemma_walked(rest, in_a_tab, open);
        assert(tabs_selected(w));
        assert(decreases_to!(ws => ws[ws.len() - 1]));
        lemma_walked_of(w, last as usize, in_a_tab, open);
        lemma_walked_both(steps(rest, in_a_tab), one, open);
        let a = walked(steps(rest, in_a_tab), open).1;
        let b = walked(one, open).1;
        assert(steps(ws, in_a_tab) == steps(rest, in_a_tab) + one);
        assert(all == a + b);
        assert forall|x: Drawn| #[trigger] all.contains(x) <==> is_below(open, x.at) && shown(
            ws,
            x.at.skip(n),
            in_a_tab,
        ) == Some(x.step) by {
            let down = x.at.skip(n);
            assert(all.contains(x) <==> a.contains(x) || b.contains(x)) by {
                if all.contains(x) {
                    let k = choose|k: int| 0 <= k < all.len() && all[k] == x;
                    if k < a.len() {
                        assert(a[k] == x);
                    } else {
                        assert(b[k - a.len()] == x);
                    }
                }
                if a.contains(x) {
                    let k = choose|k: int| 0 <= k < a.len() && a[k] == x;
                    assert(all[k] == x);
                }
                if b.contains(x) {
                    let k = choose|k: int| 0 <= k < b.len() && b[k] == x;
                    assert(all[a.len() + k] == x);
                }
            }
            if is_below(open, x.at) {
                assert(down[0] == x.at[n]);
                assert(down.skip(1) =~= x.at.skip(n + 1));
            }
        }
        assert forall|i: int, j: int| 0 <= i < j < all.len() implies precedes(
            (#[trigger] all[i]).at,
            (#[trigger] all[j]).at,
        ) by {
            if j < a.len() {
                assert(all[i] == a[i] && all[j] == a[j]);
            } else if i >= a.len() {
                assert(all[i] == b[i - a.len()] && all[j] == b[j - a.len()]);
            } else {
                let x = all[i];
                let y = all[j];
                assert(a[i] == x && b[j - a.len()] == y);
                assert(a.contains(x) && b.contains(y));
                assert(x.at.skip(n)[0] == x.at[n]);
                assert(x.at[n] < last && y.at[n] == last);
                lemma_precedes(x.at, y.at, n as nat);
            }
        }
    }
}

/// What is drawn of one widget.
proof fn lemma_walked_of(w: Widget, index: usize, in_a_tab: bool, open: Seq<int>)
    requires
        tabs_selected(w),
    ensures
        walked(steps_of(w, index, in_a_tab), open).0 == open,
        ordered(walked(steps_of(w, index, in_a_tab), open).1),
        forall|x: Drawn| #[trigger]
            walked(steps_of(w, index, in_a_tab), open).1.contains(x) <==> is_below(open, x.at)
                && x.at[open.len() as int] == index && shown_below(
                w,
                index as int,
                x.at.skip((open.len() + 1) as int),
                in_a_tab,
            ) == Some(x.step),
    decreases w,
{
    let n = open.len() as int;
    let plan = steps_of(w, index, in_a_tab);
    let here = open.push(index as int);
    let all = walked(plan, open).1;
    match w {
        Widget::Group { layout, label, inner } => {
            crate::widgets::voices::law_labels_with_a_meaning(label@);
            assert(inner.len() == inner@.len());
            if skipped(label@) {
                assert(all =~= Seq::empty());
            } else if unwrapped(label@) {
                let first = Step::Unwrap { index };
                lemma_walked(inner@, in_a_tab, here);
                lemma_walked_group(first, steps(inner@, in_a_tab), index, open);
                lemma_group_is_drawn(w, first, steps(inner@, in_a_tab), index, in_a_tab, open);
            } else {
                match layout {
                    BoxLayout::Tab { selected } => {
                        let first = Step::Tabs { index };
                        let child = inner@[selected as int];
                        assert(decreases_to!(inner@ => inner@[selected as int]));
                        lemma_walked_of(child, selected, true, here);
                        let below = steps_of(child, selected, true);
                        lemma_walked_group(first, below, index, open);
                        let inside = walked(below, here).1;
                        assert forall|x: Drawn| #[trigger] inside.contains(x) <==> is_below(
                            here,
                            x.at,
                        ) && shown_below(w, index as int, x.at.skip(n + 1), in_a_tab) == Some(
                            x.step,
                        ) by {
                            let down = x.at.skip(n + 1);
                            if is_below(here, x.at) {
                                assert(down[0] == x.at[n + 1]);
                                assert(down.skip(1) =~= x.at.skip(n + 2));
                            }
                        }
                        lemma_group_is_drawn(w, first, below, index, in_a_tab, open);
                    },
                    _ => {
                        let first = Step::Group { index, headed: !in_a_tab && label@.len() > 0 };
                        lemma_walked(inner@, false, here);
                        lemma_walked_group(first, steps(inner@, false), index, open);
                        lemma_group_is_drawn(w, first, steps(inner@, false), index, in_a_tab, open);
                    },
                }
            }
        },
        _ => {
            if plan.len() > 0 {
                assert(plan =~= seq![plan[0]]);
                lemma_walked_one(plan[0], open);
                assert(all[0] == Drawn { at: here, step: plan[0] });
                assert(here.skip(n + 1) =~= Seq::<int>::empty());
                assert(here.take(n) =~= open);
                assert forall|x: Drawn| #[trigger] all.contains(x) <==> is_below(open, x.at)
                    && x.at[n] == index && shown_below(
                    w,
                    index as int,
                    x.at.skip(n + 1),
                    in_a_tab,
                ) == Some(x.step) by {
                    if is_below(open, x.at) && x.at[n] == index && x.at.skip(n + 1).len() == 0 {
                        assert(x.at =~= here);
                        assert(x.step == plan[0] ==> all[0] == x);
                    }
                    if all.contains(x) {
                        assert(x == all[0]);
                    }
                }
            } else {
                assert(all =~= Seq::empty());
            }
        },
    }
}

/// Walking what stands between an opening step and `Close`.
proof fn lemma_walked_group(first: Step, inner: Seq<Step>, index: usize, open: Seq<int>)
    requires
        first == (Step::Unwrap { index }) || first == (Step::Tabs { index }) || (first matches Step::Group {
            index: i,
            ..
        } && i == index),
        walked(inner, open.push(index as int)).0 == open.push(index as int),
    ensures
        walked(seq![first] + inner + seq![Step::Close], open).0 == open,
        walked(seq![first] + inner + seq![Step::Close], open).1 == seq![
            Drawn { at: open.push(index as int), step: first },
        ] + walked(inner, open.push(index as int)).1,
{
    let here = open.push(index as int);
    lemma_walked_one(first, open);
    lemma_walked_one(Step::Close, here);
    lemma_walked_both(seq![first], inner, open);
    lemma_walked_both(seq![first] + inner, seq![Step::Close], open);
    assert(here.drop_last() =~= open);
    let head = seq![Drawn { at: here, step: first }];
    assert(head + walked(inner, here).1 + Seq::<Drawn>::empty() =~= head + walked(inner, here).1);
}

/// A group is drawn, and what is drawn of its contents.
proof fn lemma_group_is_drawn(
    w: Widget,
    first: Step,
    inner: Seq<Step>,
    index: usize,
    in_a_tab: bool,
    open: Seq<int>,
)
    requires
        shown_below(w, index as int, Seq::empty(), in_a_tab) == Some(first),
        ordered(walked(inner, open.push(index as int)).1),
        forall|x: Drawn| #[trigger]
            walked(inner, open.push(index as int)).1.contains(x) <==> is_below(
                open.push(index as int),
                x.at,
            ) && shown_below(w, index as int, x.at.skip((open.len() + 1) as int), in_a_tab) == Some(x.step),
    ensures
        ({
            let all = seq![Drawn { at: open.push(index as int), step: first }] + walked(
                inner,
                open.push(index as int),
            ).1;
            &&& ordered(all)
            &&& forall|x: Drawn| #[trigger]
                all.contains(x) <==> is_below(open, x.at) && x.at[open.len() as int] == index
                    && shown_below(w, index as int, x.at.skip((open.len() + 1) as int), in_a_tab) == Some(
                    x.step,
                )
        }),
{
    let n = open.len() as int;
    let here = open.push(index as int);
    let head = Drawn { at: here, step: first };
    let inside = walked(inner, here).1;
    let all = seq![head] + inside;
    assert(here.take(n) =~= open);
    assert(here.skip(n + 1) =~= Seq::<int>::empty());
    assert forall|x: Drawn| #[trigger] all.contains(x) <==> is_below(open, x.at) && x.at[n] == index
        && shown_below(w, index as int, x.at.skip(n + 1), in_a_tab) == Some(x.step) by {
        assert(all.contains(x) <==> x == head || inside.contains(x)) by {
            if all.contains(x) {
                let k = choose|k: int| 0 <= k < all.len() && all[k] == x;
                if k > 0 {
                    assert(inside[k - 1] == x);
                }
            }
            assert(all[0] == head);
            if inside.contains(x) {
                let k = choose|k: int| 0 <= k < inside.len() && inside[k] == x;
                assert(all[k + 1] == x);
            }
        }
        if is_below(open, x.at) && x.at[n] == index {
            if x.at.len() == n + 1 {
                assert(x.at =~= here);
            } else {
                assert(x.at.take(n + 1) =~= here);
            }
        }
        if is_below(here, x.at) {
            assert(x.at.take(n) =~= x.at.take(n + 1).take(n));
            assert(x.at[n] == x.at.take(n + 1)[n]);
        }
    }
    assert forall|i: int, j: int| 0 <= i < j < all.len() implies precedes(
        (#[trigger] all[i]).at,
        (#[trigger] all[j]).at,
    ) by {
        let y = all[j];
        assert(inside[j - 1] == y);
        if i == 0 {
            assert(inside.contains(y));
            assert(here.take(n + 1) =~= here);
            lemma_precedes(here, y.at, (n + 1) as nat);
        } else {
            assert(inside[i - 1] == all[i]);
        }
    }
}

/// Everything that is not hidden is drawn, once and in order: a plan, walked from its
/// start, draws exactly the widgets that are neither marked hidden, nor a hidden group
/// or in one, nor in a tab that is not selected, each by the step for its kind; groups
/// before what stands in them, and that in the order of the tree, so that nothing is
/// drawn twice.
pub proof fn law_everything_shown_is_drawn(
    ws: Seq<Widget>,
    in_a_tab: bool,
    at: Seq<int>,
    step: Step,
    i: int,
    j: int,
)
    requires
        forall|tabs: Seq<int>|
            (#[trigger] shown(ws, tabs, in_a_tab) matches Some(Step::Tabs { .. })) ==> (widget_at(
                ws,
                tabs,
            ) matches Some(
                Widget::Group { layout: BoxLayout::Tab { selected }, inner, .. },
            ) && selected < inner@.len()),
        ws.len() <= usize::MAX,
    ensures
        all_tabs_selected(ws),
        ({
            let drawn = walked(steps(ws, in_a_tab), Seq::empty()).1;
            &&& drawn.contains(Drawn { at, step }) <==> shown(ws, at, in_a_tab) == Some(step)
            &&& 0 <= i < j < drawn.len() ==> drawn[i].at != drawn[j].at && precedes(
                drawn[i].at,
                drawn[j].at,
            )
        }),
{
    let drawn = walked(steps(ws, in_a_tab), Seq::empty()).1;
    lemma_tabs_hold(ws, in_a_tab);
    lemma_walked(ws, in_a_tab, Seq::empty());
    let x = Drawn { at, step };
    assert(at.skip(0) =~= at);
    assert(at.take(0) =~= Seq::<int>::empty());
    assert(drawn.contains(x) <==> is_below(Seq::empty(), x.at) && shown(ws, at.skip(0), in_a_tab)
        == Some(x.step));
    if 0 <= i < j < drawn.len() {
        assert(precedes(drawn[i].at, drawn[j].at));
        lemma_precedes_not_itself(drawn[i].at);
    }
}

/// Where every row of tabs that is drawn has a child selected, all have.
proof fn lemma_tabs_hold(ws: Seq<Widget>, in_a_tab: bool)
    requires
        forall|tabs: Seq<int>|
            (#[trigger] shown(ws, tabs, in_a_tab) matches Some(Step::Tabs { .. })) ==> (widget_at(
                ws,
                tabs,
            ) matches Some(
                Widget::Group { layout: BoxLayout::Tab { selected }, inner, .. },
            ) && selected < inner@.len()),
    ensures
        all_tabs_selected(ws),
    decreases ws,
{
    assert forall|i: int| 0 <= i < ws.len() implies tabs_selected(#[trigger] ws[i]) by {
        assert(decreases_to!(ws => ws[i]));
        let w = ws[i];
        assert(tabs_hold_one(w, i, in_a_tab)) by {
            assert forall|down: Seq<int>|
                (#[trigger] shown_below(w, i, down, in_a_tab) matches Some(
                    Step::Tabs { .. },
                )) implies ((if down.len() == 0 {
                Some(w)
            } else {
                match w {
                    Widget::Group { inner, .. } => widget_at(inner@, down),
                    _ => None,
                }
            }) matches Some(
                Widget::Group { layout: BoxLayout::Tab { selected }, inner, .. },
            ) && selected < inner@.len()) by {
                let at = seq![i] + down;
                assert(at.skip(1) =~= down);
                assert(shown(ws, at, in_a_tab) is Some);
            }
        }
        lemma_tab_holds(w, i, in_a_tab);
    }
}

/// Whether every row of tabs that is drawn of one widget has a child selected.
spec fn tabs_hold_one(w: Widget, index: int, in_a_tab: bool) -> bool {
    forall|down: Seq<int>|
        (#[trigger] shown_below(w, index, down, in_a_tab) matches Some(Step::Tabs { .. })) ==> ((
        if down.len() == 0 {
            Some(w)
        } else {
            match w {
                Widget::Group { inner, .. } => widget_at(inner@, down),
                _ => None,
            }
        }) matches Some(
            Widget::Group { layout: BoxLayout::Tab { selected }, inner, .. },
        ) && selected < inner@.len())
}

/// `lemma_tabs_hold` for one widget.
proof fn lemma_tab_holds(w: Widget, index: int, in_a_tab: bool)
    requires
        tabs_hold_one(w, index, in_a_tab),
    ensures
        tabs_selected(w),
    decreases w,
{
    match w {
        Widget::Group { layout, label, inner } => {
            crate::widgets::voices::law_labels_with_a_meaning(label@);
            if !skipped(label@) {
                if unwrapped(label@) {
                    assert forall|tabs: Seq<int>|
                        (#[trigger] shown(inner@, tabs, in_a_tab) matches Some(
                            Step::Tabs { .. },
                        )) implies (widget_at(inner@, tabs) matches Some(
                        Widget::Group { layout: BoxLayout::Tab { selected }, inner, .. },
                    ) && selected < inner@.len()) by {
                        assert(shown_below(w, index, tabs, in_a_tab) is Some);
                    }
                    lemma_tabs_hold(inner@, in_a_tab);
                } else {
                    match layout {
                        BoxLayout::Tab { selected } => {
                            assert(shown_below(w, index, Seq::empty(), in_a_tab) is Some);
                            let child = inner@[selected as int];
                            assert(decreases_to!(inner@ => inner@[selected as int]));
                            assert(tabs_hold_one(child, selected as int, true)) by {
                                assert forall|down: Seq<int>|
                                    (#[trigger] shown_below(
                                        child,
                                        selected as int,
                                        down,
                                        true,
                                    ) matches Some(Step::Tabs { .. })) implies ((
                                if down.len() == 0 {
                                    Some(child)
                                } else {
                                    match child {
                                        Widget::Group { inner, .. } => widget_at(inner@, down),
                                        _ => None,
                                    }
                                }) matches Some(
                                    Widget::Group {
                                        layout: BoxLayout::Tab { selected },
                                        inner,
                                        ..
                                    },
                                ) && selected < inner@.len()) by {
                                    let at = seq![selected as int] + down;
                                    assert(at.skip(1) =~= down);
                                    assert(shown_below(w, index, at, in_a_tab) is Some);
                                }
                            }
                            lemma_tab_holds(child, selected as int, true);
                        },
                        _ => {
                            assert forall|tabs: Seq<int>|
                                (#[trigger] shown(inner@, tabs, false) matches Some(
                                    Step::Tabs { .. },
                                )) implies (widget_at(inner@, tabs) matches Some(
                                Widget::Group { layout: BoxLayout::Tab { selected }, inner, .. },
                            ) && selected < inner@.len()) by {
                                assert(shown_below(w, index, tabs, in_a_tab) is Some);
                            }
                            lemma_tabs_hold(inner@, false);
                        },
                    }
                }
            }
        },
        _ => {},
    }
}

/// No way down the tree comes before itself.
proof fn lemma_precedes_not_itself(a: Seq<int>)
    ensures
        !precedes(a, a),
    decreases a.len(),
{
    if a.len() > 0 {
        lemma_precedes_not_itself(a.skip(1));
    }
}

/// A group that is neither hidden nor shown without its header nor a row of tabs has, in
/// any layout, the plan that opens it, draws all of its children and closes it.
pub proof fn law_groups_draw_all_their_children(
    w: Widget,
    index: usize,
    in_a_tab: bool,
)
    requires
        w matches Widget::Group { layout, label, .. } && !named_hidden(label@) && !named_bare(
            label@,
        ) && !(layout is Tab),
    ensures
        w matches Widget::Group { label, inner, .. } && steps_of(w, index, in_a_tab) == seq![
            Step::Group { index, headed: !in_a_tab && label@.len() > 0 },
        ] + steps(inner@, false) + seq![Step::Close],
{
    crate::widgets::voices::law_labels_with_a_meaning(label_of(w));
}

/// The control of a number: a knob, a menu or radio buttons in any layout; else an entry
/// field or a slider as the layout says. Radio buttons and sliders stand as the layout
/// says; a slider is logarithmic for both curved scales. A display looks as its style
/// says, a bar stands as the layout says.
pub proof fn law_controls_follow_style_and_layout(
    layout: NumParamLayout,
    style: NumParamStyle,
    scale: WidgetScale,
    place: NumDisplayLayout,
    look: NumDisplayStyle,
)
    ensures
        control_of(layout, style, scale) == NumControl::Knob <==> style is Knob,
        control_of(layout, style, scale) == NumControl::Menu <==> style is Menu,
        control_of(layout, style, scale) is Radio <==> style is Radio,
        control_of(layout, style, scale) == NumControl::Entry <==> style is Plain && layout
            == NumParamLayout::NumEntry,
        control_of(layout, style, scale) is Slider <==> style is Plain && layout
            != NumParamLayout::NumEntry,
        control_of(layout, style, scale) matches NumControl::Radio { vertical } ==> vertical == (
        layout == NumParamLayout::VerticalSlider),
        control_of(layout, style, scale) matches NumControl::Slider { vertical, logarithmic } ==> {
            &&& vertical == (layout == NumParamLayout::VerticalSlider)
            &&& logarithmic == (scale == WidgetScale::Log || scale == WidgetScale::Exp)
        },
        view_of(place, look) == DisplayView::Led <==> look == NumDisplayStyle::Led,
        view_of(place, look) == DisplayView::Numerical <==> look == NumDisplayStyle::Numerical,
        view_of(place, look) matches DisplayView::Bar { vertical } ==> vertical == (place
            == NumDisplayLayout::Vertical),
{
}

/// A tab group has a button for every child but the hidden groups, in order.
pub proof fn law_every_shown_child_has_a_button(ws: Seq<Widget>, n: nat, i: int, k: int, l: int)
    requires
        n <= ws.len() <= usize::MAX,
    ensures
        0 <= i <= usize::MAX ==> (tab_buttons(ws, n).contains(i as usize) <==> i < n
            && !named_hidden(label_of(ws[i]))),
        0 <= k < l < tab_buttons(ws, n).len() ==> tab_buttons(ws, n)[k] < tab_buttons(ws, n)[l],
        0 <= k < tab_buttons(ws, n).len() ==> tab_buttons(ws, n)[k] < n,
    decreases n,
{
    if n > 0 {
        let before = tab_buttons(ws, (n - 1) as nat);
        let now = tab_buttons(ws, n);
        law_every_shown_child_has_a_button(ws, (n - 1) as nat, i, k, l);
        law_every_shown_child_has_a_button(ws, (n - 1) as nat, i, k, k);
        crate::widgets::voices::law_labels_with_a_meaning(label_of(ws[n - 1]));
        if 0 <= i <= usize::MAX {
            if before.contains(i as usize) {
                let m = choose|m: int| 0 <= m < before.len() && before[m] == i as usize;
                assert(now[m] == i as usize);
            }
            if now.contains(i as usize) && !before.contains(i as usize) {
                let m = choose|m: int| 0 <= m < now.len() && now[m] == i as usize;
                if m < before.len() {
                    assert(before[m] == i as usize);
                }
            }
            if i == n - 1 && !skipped(label_of(ws[n - 1])) {
                assert(now[now.len() - 1] == i as usize);
            }
        }
    }
}

/// Hidden groups are drawn nowhere: with one at the end, a list of widgets has the
/// plan that it has without it.
pub proof fn law_hidden_groups_are_not_drawn(ws: Seq<Widget>, w: Widget, in_a_tab: bool)
    requires
        w is Group,
        skipped(label_of(w)),
    ensures
        steps(ws.push(w), in_a_tab) == steps(ws, in_a_tab),
{
    let all = ws.push(w);
    assert(all.drop_last() =~= ws);
    assert(all.last() == w);
    assert(steps_of(w, (all.len() - 1) as usize, in_a_tab) =~= Seq::empty());
    assert(steps(ws.push(w), in_a_tab) =~= steps(ws, in_a_tab));
}

} // verus!
