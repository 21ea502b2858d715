//! The widget tree of a DSP script.
use vstd::prelude::*;

use crate::bits::Bits;

verus! {

/// How the children of a group are laid out.
#[derive(Clone, Copy, Debug, PartialEq, Eq, Structural)]
pub enum BoxLayout {
    /// One child at a time, chosen by a row of buttons.
    Tab { selected: usize },
    /// Side by side.
    Horizontal,
    /// One below the other.
    Vertical,
}

/// How a switch is operated.
#[derive(Clone, Copy, Debug, PartialEq, Eq, Structural)]
pub enum BoolParamLayout {
    /// On while it is held down.
    Held,
    /// Turned on and off by clicks.
    Checkbox,
}

/// Where a numerical parameter's control stands.
#[derive(Clone, Copy, Debug, PartialEq, Eq, Structural)]
pub enum NumParamLayout {
    NumEntry,
    HorizontalSlider,
    VerticalSlider,
}

/// Where a numerical display stands.
#[derive(Clone, Copy, Debug, PartialEq, Eq, Structural)]
pub enum NumDisplayLayout {
    Horizontal,
    Vertical,
}

/// How the positions of a control are spread over its range.
#[derive(Clone, Copy, Debug, PartialEq, Eq, Structural)]
pub enum WidgetScale {
    Lin,
    Log,
    Exp,
}

/// Named values to choose from, and the one that is chosen.
#[derive(Debug)]
pub struct Choices {
    pub options: Vec<(String, Bits)>,
    pub selected: usize,
}

/// The look of a numerical parameter.
#[derive(Debug)]
pub enum NumParamStyle {
    Knob,
    Menu(Choices),
    Radio(Choices),
    /// A slider or an entry field, as the layout says.
    Plain,
}

/// The look of a numerical display.
#[derive(Clone, Copy, Debug, PartialEq, Eq, Structural)]
pub enum NumDisplayStyle {
    Led,
    Numerical,
    /// A bar along the layout's direction.
    Bargraph,
}

/// What a script says of a numerical parameter or display.
#[derive(Debug)]
pub struct NumMetadata {
    pub unit: Option<String>,
    pub scale: WidgetScale,
    pub hidden: bool,
    pub tooltip: Option<String>,
    /// Left out of preset files.
    pub nopre: bool,
}

/// A widget of a DSP script. `zone` is the value that the DSP reads or writes.
#[derive(Debug)]
#[allow(inconsistent_fields)]
pub enum Widget {
    Group { layout: BoxLayout, label: String, inner: Vec<Widget> },
    BoolParam {
        layout: BoolParamLayout,
        label: String,
        zone: Bits,
        hidden: bool,
        tooltip: Option<String>,
        nopre: bool,
    },
    NumParam {
        layout: NumParamLayout,
        style: NumParamStyle,
        label: String,
        zone: Bits,
        min: Bits,
        max: Bits,
        step: Bits,
        init: Bits,
        metadata: NumMetadata,
    },
    NumDisplay {
        layout: NumDisplayLayout,
        style: NumDisplayStyle,
        label: String,
        zone: Bits,
        min: Bits,
        max: Bits,
        metadata: NumMetadata,
    },
}

/// The label of a widget.
pub open spec fn label_of(w: Widget) -> Seq<char> {
    match w {
        Widget::Group { label, .. } => label@,
        Widget::BoolParam { label, .. } => label@,
        Widget::NumParam { label, .. } => label@,
        Widget::NumDisplay { label, .. } => label@,
    }
}

impl Widget {
    /// The label of a widget.
    pub fn label(&self) -> (r: &str)
        ensures
            r@ == label_of(*self),
            match *self {
                Widget::Group { label, .. } => r@ == label@,
                Widget::BoolParam { label, .. } => r@ == label@,
                Widget::NumParam { label, .. } => r@ == label@,
                Widget::NumDisplay { label, .. } => r@ == label@,
            },
    {
        match self {
            Widget::Group { label, .. } => label.as_str(),
            Widget::BoolParam { label, .. } => label.as_str(),
            Widget::NumParam { label, .. } => label.as_str(),
            Widget::NumDisplay { label, .. } => label.as_str(),
        }
    }
}

/// Whether two widgets agree in everything but the values of their parameters.
pub open spec fn same_but_values(a: Widget, b: Widget) -> bool
    decreases a,
{
    match (a, b) {
        (
            Widget::Group { layout: l1, label: n1, inner: i1 },
            Widget::Group { layout: l2, label: n2, inner: i2 },
        ) => l1 == l2 && n1 == n2 && all_same_but_values(i1@, i2@),
        (
            Widget::BoolParam { layout: l1, label: n1, hidden: h1, tooltip: t1, nopre: p1, .. },
            Widget::BoolParam { layout: l2, label: n2, hidden: h2, tooltip: t2, nopre: p2, .. },
        ) => l1 == l2 && n1 == n2 && h1 == h2 && t1 == t2 && p1 == p2,
        (
            Widget::NumParam {
                layout: l1,
                style: y1,
                label: n1,
                min: a1,
                max: b1,
                step: s1,
                init: d1,
                metadata: m1,
                ..
            },
            Widget::NumParam {
                layout: l2,
                style: y2,
                label: n2,
                min: a2,
                max: b2,
                step: s2,
                init: d2,
                metadata: m2,
                ..
            },
        ) => l1 == l2 && y1 == y2 && n1 == n2 && a1 == a2 && b1 == b2 && s1 == s2 && d1 == d2 && m1
            == m2,
        (Widget::NumDisplay { .. }, Widget::NumDisplay { .. }) => a == b,
        _ => false,
    }
}

/// `same_but_values`, widget by widget.
pub open spec fn all_same_but_values(a: Seq<Widget>, b: Seq<Widget>) -> bool
    decreases a,
{
    &&& a.len() == b.len()
    &&& forall|i: int| 0 <= i < a.len() ==> same_but_values(#[trigger] a[i], b[i])
}

/// The widget that is reached by going down the tree: the first number is a place in
/// the list, each further one a place in the group reached so far.
pub open spec fn widget_at(ws: Seq<Widget>, at: Seq<int>) -> Option<Widget>
    decreases at.len(),
{
    if at.len() == 0 || !(0 <= at[0] < ws.len()) {
        None
    } else if at.len() == 1 {
        Some(ws[at[0]])
    } else {
        match ws[at[0]] {
            Widget::Group { inner, .. } => widget_at(inner@, at.skip(1)),
            _ => None,
        }
    }
}

/// Whether one way down the tree branches off behind another.
pub open spec fn comes_after(a: Seq<int>, b: Seq<int>) -> bool
    decreases a.len(),
{
    a.len() > 0 && b.len() > 0 && (a[0] > b[0] || (a[0] == b[0] && comes_after(
        a.skip(1),
        b.skip(1),
    )))
}

/// The value of a widget; nothing for a group.
pub open spec fn zone_of(w: Widget) -> Option<Bits> {
    match w {
        Widget::Group { .. } => None,
        Widget::BoolParam { zone, .. } => Some(zone),
        Widget::NumParam { zone, .. } => Some(zone),
        Widget::NumDisplay { zone, .. } => Some(zone),
    }
}

/// Whether a widget is marked to be left out of presets.
pub open spec fn nopre_of(w: Widget) -> bool {
    match w {
        Widget::Group { .. } => false,
        Widget::BoolParam { nopre, .. } => nopre,
        Widget::NumParam { metadata, .. } => metadata.nopre,
        Widget::NumDisplay { metadata, .. } => metadata.nopre,
    }
}

/// Going down to the group at place `i` first.
pub proof fn lemma_widget_below(ws: Seq<Widget>, i: int, at: Seq<int>)
    requires
        0 <= i < ws.len(),
        at.len() > 0,
    ensures
        (seq![i] + at).skip(1) == at,
        (seq![i] + at)[0] == i,
        (seq![i] + at).len() == at.len() + 1,
        widget_at(ws, seq![i] + at) == (match ws[i] {
            Widget::Group { inner, .. } => widget_at(inner@, at),
            _ => None,
        }),
{
    assert((seq![i] + at).skip(1) =~= at);
}

/// What is reached in a list is reached in a longer one.
pub proof fn lemma_widget_before(ws: Seq<Widget>, at: Seq<int>)
    requires
        ws.len() > 0,
        at.len() > 0,
        at[0] != ws.len() - 1,
    ensures
        widget_at(ws.drop_last(), at) == widget_at(ws, at),
{
}

/// The parts of a widget that are not its value stay: where two trees agree in
/// everything but the values of their parameters, both have a widget at the same
/// places, of the same kind, with the same label, layout, look, range and marks, and a
/// display has the same value too.
pub proof fn law_only_values_change(a: Seq<Widget>, b: Seq<Widget>, at: Seq<int>)
    requires
        all_same_but_values(a, b),
    ensures
        widget_at(a, at) is Some <==> widget_at(b, at) is Some,
        match (widget_at(a, at), widget_at(b, at)) {
            (
                Some(Widget::Group { layout: l1, label: n1, inner: i1 }),
                Some(Widget::Group { layout: l2, label: n2, inner: i2 }),
            ) => l1 == l2 && n1 == n2 && i1@.len() == i2@.len(),
            (
                Some(
                    Widget::BoolParam {
                        layout: l1,
                        label: n1,
                        hidden: h1,
                        tooltip: t1,
                        nopre: p1,
                        zone: _,
                    },
                ),
                Some(
                    Widget::BoolParam {
                        layout: l2,
                        label: n2,
                        hidden: h2,
                        tooltip: t2,
                        nopre: p2,
                        zone: _,
                    },
                ),
            ) => l1 == l2 && n1 == n2 && h1 == h2 && t1 == t2 && p1 == p2,
            (
                Some(
                    Widget::NumParam {
                        layout: l1,
                        style: y1,
                        label: n1,
                        min: a1,
                        max: b1,
                        step: s1,
                        init: d1,
                        metadata: m1,
                        zone: _,
                    },
                ),
                Some(
                    Widget::NumParam {
                        layout: l2,
                        style: y2,
                        label: n2,
                        min: a2,
                        max: b2,
                        step: s2,
                        init: d2,
                        metadata: m2,
                        zone: _,
                    },
                ),
            ) => l1 == l2 && y1 == y2 && n1 == n2 && a1 == a2 && b1 == b2 && s1 == s2 && d1 == d2
                && m1 == m2,
            (Some(v), Some(w)) => v is NumDisplay && v == w,
            _ => widget_at(a, at) is None && widget_at(b, at) is None,
        },
    decreases at.len(),
{
    if at.len() > 0 && 0 <= at[0] < a.len() {
        assert(same_but_values(a[at[0]], b[at[0]]));
        if at.len() > 1 {
            match (a[at[0]], b[at[0]]) {
                (Widget::Group { inner: x, .. }, Widget::Group { inner: y, .. }) => {
                    law_only_values_change(x@, y@, at.skip(1));
                },
                _ => {},
            }
        }
    }
}

} // verus!
