//! The voices of a polyphonic DSP.
//!
//! A polyphonic script has one group of widgets per voice, labelled `V1`, `V2`
//! and so on. Only `V1` is shown; its parameters are copied to the other voices,
//! except those that MIDI drives.
use vstd::prelude::*;
use vstd::string::StrSliceExecFns;

use crate::bits::Bits;
use crate::store::ParamStore;
use crate::text::{decimal, digit, is_digit, joined, same_text};
use crate::widgets::tree::{
    all_same_but_values, comes_after, label_of, lemma_widget_before, lemma_widget_below,
    same_but_values, widget_at, zone_of, Widget,
};

verus! {

/// Whether a label names a voice other than the first: a `V` followed by decimal
/// digits other than a lone `1`.
pub open spec fn other_voice(label: Seq<char>) -> bool {
    &&& label.len() >= 2
    &&& label[0] == 'V'
    &&& forall|i: int| 1 <= i < label.len() ==> is_digit(#[trigger] label[i])
    &&& label != seq!['V', '1']
}

/// Whether a group is hidden.
pub open spec fn skipped(label: Seq<char>) -> bool {
    label == "DSP2"@ || other_voice(label)
}

/// Whether a group is shown without its header.
pub open spec fn unwrapped(label: Seq<char>) -> bool {
    label == "Sequencer"@ || label == "Polyphonic"@ || label == "DSP1"@ || label == "V1"@ || label
        == "FaustDSP"@
}

/// Whether MIDI drives the parameters of this label.
pub open spec fn midi_driven(label: Seq<char>) -> bool {
    label == "freq"@ || label == "gate"@ || label == "gain"@
}

/// The label of the voice with the given number.
pub open spec fn voice_label(n: nat) -> Seq<char> {
    seq!['V'] + decimal(n)
}

/// Whether a label names a voice other than the first.
pub fn is_voice_group_to_skip(label: &str) -> (r: bool)
    ensures
        r == other_voice(label@),
{
    let n: usize = label.unicode_len();
    if n < 2 || label.get_char(0) != 'V' {
        return false;
    }
    let mut i: usize = 1;
    while i < n
        invariant
            1 <= i <= n,
            n == label@.len(),
            forall|k: int| 1 <= k < i ==> is_digit(#[trigger] label@[k]),
        decreases n - i,
    {
        let c = label.get_char(i);
        if !('0' <= c && c <= '9') {
            assert(!is_digit(label@[i as int]));
            return false;
        }
        i = i + 1;
    }
    let first = n == 2 && label.get_char(1) == '1';
    proof {
        if first {
            assert(label@ =~= seq!['V', '1']);
        } else {
            assert(seq!['V', '1'].len() == 2);
            assert(seq!['V', '1'][1] == '1');
        }
    }
    !first
}

/// Whether a group is hidden.
pub fn should_skip(label: &str) -> (r: bool)
    ensures
        r == skipped(label@),
{
    same_text(label, "DSP2") || is_voice_group_to_skip(label)
}

/// Whether a group is shown without its header.
pub fn should_unwrap(label: &str) -> (r: bool)
    ensures
        r == unwrapped(label@),
{
    same_text(label, "Sequencer") || same_text(label, "Polyphonic") || same_text(label, "DSP1")
        || same_text(label, "V1") || same_text(label, "FaustDSP")
}

/// Whether MIDI drives the parameters of this label.
fn is_midi_driven(label: &str) -> (r: bool)
    ensures
        r == midi_driven(label@),
{
    same_text(label, "freq") || same_text(label, "gate") || same_text(label, "gain")
}

/// The path of a widget relative to its voice.
pub open spec fn voice_path(path: Seq<char>, label: Seq<char>) -> Seq<char> {
    if path.len() == 0 {
        label
    } else {
        path + seq!['/'] + label
    }
}

/// The path of a widget relative to its voice.
fn build_voice_path(path: &str, label: &str) -> (r: String)
    ensures
        r@ == voice_path(path@, label@),
{
    if path.is_empty() {
        label.to_owned()
    } else {
        let mut start: String = path.to_owned();
        start.push('/');
        assert(start@ =~= path@ + seq!['/']);
        joined(start.as_str(), label)
    }
}

/// `values` with the parameters of the widgets below `path` added, in order.
pub open spec fn collected(
    ws: Seq<Widget>,
    path: Seq<char>,
    values: Map<Seq<char>, Bits>,
) -> Map<Seq<char>, Bits>
    decreases ws,
{
    if ws.len() == 0 {
        values
    } else {
        collected_one(ws.last(), path, collected(ws.drop_last(), path, values))
    }
}

/// `values` with the parameters of one widget below `path` added. What MIDI
/// drives is left out, with all that stands below it.
pub open spec fn collected_one(
    w: Widget,
    path: Seq<char>,
    values: Map<Seq<char>, Bits>,
) -> Map<Seq<char>, Bits>
    decreases w,
{
    let at = voice_path(path, label_of(w));
    if midi_driven(label_of(w)) {
        values
    } else {
        match w {
            Widget::Group { inner, .. } => collected(inner@, at, values),
            Widget::NumParam { zone, .. } => values.insert(at, zone),
            Widget::BoolParam { zone, .. } => values.insert(at, zone),
            Widget::NumDisplay { .. } => values,
        }
    }
}

/// Adds the parameters of the widgets below `path` to `values`.
pub fn collect_all_params(widgets: &Vec<Widget>, path: &str, values: &mut ParamStore)
    ensures
        final(values)@ == collected(widgets@, path@, old(values)@),
    decreases widgets@,
{
    let mut i: usize = 0;
    assert(widgets@.take(0) =~= Seq::<Widget>::empty());
    while i < widgets.len()
        invariant
            i <= widgets@.len(),
            values@ == collected(widgets@.take(i as int), path@, old(values)@),
        decreases widgets@.len() - i,
    {
        proof {
            assert(widgets@.take(i + 1).drop_last() =~= widgets@.take(i as int));
            assert(decreases_to!(widgets@ => widgets@[i as int]));
        }
        let ghost before = values@;
        let label = widgets[i].label();
        if !is_midi_driven(label) {
            let at = build_voice_path(path, label);
            match &widgets[i] {
                Widget::Group { inner, .. } => {
                    collect_all_params(inner, at.as_str(), values);
                },
                Widget::NumParam { zone, .. } => {
                    values.insert(at, *zone);
                },
                Widget::BoolParam { zone, .. } => {
                    values.insert(at, *zone);
                },
                Widget::NumDisplay { .. } => {},
            }
        }
        proof {
            assert(widgets@.take(i + 1).last() == widgets@[i as int]);
            assert(values@ == collected_one(widgets@[i as int], path@, before));
        }
        i = i + 1;
    }
    assert(widgets@.take(i as int) =~= widgets@);
}

/// `values` with the parameters of every group labelled `target` added, paths
/// relative to that group.
pub open spec fn voice_collected(
    ws: Seq<Widget>,
    target: Seq<char>,
    values: Map<Seq<char>, Bits>,
) -> Map<Seq<char>, Bits>
    decreases ws,
{
    if ws.len() == 0 {
        values
    } else {
        voice_collected_one(ws.last(), target, voice_collected(ws.drop_last(), target, values))
    }
}

/// `voice_collected` for one widget.
pub open spec fn voice_collected_one(
    w: Widget,
    target: Seq<char>,
    values: Map<Seq<char>, Bits>,
) -> Map<Seq<char>, Bits>
    decreases w,
{
    match w {
        Widget::Group { label, inner, .. } => if label@ == target {
            collected(inner@, Seq::empty(), values)
        } else {
            voice_collected(inner@, target, values)
        },
        _ => values,
    }
}

/// Adds the parameters of every group labelled `target_voice` to `values`.
pub fn collect_voice_params(widgets: &Vec<Widget>, target_voice: &str, values: &mut ParamStore)
    ensures
        final(values)@ == voice_collected(widgets@, target_voice@, old(values)@),
    decreases widgets@,
{
    let mut i: usize = 0;
    assert(widgets@.take(0) =~= Seq::<Widget>::empty());
    while i < widgets.len()
        invariant
            i <= widgets@.len(),
            values@ == voice_collected(widgets@.take(i as int), target_voice@, old(values)@),
        decreases widgets@.len() - i,
    {
        proof {
            assert(widgets@.take(i + 1).drop_last() =~= widgets@.take(i as int));
            assert(decreases_to!(widgets@ => widgets@[i as int]));
            reveal_strlit("");
            assert(""@ =~= Seq::<char>::empty());
        }
        let ghost before = values@;
        match &widgets[i] {
            Widget::Group { label, inner, .. } => {
                if same_text(label.as_str(), target_voice) {
                    collect_all_params(inner, "", values);
                } else {
                    collect_voice_params(inner, target_voice, values);
                }
            },
            _ => {},
        }
        proof {
            assert(widgets@.take(i + 1).last() == widgets@[i as int]);
            assert(values@ == voice_collected_one(widgets@[i as int], target_voice@, before));
        }
        i = i + 1;
    }
    assert(widgets@.take(i as int) =~= widgets@);
}

/// A parameter with another value.
pub open spec fn with_zone(w: Widget, value: Bits) -> Widget {
    match w {
        Widget::BoolParam { layout, label, hidden, tooltip, nopre, .. } => Widget::BoolParam {
            layout,
            label,
            zone: value,
            hidden,
            tooltip,
            nopre,
        },
        Widget::NumParam { layout, style, label, min, max, step, init, metadata, .. } =>
        Widget::NumParam { layout, style, label, zone: value, min, max, step, init, metadata },
        _ => w,
    }
}

/// Whether a label names a voice after the first.
pub open spec fn later_voice(label: Seq<char>) -> bool {
    exists|n: nat| n >= 2 && label == #[trigger] voice_label(n)
}

/// The number of a voice.
pub open spec fn voice_number(label: Seq<char>) -> nat {
    number(label.skip(1))
}

/// A voice after the first in which a widget stands: its label, and the path relative
/// to it, where MIDI drives nothing on the way.
pub struct Scope {
    pub voice: Seq<char>,
    pub path: Option<Seq<char>>,
}

/// Whether a widget stands in the voice of this label.
pub open spec fn stands_in(scopes: Seq<Scope>, label: Seq<char>) -> bool {
    exists|i: int| 0 <= i < scopes.len() && (#[trigger] scopes[i]).voice == label
}

/// A scope for the widgets in a group.
pub open spec fn scope_below(scope: Scope, label: Seq<char>) -> Scope {
    Scope {
        voice: scope.voice,
        path: match scope.path {
            Some(path) => if midi_driven(label) {
                None
            } else {
                Some(voice_path(path, label))
            },
            None => None,
        },
    }
}

/// The scopes of the widgets in a group. Inside a voice, a group of the same label is
/// no voice of its own.
pub open spec fn below(scopes: Seq<Scope>, label: Seq<char>) -> Seq<Scope> {
    let inside = Seq::new(scopes.len(), |i: int| scope_below(scopes[i], label));
    if later_voice(label) && !stands_in(scopes, label) {
        inside.push(Scope { voice: label, path: Some(Seq::empty()) })
    } else {
        inside
    }
}

/// The value for a parameter in one of the voices it stands in, where there is one.
pub open spec fn value_in(
    scope: Scope,
    label: Seq<char>,
    values: Map<Seq<char>, Bits>,
) -> Option<Bits> {
    match scope.path {
        Some(path) => if values.dom().contains(voice_path(path, label)) {
            Some(values[voice_path(path, label)])
        } else {
            None
        },
        None => None,
    }
}

/// The voice that decides about a parameter: of those in which there is a value for it,
/// the one with the highest number.
pub open spec fn deciding(
    scopes: Seq<Scope>,
    label: Seq<char>,
    values: Map<Seq<char>, Bits>,
) -> Option<int>
    decreases scopes.len(),
{
    if scopes.len() == 0 {
        None
    } else {
        let last = scopes.last();
        let before = deciding(scopes.drop_last(), label, values);
        if value_in(last, label, values) is None {
            before
        } else {
            match before {
                Some(i) => if voice_number(scopes[i].voice) < voice_number(last.voice) {
                    Some(scopes.len() - 1)
                } else {
                    Some(i)
                },
                None => Some(scopes.len() - 1),
            }
        }
    }
}

/// The value for a parameter in the voice that decides about it.
pub open spec fn looked_up(
    scopes: Seq<Scope>,
    label: Seq<char>,
    values: Map<Seq<char>, Bits>,
) -> Option<Bits> {
    match deciding(scopes, label, values) {
        Some(i) => value_in(scopes[i], label, values),
        None => None,
    }
}

/// Whether `new` is `old` with every parameter in a voice after the first set to its
/// value in `values`, where there is one and MIDI does not drive it.
pub open spec fn synced(
    old_w: Widget,
    new_w: Widget,
    scopes: Seq<Scope>,
    values: Map<Seq<char>, Bits>,
) -> bool
    decreases old_w,
{
    match old_w {
        Widget::Group { layout, label, inner } => match new_w {
            Widget::Group { layout: layout2, label: label2, inner: inner2 } => layout == layout2
                && label == label2 && all_synced(inner@, inner2@, below(scopes, label@), values),
            _ => false,
        },
        Widget::NumDisplay { .. } => new_w == old_w,
        _ => new_w == match looked_up(scopes, label_of(old_w), values) {
            Some(value) => if midi_driven(label_of(old_w)) {
                old_w
            } else {
                with_zone(old_w, value)
            },
            None => old_w,
        },
    }
}

/// `synced`, widget by widget.
pub open spec fn all_synced(
    old_ws: Seq<Widget>,
    new_ws: Seq<Widget>,
    scopes: Seq<Scope>,
    values: Map<Seq<char>, Bits>,
) -> bool
    decreases old_ws,
{
    &&& old_ws.len() == new_ws.len()
    &&& forall|i: int|
        0 <= i < old_ws.len() ==> synced(#[trigger] old_ws[i], new_ws[i], scopes, values)
}

/// The number that decimal digits stand for.
pub open spec fn number(digits: Seq<char>) -> nat
    decreases digits.len(),
{
    if digits.len() == 0 {
        0
    } else {
        number(digits.drop_last()) * 10 + (digits.last() as nat - '0' as nat) as nat
    }
}

/// Decimal digits without a leading zero are the decimal form of their number.
proof fn lemma_number(digits: Seq<char>)
    requires
        digits.len() >= 1,
        digits[0] != '0',
        forall|i: int| 0 <= i < digits.len() ==> is_digit(#[trigger] digits[i]),
    ensures
        number(digits) >= 1,
        decimal(number(digits)) == digits,
    decreases digits.len(),
{
    let rest = digits.drop_last();
    let last = digits.last();
    let value = (last as nat - '0' as nat) as nat;
    assert(is_digit(digits[digits.len() - 1]));
    assert(value < 10);
    assert(digit(value) == last);
    assert(rest.push(last) =~= digits);
    if digits.len() == 1 {
        assert(number(rest) == 0);
        assert(decimal(number(digits)) =~= digits);
    } else {
        assert forall|i: int| 0 <= i < rest.len() implies is_digit(#[trigger] rest[i]) by {
            assert(is_digit(digits[i]));
        }
        lemma_number(rest);
        assert(number(digits) / 10 == number(rest) && number(digits) % 10 == value);
    }
}

/// The decimal form of a number other than zero does not start with a zero.
proof fn lemma_decimal_start(n: nat)
    requires
        n >= 1,
    ensures
        decimal(n).len() >= 1,
        decimal(n)[0] != '0',
    decreases n,
{
    if n >= 10 {
        lemma_decimal_start(n / 10);
    }
}

/// The labels of the voices after the first are those of the other voices that have
/// no leading zero in their number.
proof fn lemma_later_voice(label: Seq<char>)
    ensures
        later_voice(label) <==> other_voice(label) && label[1] != '0',
{
    if later_voice(label) {
        let n = choose|n: nat| n >= 2 && label == #[trigger] voice_label(n);
        lemma_voice_is_other(n);
        lemma_decimal_start(n);
        assert(label[1] == decimal(n)[0]);
    }
    if other_voice(label) && label[1] != '0' {
        let digits = label.skip(1);
        assert forall|i: int| 0 <= i < digits.len() implies is_digit(#[trigger] digits[i]) by {
            assert(is_digit(label[i + 1]));
        }
        lemma_number(digits);
        let n = number(digits);
        assert(label =~= voice_label(n));
        if n == 1 {
            assert(voice_label(1) =~= seq!['V', '1']);
        }
    }
}

/// Whether a label names a voice after the first.
fn is_later_voice(label: &str) -> (r: bool)
    ensures
        r == later_voice(label@),
{
    proof {
        lemma_later_voice(label@);
    }
    is_voice_group_to_skip(label) && label.get_char(1) != '0'
}

/// Of two texts of digits the longer one is the higher number, where it has no leading
/// zero.
proof fn lemma_longer_is_higher(a: Seq<char>, b: Seq<char>)
    requires
        a.len() < b.len(),
        b[0] != '0',
        forall|i: int| 0 <= i < a.len() ==> is_digit(#[trigger] a[i]),
        forall|i: int| 0 <= i < b.len() ==> is_digit(#[trigger] b[i]),
    ensures
        number(a) < number(b),
    decreases a.len(),
{
    if a.len() == 0 {
        lemma_number(b);
    } else {
        let x = a.drop_last();
        let y = b.drop_last();
        assert forall|i: int| 0 <= i < x.len() implies is_digit(#[trigger] x[i]) by {
            assert(is_digit(a[i]));
        }
        assert forall|i: int| 0 <= i < y.len() implies is_digit(#[trigger] y[i]) by {
            assert(is_digit(b[i]));
        }
        lemma_longer_is_higher(x, y);
        assert(is_digit(a[a.len() - 1]) && is_digit(b[b.len() - 1]));
    }
}

/// Whether the number of one voice is below that of another.
fn is_lower_voice(a: &str, b: &str) -> (r: bool)
    requires
        later_voice(a@),
        later_voice(b@),
    ensures
        r == (voice_number(a@) < voice_number(b@)),
{
    let n: usize = a.unicode_len();
    let m: usize = b.unicode_len();
    let ghost x = a@.skip(1);
    let ghost y = b@.skip(1);
    proof {
        lemma_later_voice(a@);
        lemma_later_voice(b@);
        assert forall|i: int| 0 <= i < x.len() implies is_digit(#[trigger] x[i]) by {
            assert(is_digit(a@[i + 1]));
        }
        assert forall|i: int| 0 <= i < y.len() implies is_digit(#[trigger] y[i]) by {
            assert(is_digit(b@[i + 1]));
        }
        if n < m {
            lemma_longer_is_higher(x, y);
        } else if m < n {
            lemma_longer_is_higher(y, x);
        }
    }
    if n != m {
        return n < m;
    }
    let mut lower: bool = false;
    let mut higher: bool = false;
    let mut i: usize = 1;
    while i < n
        invariant
            1 <= i <= n,
            n == a@.len(),
            n == b@.len(),
            x == a@.skip(1),
            y == b@.skip(1),
            forall|k: int| 0 <= k < x.len() ==> is_digit(#[trigger] x[k]),
            forall|k: int| 0 <= k < y.len() ==> is_digit(#[trigger] y[k]),
            lower == (number(x.take(i - 1)) < number(y.take(i - 1))),
            higher == (number(x.take(i - 1)) > number(y.take(i - 1))),
        decreases n - i,
    {
        let c = a.get_char(i);
        let d = b.get_char(i);
        proof {
            assert(x.take(i as int).drop_last() =~= x.take(i - 1));
            assert(y.take(i as int).drop_last() =~= y.take(i - 1));
            assert(x.take(i as int).last() == x[i - 1] && x[i - 1] == c);
            assert(y.take(i as int).last() == y[i - 1] && y[i - 1] == d);
            assert(is_digit(x[i - 1]) && is_digit(y[i - 1]));
        }
        if !lower && !higher {
            lower = c < d;
            higher = d < c;
        }
        i = i + 1;
    }
    proof {
        assert(x.take(i - 1) =~= x);
        assert(y.take(i - 1) =~= y);
    }
    lower
}

/// A voice after the first in which a widget stands, and the path relative to it.
struct VoiceScope {
    voice: String,
    path: Option<String>,
}

impl View for VoiceScope {
    type V = Scope;

    closed spec fn view(&self) -> Scope {
        Scope {
            voice: self.voice@,
            path: match self.path {
                Some(path) => Some(path@),
                None => None,
            },
        }
    }
}

/// The scopes of a list.
spec fn views(list: Seq<VoiceScope>) -> Seq<Scope> {
    Seq::new(list.len(), |i: int| list[i]@)
}

/// Whether every scope is that of a voice after the first.
spec fn well_formed(scopes: Seq<Scope>) -> bool {
    forall|i: int| 0 <= i < scopes.len() ==> later_voice((#[trigger] scopes[i]).voice)
}

/// The scopes of the widgets in a group.
fn scopes_below(scopes: &Vec<VoiceScope>, label: &str) -> (r: Vec<VoiceScope>)
    requires
        well_formed(views(scopes@)),
    ensures
        views(r@) == below(views(scopes@), label@),
        well_formed(views(r@)),
{
    let driven: bool = is_midi_driven(label);
    let ghost all = views(scopes@);
    let mut r: Vec<VoiceScope> = Vec::new();
    let mut inside: bool = false;
    let mut i: usize = 0;
    while i < scopes.len()
        invariant
            i <= scopes@.len(),
            all == views(scopes@),
            driven == midi_driven(label@),
            r@.len() == i,
            forall|k: int| 0 <= k < i ==> (#[trigger] r@[k])@ == scope_below(all[k], label@),
            inside == stands_in(all.take(i as int), label@),
        decreases scopes@.len() - i,
    {
        let scope = &scopes[i];
        let path: Option<String> = match &scope.path {
            Some(path) => if driven {
                None
            } else {
                Some(build_voice_path(path.as_str(), label))
            },
            None => None,
        };
        let same: bool = same_text(scope.voice.as_str(), label);
        proof {
            let before = all.take(i as int);
            let now = all.take(i + 1);
            assert(now[i as int].voice == scope.voice@);
            assert forall|k: int| 0 <= k < before.len() implies #[trigger] now[k]
                == before[k] by {}
            if inside {
                let k = choose|k: int|
                    0 <= k < before.len() && (#[trigger] before[k]).voice == label@;
                assert(now[k].voice == label@);
            }
            if stands_in(now, label@) && !same {
                let k = choose|k: int| 0 <= k < now.len() && (#[trigger] now[k]).voice == label@;
                assert(before[k].voice == label@);
            }
        }
        inside = inside || same;
        r.push(VoiceScope { voice: scope.voice.as_str().to_owned(), path });
        assert(r@[i as int]@ == scope_below(all[i as int], label@));
        i = i + 1;
    }
    assert(all.take(i as int) =~= all);
    if !inside && is_later_voice(label) {
        proof {
            reveal_strlit("");
            assert(""@ =~= Seq::<char>::empty());
        }
        r.push(VoiceScope { voice: label.to_owned(), path: Some("".to_owned()) });
    }
    proof {
        assert(views(r@) =~= below(all, label@));
        assert forall|k: int| 0 <= k < r@.len() implies later_voice(
            (#[trigger] views(r@)[k]).voice,
        ) by {
            if k < all.len() {
                assert(later_voice(all[k].voice));
            }
        }
    }
    r
}

/// The value for a parameter in one of the voices it stands in, where there is one.
fn value_of(scope: &VoiceScope, label: &str, values: &ParamStore) -> (r: Option<Bits>)
    ensures
        r == value_in(scope@, label@, values@),
{
    match &scope.path {
        Some(path) => {
            let at = build_voice_path(path.as_str(), label);
            values.get(at.as_str())
        },
        None => None,
    }
}

/// The voice that decides about a parameter is one of those it stands in, with a value.
proof fn lemma_deciding(scopes: Seq<Scope>, label: Seq<char>, values: Map<Seq<char>, Bits>)
    ensures
        deciding(scopes, label, values) matches Some(i) ==> 0 <= i < scopes.len() && value_in(
            scopes[i],
            label,
            values,
        ) is Some,
    decreases scopes.len(),
{
    if scopes.len() > 0 {
        lemma_deciding(scopes.drop_last(), label, values);
    }
}

/// The value for a parameter in the voice that decides about it.
fn look_up(scopes: &Vec<VoiceScope>, label: &str, values: &ParamStore) -> (r: Option<Bits>)
    requires
        well_formed(views(scopes@)),
    ensures
        r == looked_up(views(scopes@), label@, values@),
{
    let ghost all = views(scopes@);
    let mut best: Option<usize> = None;
    let mut r: Option<Bits> = None;
    let mut i: usize = 0;
    while i < scopes.len()
        invariant
            i <= scopes@.len(),
            all == views(scopes@),
            well_formed(all),
            match best {
                Some(k) => k < i && deciding(all.take(i as int), label@, values@) == Some(k as int)
                    && r == value_in(all[k as int], label@, values@),
                None => deciding(all.take(i as int), label@, values@) is None && r is None,
            },
        decreases scopes@.len() - i,
    {
        proof {
            assert(all.take(i + 1).drop_last() =~= all.take(i as int));
            assert(all.take(i + 1).last() == all[i as int]);
            assert(later_voice(all[i as int].voice));
        }
        let found = value_of(&scopes[i], label, values);
        if found.is_some() {
            let higher: bool = match best {
                Some(k) => {
                    assert(later_voice(all[k as int].voice));
                    assert(all.take(i + 1)[k as int] == all[k as int]);
                    is_lower_voice(scopes[k].voice.as_str(), scopes[i].voice.as_str())
                },
                None => true,
            };
            if higher {
                best = Some(i);
                r = found;
            }
        }
        i = i + 1;
    }
    assert(all.take(i as int) =~= all);
    r
}

/// Sets the parameters in the given scopes, and in the voices after the first that stand
/// in them, to their values in `values`.
fn apply_all_params(widgets: &mut Vec<Widget>, scopes: &Vec<VoiceScope>, values: &ParamStore)
    requires
        well_formed(views(scopes@)),
    ensures
        all_synced(old(widgets)@, final(widgets)@, views(scopes@), values@),
    decreases old(widgets)@,
{
    let ghost before = widgets@;
    let mut i: usize = 0;
    while i < widgets.len()
        invariant
            i <= widgets@.len(),
            well_formed(views(scopes@)),
            before == old(widgets)@,
            widgets@.len() == before.len(),
            forall|k: int| i <= k < before.len() ==> widgets@[k] == #[trigger] before[k],
            forall|k: int|
                0 <= k < i ==> synced(#[trigger] before[k], widgets@[k], views(scopes@), values@),
        decreases widgets@.len() - i,
    {
        proof {
            assert(before[i as int] == widgets@[i as int]);
            assert(decreases_to!(before => before[i as int]));
        }
        let label = widgets[i].label();
        let driven = is_midi_driven(label);
        let found = look_up(scopes, label, values);
        let lower = scopes_below(scopes, label);
        match &mut widgets[i] {
            Widget::Group { inner, .. } => {
                apply_all_params(inner, &lower, values);
            },
            Widget::NumParam { zone, .. } => {
                if let Some(value) = found {
                    if !driven {
                        *zone = value;
                    }
                }
            },
            Widget::BoolParam { zone, .. } => {
                if let Some(value) = found {
                    if !driven {
                        *zone = value;
                    }
                }
            },
            Widget::NumDisplay { .. } => {},
        }
        assert(synced(before[i as int], widgets@[i as int], views(scopes@), values@));
        i = i + 1;
    }
}

/// Applies `values` to every voice after the first.
pub fn apply_voice_params(widgets: &mut Vec<Widget>, values: &ParamStore)
    ensures
        all_synced(old(widgets)@, final(widgets)@, Seq::empty(), values@),
{
    let scopes: Vec<VoiceScope> = Vec::new();
    assert(views(scopes@) =~= Seq::<Scope>::empty());
    apply_all_params(widgets, &scopes, values);
}

/// The parameters of the first voice.
pub open spec fn first_voice(ws: Seq<Widget>) -> Map<Seq<char>, Bits> {
    voice_collected(ws, "V1"@, Map::empty())
}

/// Gives the voices after the first the parameters of the first.
pub fn sync_voice_parameters(widgets: &mut Vec<Widget>)
    ensures
        all_synced(old(widgets)@, final(widgets)@, Seq::empty(), first_voice(old(widgets)@)),
{
    let mut values = ParamStore::new();
    collect_voice_params(widgets, "V1", &mut values);
    apply_voice_params(widgets, &values);
}

/// Whether `new` is `old` with every parameter below `path` set to its value in
/// `values`, where there is one and MIDI does not drive it.
pub open spec fn applied(
    old_w: Widget,
    new_w: Widget,
    path: Seq<char>,
    values: Map<Seq<char>, Bits>,
) -> bool
    decreases old_w,
{
    let at = voice_path(path, label_of(old_w));
    match old_w {
        Widget::Group { layout, label, inner } => match new_w {
            Widget::Group { layout: layout2, label: label2, inner: inner2 } => layout == layout2
                && label == label2 && if midi_driven(label@) {
                all_alike(inner@, inner2@)
            } else {
                all_applied(inner@, inner2@, at, values)
            },
            _ => false,
        },
        Widget::NumDisplay { .. } => new_w == old_w,
        _ => if midi_driven(label_of(old_w)) || !values.dom().contains(at) {
            new_w == old_w
        } else {
            new_w == with_zone(old_w, values[at])
        },
    }
}

/// `applied`, widget by widget.
pub open spec fn all_applied(
    old_ws: Seq<Widget>,
    new_ws: Seq<Widget>,
    path: Seq<char>,
    values: Map<Seq<char>, Bits>,
) -> bool
    decreases old_ws,
{
    &&& old_ws.len() == new_ws.len()
    &&& forall|i: int|
        0 <= i < old_ws.len() ==> applied(#[trigger] old_ws[i], new_ws[i], path, values)
}

/// Whether two widgets are the same, values included.
pub open spec fn alike(a: Widget, b: Widget) -> bool
    decreases a,
{
    match a {
        Widget::Group { layout, label, inner } => match b {
            Widget::Group { layout: layout2, label: label2, inner: inner2 } => layout == layout2
                && label == label2 && all_alike(inner@, inner2@),
            _ => false,
        },
        _ => a == b,
    }
}

/// `alike`, widget by widget.
pub open spec fn all_alike(a: Seq<Widget>, b: Seq<Widget>) -> bool
    decreases a,
{
    &&& a.len() == b.len()
    &&& forall|i: int| 0 <= i < a.len() ==> alike(#[trigger] a[i], b[i])
}

/// Whether no group in a widget, itself included, is a voice after the first.
pub open spec fn voiceless(w: Widget) -> bool
    decreases w,
{
    match w {
        Widget::Group { label, inner, .. } => !later_voice(label@) && all_voiceless(inner@),
        _ => true,
    }
}

/// `voiceless`, widget by widget.
pub open spec fn all_voiceless(ws: Seq<Widget>) -> bool
    decreases ws,
{
    forall|i: int| 0 <= i < ws.len() ==> voiceless(#[trigger] ws[i])
}

/// Whether no voice after the first stands inside another one.
pub open spec fn voices_apart(w: Widget) -> bool
    decreases w,
{
    match w {
        Widget::Group { label, inner, .. } => if later_voice(label@) {
            all_voiceless(inner@)
        } else {
            all_voices_apart(inner@)
        },
        _ => true,
    }
}

/// `voices_apart`, widget by widget.
pub open spec fn all_voices_apart(ws: Seq<Widget>) -> bool
    decreases ws,
{
    forall|i: int| 0 <= i < ws.len() ==> voices_apart(#[trigger] ws[i])
}

/// Whether `new` is `old` with `values` applied in each voice after the first and
/// everything else as it was.
pub open spec fn unified(old_w: Widget, new_w: Widget, values: Map<Seq<char>, Bits>) -> bool
    decreases old_w,
{
    match old_w {
        Widget::Group { layout, label, inner } => match new_w {
            Widget::Group { layout: layout2, label: label2, inner: inner2 } => layout == layout2
                && label == label2 && if later_voice(label@) {
                all_applied(inner@, inner2@, Seq::empty(), values)
            } else {
                all_unified(inner@, inner2@, values)
            },
            _ => false,
        },
        _ => new_w == old_w,
    }
}

/// `unified`, widget by widget.
pub open spec fn all_unified(
    old_ws: Seq<Widget>,
    new_ws: Seq<Widget>,
    values: Map<Seq<char>, Bits>,
) -> bool
    decreases old_ws,
{
    &&& old_ws.len() == new_ws.len()
    &&& forall|i: int| 0 <= i < old_ws.len() ==> unified(#[trigger] old_ws[i], new_ws[i], values)
}

/// Whether MIDI drives something on the way from every voice.
spec fn all_driven(scopes: Seq<Scope>) -> bool {
    forall|i: int| 0 <= i < scopes.len() ==> (#[trigger] scopes[i]).path is None
}

/// Where MIDI drives something on the way from every voice, nothing is looked up.
proof fn lemma_driven_has_no_value(
    scopes: Seq<Scope>,
    label: Seq<char>,
    values: Map<Seq<char>, Bits>,
)
    requires
        all_driven(scopes),
    ensures
        looked_up(scopes, label, values) is None,
{
    lemma_deciding(scopes, label, values);
}

/// Outside the voices, and below what MIDI drives, nothing changes.
proof fn lemma_voiceless_kept(
    a: Widget,
    b: Widget,
    scopes: Seq<Scope>,
    values: Map<Seq<char>, Bits>,
)
    requires
        voiceless(a),
        all_driven(scopes),
        synced(a, b, scopes, values),
    ensures
        alike(a, b),
    decreases a,
{
    match (a, b) {
        (Widget::Group { label, inner: x, .. }, Widget::Group { inner: y, .. }) => {
            let lower = below(scopes, label@);
            assert forall|i: int| 0 <= i < x@.len() implies alike(#[trigger] x@[i], y@[i]) by {
                assert(decreases_to!(x@ => x@[i]));
                assert(voiceless(x@[i]));
                lemma_voiceless_kept(x@[i], y@[i], lower, values);
            }
        },
        _ => {
            lemma_driven_has_no_value(scopes, label_of(a), values);
        },
    }
}

/// In a voice with no other voice inside, values are looked up at one path.
proof fn lemma_one_voice_applied(
    a: Widget,
    b: Widget,
    voice: Seq<char>,
    path: Seq<char>,
    values: Map<Seq<char>, Bits>,
)
    requires
        voiceless(a),
        synced(a, b, seq![Scope { voice, path: Some(path) }], values),
    ensures
        applied(a, b, path, values),
    decreases a,
{
    let scope = Scope { voice, path: Some(path) };
    match (a, b) {
        (Widget::Group { label, inner: x, .. }, Widget::Group { inner: y, .. }) => {
            let at = voice_path(path, label@);
            assert(below(seq![scope], label@) =~= seq![scope_below(scope, label@)]);
            if midi_driven(label@) {
                let lower = seq![scope_below(scope, label@)];
                assert forall|i: int| 0 <= i < x@.len() implies alike(#[trigger] x@[i], y@[i]) by {
                    assert(voiceless(x@[i]));
                    lemma_voiceless_kept(x@[i], y@[i], lower, values);
                }
            } else {
                assert forall|i: int| 0 <= i < x@.len() implies applied(
                    #[trigger] x@[i],
                    y@[i],
                    at,
                    values,
                ) by {
                    assert(decreases_to!(x@ => x@[i]));
                    assert(voiceless(x@[i]));
                    lemma_one_voice_applied(x@[i], y@[i], voice, at, values);
                }
            }
        },
        _ => {
            let label = label_of(a);
            assert(seq![scope].drop_last() =~= Seq::<Scope>::empty());
            assert(deciding(seq![scope].drop_last(), label, values) is None);
            assert(seq![scope].last() == scope);
        },
    }
}

/// Where the voices stand apart, each one after the first takes the values.
proof fn lemma_unified(a: Widget, b: Widget, values: Map<Seq<char>, Bits>)
    requires
        voices_apart(a),
        synced(a, b, Seq::empty(), values),
    ensures
        unified(a, b, values),
    decreases a,
{
    match (a, b) {
        (Widget::Group { label, inner: x, .. }, Widget::Group { inner: y, .. }) => {
            let root = Seq::<Scope>::empty();
            if later_voice(label@) {
                let start = Seq::<char>::empty();
                assert(!stands_in(root, label@));
                assert(below(root, label@) =~= seq![Scope { voice: label@, path: Some(start) }]);
                assert forall|i: int| 0 <= i < x@.len() implies applied(
                    #[trigger] x@[i],
                    y@[i],
                    start,
                    values,
                ) by {
                    assert(voiceless(x@[i]));
                    lemma_one_voice_applied(x@[i], y@[i], label@, start, values);
                }
            } else {
                assert(below(root, label@) =~= root);
                assert forall|i: int| 0 <= i < x@.len() implies unified(
                    #[trigger] x@[i],
                    y@[i],
                    values,
                ) by {
                    assert(decreases_to!(x@ => x@[i]));
                    assert(voices_apart(x@[i]));
                    lemma_unified(x@[i], y@[i], values);
                }
            }
        },
        _ => {},
    }
}

/// All voices follow the first: where no voice stands inside another, a
/// synchronisation gives every parameter of a voice after the first that the first
/// voice has too, and that MIDI does not drive, the first voice's value, and changes
/// nothing else.
pub proof fn law_voices_follow_the_first(old_ws: Seq<Widget>, new_ws: Seq<Widget>)
    requires
        all_voices_apart(old_ws),
        all_synced(old_ws, new_ws, Seq::empty(), first_voice(old_ws)),
    ensures
        all_unified(old_ws, new_ws, first_voice(old_ws)),
{
    let values = first_voice(old_ws);
    assert forall|i: int| 0 <= i < old_ws.len() implies unified(
        #[trigger] old_ws[i],
        new_ws[i],
        values,
    ) by {
        assert(voices_apart(old_ws[i]));
        lemma_unified(old_ws[i], new_ws[i], values);
    }
}

/// What holds no voice after the first, the first voice included, is left as it
/// was.
pub proof fn law_first_voice_is_kept(old_ws: Seq<Widget>, new_ws: Seq<Widget>, i: int)
    requires
        all_synced(old_ws, new_ws, Seq::empty(), first_voice(old_ws)),
        0 <= i < old_ws.len(),
        voiceless(old_ws[i]),
    ensures
        new_ws.len() == old_ws.len(),
        alike(old_ws[i], new_ws[i]),
{
    lemma_voiceless_kept(old_ws[i], new_ws[i], Seq::empty(), first_voice(old_ws));
}

/// A parameter that MIDI drives keeps its value in every voice, so that voices can
/// sound different notes. So does all that stands in a group of such a label, where
/// no voice stands in it.
pub proof fn law_midi_driven_parameters_are_kept(
    old_w: Widget,
    new_w: Widget,
    scopes: Seq<Scope>,
    values: Map<Seq<char>, Bits>,
)
    requires
        synced(old_w, new_w, scopes, values),
        midi_driven(label_of(old_w)),
        voiceless(old_w),
    ensures
        alike(old_w, new_w),
{
    match (old_w, new_w) {
        (Widget::Group { label, inner: x, .. }, Widget::Group { inner: y, .. }) => {
            let lower = below(scopes, label@);
            assert forall|i: int| 0 <= i < x@.len() implies alike(#[trigger] x@[i], y@[i]) by {
                assert(voiceless(x@[i]));
                lemma_voiceless_kept(x@[i], y@[i], lower, values);
            }
        },
        _ => {},
    }
}

/// The parameters of the widgets below `path` with their values, in order. What MIDI
/// drives is left out, with all that stands below it.
pub open spec fn voice_params(ws: Seq<Widget>, path: Seq<char>) -> Seq<(Seq<char>, Bits)>
    decreases ws,
{
    if ws.len() == 0 {
        Seq::empty()
    } else {
        voice_params(ws.drop_last(), path) + voice_params_of(ws.last(), path)
    }
}

/// `voice_params` for one widget.
pub open spec fn voice_params_of(w: Widget, path: Seq<char>) -> Seq<(Seq<char>, Bits)>
    decreases w,
{
    let at = voice_path(path, label_of(w));
    if midi_driven(label_of(w)) {
        Seq::empty()
    } else {
        match w {
            Widget::Group { inner, .. } => voice_params(inner@, at),
            Widget::NumParam { zone, .. } => seq![(at, zone)],
            Widget::BoolParam { zone, .. } => seq![(at, zone)],
            Widget::NumDisplay { .. } => Seq::empty(),
        }
    }
}

/// The contents of the groups that are a voice after the first (`later`) or the first
/// voice (otherwise), in order, those inside another such group left out.
pub open spec fn voices(ws: Seq<Widget>, later: bool) -> Seq<Seq<Widget>>
    decreases ws,
{
    if ws.len() == 0 {
        Seq::empty()
    } else {
        voices(ws.drop_last(), later) + voices_of(ws.last(), later)
    }
}

/// `voices` for one widget.
pub open spec fn voices_of(w: Widget, later: bool) -> Seq<Seq<Widget>>
    decreases w,
{
    match w {
        Widget::Group { label, inner, .. } => if (later && later_voice(label@)) || (!later && label@
            == "V1"@) {
            seq![inner@]
        } else {
            voices(inner@, later)
        },
        _ => Seq::empty(),
    }
}

/// Values added one after the other.
spec fn inserted(
    values: Map<Seq<char>, Bits>,
    params: Seq<(Seq<char>, Bits)>,
) -> Map<Seq<char>, Bits>
    decreases params.len(),
{
    if params.len() == 0 {
        values
    } else {
        inserted(values, params.drop_last()).insert(params.last().0, params.last().1)
    }
}

/// Adding some values and then others is adding them all.
proof fn lemma_inserted_chain(
    values: Map<Seq<char>, Bits>,
    a: Seq<(Seq<char>, Bits)>,
    b: Seq<(Seq<char>, Bits)>,
)
    ensures
        inserted(inserted(values, a), b) == inserted(values, a + b),
    decreases b.len(),
{
    if b.len() == 0 {
        assert(a + b =~= a);
    } else {
        lemma_inserted_chain(values, a, b.drop_last());
        assert((a + b).drop_last() =~= a + b.drop_last());
        assert((a + b).last() == b.last());
    }
}

/// To collect the widgets' parameters is to add them one after the other.
proof fn lemma_collected(ws: Seq<Widget>, path: Seq<char>, values: Map<Seq<char>, Bits>)
    ensures
        collected(ws, path, values) == inserted(values, voice_params(ws, path)),
    decreases ws,
{
    if ws.len() > 0 {
        let rest = ws.drop_last();
        lemma_collected(rest, path, values);
        lemma_collected_one(ws.last(), path, collected(rest, path, values));
        lemma_inserted_chain(values, voice_params(rest, path), voice_params_of(ws.last(), path));
    }
}

/// `lemma_collected` for one widget.
proof fn lemma_collected_one(w: Widget, path: Seq<char>, values: Map<Seq<char>, Bits>)
    ensures
        collected_one(w, path, values) == inserted(values, voice_params_of(w, path)),
    decreases w,
{
    let at = voice_path(path, label_of(w));
    match w {
        Widget::Group { inner, .. } => {
            lemma_collected(inner@, at, values);
        },
        Widget::NumParam { zone, .. } => {
            assert(seq![(at, zone)].drop_last() =~= Seq::empty());
            assert(inserted(values, seq![(at, zone)].drop_last()) == values);
        },
        Widget::BoolParam { zone, .. } => {
            assert(seq![(at, zone)].drop_last() =~= Seq::empty());
            assert(inserted(values, seq![(at, zone)].drop_last()) == values);
        },
        Widget::NumDisplay { .. } => {},
    }
}

/// Of values added at different paths each stays.
proof fn lemma_inserted_stays(
    values: Map<Seq<char>, Bits>,
    params: Seq<(Seq<char>, Bits)>,
    j: int,
)
    requires
        0 <= j < params.len(),
        forall|a: int, b: int|
            0 <= a < b < params.len() ==> (#[trigger] params[a]).0 != (#[trigger] params[b]).0,
    ensures
        inserted(values, params).dom().contains(params[j].0),
        inserted(values, params)[params[j].0] == params[j].1,
    decreases params.len(),
{
    if j < params.len() - 1 {
        lemma_inserted_stays(values, params.drop_last(), j);
        assert(params.drop_last()[j] == params[j]);
        assert(params[params.len() - 1] == params.last());
    }
}

/// Where a tree has one first voice, its parameters are the first voice's.
proof fn lemma_single_first(ws: Seq<Widget>, values: Map<Seq<char>, Bits>)
    ensures
        voices(ws, false).len() == 0 ==> voice_collected(ws, "V1"@, values) == values,
        voices(ws, false).len() == 1 ==> voice_collected(ws, "V1"@, values) == collected(
            voices(ws, false)[0],
            Seq::empty(),
            values,
        ),
    decreases ws,
{
    if ws.len() > 0 {
        let rest = ws.drop_last();
        lemma_single_first(rest, values);
        lemma_single_first_one(ws.last(), voice_collected(rest, "V1"@, values));
        let a = voices(rest, false);
        let b = voices_of(ws.last(), false);
        if a.len() == 1 && b.len() == 0 {
            assert((a + b)[0] == a[0]);
        }
        if a.len() == 0 && b.len() == 1 {
            assert((a + b)[0] == b[0]);
        }
    }
}

/// `lemma_single_first` for one widget.
proof fn lemma_single_first_one(w: Widget, values: Map<Seq<char>, Bits>)
    ensures
        voices_of(w, false).len() == 0 ==> voice_collected_one(w, "V1"@, values) == values,
        voices_of(w, false).len() == 1 ==> voice_collected_one(w, "V1"@, values) == collected(
            voices_of(w, false)[0],
            Seq::empty(),
            values,
        ),
    decreases w,
{
    match w {
        Widget::Group { inner, .. } => {
            lemma_single_first(inner@, values);
        },
        _ => {},
    }
}

/// Applying values keeps the paths and sets what stands at a path with a value.
proof fn lemma_params_applied(
    a: Seq<Widget>,
    b: Seq<Widget>,
    path: Seq<char>,
    values: Map<Seq<char>, Bits>,
)
    requires
        all_applied(a, b, path, values),
    ensures
        params_set(voice_params(a, path), voice_params(b, path), values),
    decreases a,
{
    if a.len() > 0 {
        let x = a.drop_last();
        let y = b.drop_last();
        assert forall|i: int| 0 <= i < x.len() implies applied(
            #[trigger] x[i],
            y[i],
            path,
            values,
        ) by {
            assert(applied(a[i], b[i], path, values));
        }
        lemma_params_applied(x, y, path, values);
        assert(applied(a[a.len() - 1], b[b.len() - 1], path, values));
        assert(decreases_to!(a => a[a.len() - 1]));
        lemma_params_of_applied(a.last(), b.last(), path, values);
    }
}

/// `lemma_params_applied` for one widget.
proof fn lemma_params_of_applied(
    a: Widget,
    b: Widget,
    path: Seq<char>,
    values: Map<Seq<char>, Bits>,
)
    requires
        applied(a, b, path, values),
    ensures
        params_set(voice_params_of(a, path), voice_params_of(b, path), values),
    decreases a,
{
    match (a, b) {
        (Widget::Group { label, inner: x, .. }, Widget::Group { inner: y, .. }) => {
            if !midi_driven(label@) {
                lemma_params_applied(x@, y@, voice_path(path, label@), values);
            }
        },
        _ => {},
    }
}

/// Whether two lists of parameters have the same paths, and the second has the given
/// value at every path that has one and the first one's value elsewhere.
pub open spec fn params_set(
    a: Seq<(Seq<char>, Bits)>,
    b: Seq<(Seq<char>, Bits)>,
    values: Map<Seq<char>, Bits>,
) -> bool {
    &&& a.len() == b.len()
    &&& forall|i: int|
        0 <= i < a.len() ==> (#[trigger] b[i]) == (
            a[i].0,
            if values.dom().contains(a[i].0) {
                values[a[i].0]
            } else {
                a[i].1
            },
        )
}

/// The voices after the first are where they were, each with the values applied.
proof fn lemma_voices_applied(a: Seq<Widget>, b: Seq<Widget>, values: Map<Seq<char>, Bits>)
    requires
        all_unified(a, b, values),
    ensures
        voices(a, true).len() == voices(b, true).len(),
        forall|k: int|
            0 <= k < voices(a, true).len() ==> all_applied(
                #[trigger] voices(a, true)[k],
                voices(b, true)[k],
                Seq::empty(),
                values,
            ),
    decreases a,
{
    if a.len() > 0 {
        let x = a.drop_last();
        let y = b.drop_last();
        assert forall|i: int| 0 <= i < x.len() implies unified(#[trigger] x[i], y[i], values) by {
            assert(unified(a[i], b[i], values));
        }
        lemma_voices_applied(x, y, values);
        assert(unified(a[a.len() - 1], b[b.len() - 1], values));
        assert(decreases_to!(a => a[a.len() - 1]));
        lemma_voices_of_applied(a.last(), b.last(), values);
        let n = voices(x, true).len();
        assert forall|k: int| 0 <= k < voices(a, true).len() implies all_applied(
            #[trigger] voices(a, true)[k],
            voices(b, true)[k],
            Seq::empty(),
            values,
        ) by {
            if k < n {
                assert(voices(a, true)[k] == voices(x, true)[k]);
            } else {
                assert(voices(a, true)[k] == voices_of(a.last(), true)[k - n]);
                assert(voices(b, true)[k] == voices_of(b.last(), true)[k - n]);
            }
        }
    }
}

/// `lemma_voices_applied` for one widget.
proof fn lemma_voices_of_applied(a: Widget, b: Widget, values: Map<Seq<char>, Bits>)
    requires
        unified(a, b, values),
    ensures
        voices_of(a, true).len() == voices_of(b, true).len(),
        forall|k: int|
            0 <= k < voices_of(a, true).len() ==> all_applied(
                #[trigger] voices_of(a, true)[k],
                voices_of(b, true)[k],
                Seq::empty(),
                values,
            ),
    decreases a,
{
    match (a, b) {
        (Widget::Group { label, inner: x, .. }, Widget::Group { inner: y, .. }) => {
            if !later_voice(label@) {
                lemma_voices_applied(x@, y@, values);
            }
        },
        _ => {},
    }
}

/// All voices use the first voice's values: where the tree has one first voice, whose
/// parameters have different paths, and no voice after it stands inside another, a
/// synchronisation leaves the voices after the first with the paths they had, and each
/// of their parameters at a path that the first voice has too with the first voice's
/// value.
pub proof fn law_voices_have_the_first_voices_values(
    old_ws: Seq<Widget>,
    new_ws: Seq<Widget>,
    k: int,
    i: int,
    j: int,
)
    requires
        all_voices_apart(old_ws),
        all_synced(old_ws, new_ws, Seq::empty(), first_voice(old_ws)),
        voices(old_ws, false).len() == 1,
        0 <= k < voices(old_ws, true).len(),
        0 <= i < voice_params(voices(old_ws, true)[k], Seq::empty()).len(),
        0 <= j < voice_params(voices(old_ws, false)[0], Seq::empty()).len(),
        forall|a: int, b: int|
            0 <= a < b < voice_params(voices(old_ws, false)[0], Seq::empty()).len() ==> (
            #[trigger] voice_params(voices(old_ws, false)[0], Seq::empty())[a]).0 != (
            #[trigger] voice_params(voices(old_ws, false)[0], Seq::empty())[b]).0,
        voice_params(voices(old_ws, true)[k], Seq::empty())[i].0 == voice_params(
            voices(old_ws, false)[0],
            Seq::empty(),
        )[j].0,
    ensures
        voices(new_ws, true).len() == voices(old_ws, true).len(),
        voice_params(voices(new_ws, true)[k], Seq::empty()).len() == voice_params(
            voices(old_ws, true)[k],
            Seq::empty(),
        ).len(),
        voice_params(voices(new_ws, true)[k], Seq::empty())[i] == voice_params(
            voices(old_ws, false)[0],
            Seq::empty(),
        )[j],
{
    let values = first_voice(old_ws);
    let first = voices(old_ws, false)[0];
    law_voices_follow_the_first(old_ws, new_ws);
    lemma_voices_applied(old_ws, new_ws, values);
    lemma_single_first(old_ws, Map::empty());
    lemma_collected(first, Seq::empty(), Map::empty());
    lemma_inserted_stays(Map::empty(), voice_params(first, Seq::empty()), j);
    lemma_params_applied(
        voices(old_ws, true)[k],
        voices(new_ws, true)[k],
        Seq::empty(),
        values,
    );
}

/// Different voices have different labels.
proof fn lemma_voice_labels_differ(a: nat, b: nat)
    requires
        voice_label(a) == voice_label(b),
    ensures
        a == b,
{
    assert(voice_label(a).skip(1) =~= decimal(a));
    assert(voice_label(b).skip(1) =~= decimal(b));
    crate::text::law_decimal_is_injective(a, b);
}

/// A decimal form consists of digits.
proof fn lemma_decimal_digits(n: nat)
    ensures
        decimal(n).len() >= 1,
        forall|i: int| 0 <= i < decimal(n).len() ==> is_digit(#[trigger] decimal(n)[i]),
    decreases n,
{
    if n >= 10 {
        lemma_decimal_digits(n / 10);
    }
}

/// A voice after the first is a voice other than the first.
proof fn lemma_voice_is_other(n: nat)
    requires
        n >= 2,
    ensures
        other_voice(voice_label(n)),
{
    let label = voice_label(n);
    lemma_decimal_digits(n);
    assert forall|i: int| 1 <= i < label.len() implies is_digit(#[trigger] label[i]) by {
        assert(label[i] == decimal(n)[i - 1]);
    }
    if label == seq!['V', '1'] {
        assert(voice_label(1) =~= seq!['V', '1']);
        lemma_voice_labels_differ(n, 1);
    }
}

/// The labels on the way down the tree, behind `path`, with a `/` between them.
pub open spec fn relative_path(ws: Seq<Widget>, at: Seq<int>, path: Seq<char>) -> Seq<char>
    decreases at.len(),
{
    if at.len() == 0 || !(0 <= at[0] < ws.len()) {
        path
    } else {
        let label = label_of(ws[at[0]]);
        let here = if path.len() == 0 {
            label
        } else {
            path + seq!['/'] + label
        };
        match ws[at[0]] {
            Widget::Group { inner, .. } => relative_path(inner@, at.skip(1), here),
            _ => here,
        }
    }
}

/// Whether no label on the way down the tree, that of the widget reached included, is
/// one of the three that MIDI drives.
pub open spec fn undriven(ws: Seq<Widget>, at: Seq<int>) -> bool
    decreases at.len(),
{
    if at.len() == 0 || !(0 <= at[0] < ws.len()) {
        true
    } else {
        let label = label_of(ws[at[0]]);
        &&& label != seq!['f', 'r', 'e', 'q']
        &&& label != seq!['g', 'a', 't', 'e']
        &&& label != seq!['g', 'a', 'i', 'n']
        &&& match ws[at[0]] {
            Widget::Group { inner, .. } => undriven(inner@, at.skip(1)),
            _ => true,
        }
    }
}

/// Whether a label is a `V` and a number other than 1, without leading zeros.
pub open spec fn named_later_voice(label: Seq<char>) -> bool {
    &&& label.len() >= 2
    &&& label[0] == 'V'
    &&& label[1] != '0'
    &&& label != seq!['V', '1']
    &&& forall|i: int| 1 <= i < label.len() ==> '0' <= #[trigger] label[i] && label[i] <= '9'
}

/// Whether none of the groups on the way down the tree, that of the widget reached left
/// aside, is a voice after the first.
pub open spec fn outside_voices(ws: Seq<Widget>, at: Seq<int>) -> bool
    decreases at.len(),
{
    if at.len() <= 1 || !(0 <= at[0] < ws.len()) {
        true
    } else {
        match ws[at[0]] {
            Widget::Group { label, inner, .. } => !named_later_voice(label@) && outside_voices(
                inner@,
                at.skip(1),
            ),
            _ => true,
        }
    }
}

/// MIDI drives exactly the parameters called freq, gate and gain; exactly the groups
/// called DSP2, and those called by a `V` and digits other than a lone 1, are hidden;
/// exactly the groups called Sequencer, Polyphonic, DSP1, V1 and FaustDSP are shown
/// without a header; and the voices after the first are called by a `V` and a number
/// from 2 on without leading zeros.
pub proof fn law_labels_with_a_meaning(label: Seq<char>)
    ensures
        midi_driven(label) <==> label == seq!['f', 'r', 'e', 'q'] || label == seq![
            'g',
            'a',
            't',
            'e',
        ] || label == seq!['g', 'a', 'i', 'n'],
        skipped(label) <==> label == seq!['D', 'S', 'P', '2'] || (label.len() >= 2 && label[0]
            == 'V' && label != seq!['V', '1'] && forall|i: int|
            1 <= i < label.len() ==> '0' <= #[trigger] label[i] && label[i] <= '9'),
        unwrapped(label) <==> label == seq!['S', 'e', 'q', 'u', 'e', 'n', 'c', 'e', 'r'] || label
            == seq!['P', 'o', 'l', 'y', 'p', 'h', 'o', 'n', 'i', 'c'] || label == seq![
            'D',
            'S',
            'P',
            '1',
        ] || label == seq!['V', '1'] || label == seq!['F', 'a', 'u', 's', 't', 'D', 'S', 'P'],
        later_voice(label) <==> named_later_voice(label),
{
    reveal_strlit("freq");
    reveal_strlit("gate");
    reveal_strlit("gain");
    reveal_strlit("DSP2");
    reveal_strlit("Sequencer");
    reveal_strlit("Polyphonic");
    reveal_strlit("DSP1");
    reveal_strlit("V1");
    reveal_strlit("FaustDSP");
    assert("freq"@ =~= seq!['f', 'r', 'e', 'q']);
    assert("gate"@ =~= seq!['g', 'a', 't', 'e']);
    assert("gain"@ =~= seq!['g', 'a', 'i', 'n']);
    assert("DSP2"@ =~= seq!['D', 'S', 'P', '2']);
    assert("Sequencer"@ =~= seq!['S', 'e', 'q', 'u', 'e', 'n', 'c', 'e', 'r']);
    assert("Polyphonic"@ =~= seq!['P', 'o', 'l', 'y', 'p', 'h', 'o', 'n', 'i', 'c']);
    assert("DSP1"@ =~= seq!['D', 'S', 'P', '1']);
    assert("V1"@ =~= seq!['V', '1']);
    assert("FaustDSP"@ =~= seq!['F', 'a', 'u', 's', 't', 'D', 'S', 'P']);
    lemma_later_voice(label);
    if other_voice(label) {
        assert forall|i: int| 1 <= i < label.len() implies '0' <= #[trigger] label[i] && label[i]
            <= '9' by {
            assert(is_digit(label[i]));
        }
    }
    if forall|i: int| 1 <= i < label.len() ==> '0' <= #[trigger] label[i] && label[i] <= '9' {
        assert forall|i: int| 1 <= i < label.len() implies is_digit(#[trigger] label[i]) by {}
    }
}

/// Whether a widget is a number or a switch.
spec fn is_param(w: Option<Widget>) -> bool {
    w matches Some(v) && (v is NumParam || v is BoolParam)
}

/// No parameter that is collected has this path.
spec fn uncollected(ws: Seq<Widget>, path: Seq<char>, key: Seq<char>) -> bool {
    forall|at: Seq<int>|
        is_param(#[trigger] widget_at(ws, at)) && undriven(ws, at) ==> relative_path(ws, at, path)
            != key
}

/// `uncollected` for one widget.
spec fn uncollected_one(w: Widget, path: Seq<char>, key: Seq<char>) -> bool {
    let here = voice_path(path, label_of(w));
    midi_driven(label_of(w)) || match w {
        Widget::Group { inner, .. } => uncollected(inner@, here, key),
        Widget::NumDisplay { .. } => true,
        _ => here != key,
    }
}

/// Collecting what has another path keeps what is at a path.
proof fn lemma_uncollected_is_kept(
    ws: Seq<Widget>,
    path: Seq<char>,
    values: Map<Seq<char>, Bits>,
    key: Seq<char>,
)
    requires
        uncollected(ws, path, key),
    ensures
        collected(ws, path, values).dom().contains(key) <==> values.dom().contains(key),
        collected(ws, path, values)[key] == values[key],
    decreases ws,
{
    if ws.len() > 0 {
        let rest = ws.drop_last();
        let last = (ws.len() - 1) as int;
        assert(uncollected(rest, path, key)) by {
            assert forall|at: Seq<int>|
                is_param(#[trigger] widget_at(rest, at)) && undriven(rest, at) implies relative_path(
                rest,
                at,
                path,
            ) != key by {
                lemma_widget_before(ws, at);
                assert(relative_path(rest, at, path) == relative_path(ws, at, path));
                assert(undriven(rest, at) == undriven(ws, at));
                assert(is_param(widget_at(ws, at)));
            }
        }
        lemma_uncollected_is_kept(rest, path, values, key);
        assert(uncollected_one(ws[last], path, key)) by {
            law_labels_with_a_meaning(label_of(ws[last]));
            match ws[last] {
                Widget::Group { inner, .. } => {
                    let here = voice_path(path, label_of(ws[last]));
                    if !midi_driven(label_of(ws[last])) {
                        assert forall|at: Seq<int>|
                            is_param(#[trigger] widget_at(inner@, at)) && undriven(
                                inner@,
                                at,
                            ) implies relative_path(inner@, at, here) != key by {
                            lemma_widget_below(ws, last, at);
                            assert(is_param(widget_at(ws, seq![last] + at)));
                            assert(undriven(ws, seq![last] + at));
                            assert(relative_path(ws, seq![last] + at, path) == relative_path(
                                inner@,
                                at,
                                here,
                            ));
                        }
                    }
                },
                _ => {
                    assert(widget_at(ws, seq![last]) == Some(ws[last]));
                    assert(relative_path(ws, seq![last], path) == voice_path(
                        path,
                        label_of(ws[last]),
                    ));
                },
            }
        }
        assert(decreases_to!(ws => ws[ws.len() - 1]));
        lemma_uncollected_one_is_kept(ws[last], path, collected(rest, path, values), key);
    }
}

/// `lemma_uncollected_is_kept` for one widget.
proof fn lemma_uncollected_one_is_kept(
    w: Widget,
    path: Seq<char>,
    values: Map<Seq<char>, Bits>,
    key: Seq<char>,
)
    requires
        uncollected_one(w, path, key),
    ensures
        collected_one(w, path, values).dom().contains(key) <==> values.dom().contains(key),
        collected_one(w, path, values)[key] == values[key],
    decreases w,
{
    match w {
        Widget::Group { inner, .. } => {
            if !midi_driven(label_of(w)) {
                lemma_uncollected_is_kept(
                    inner@,
                    voice_path(path, label_of(w)),
                    values,
                    key,
                );
            }
        },
        _ => {},
    }
}

/// Every number and every switch that MIDI does not drive is collected with its value,
/// unless one that is collected too and stands behind it has the same path; and nothing
/// is collected at a path that none of them has.
pub proof fn law_every_parameter_is_collected(
    ws: Seq<Widget>,
    path: Seq<char>,
    values: Map<Seq<char>, Bits>,
    at: Seq<int>,
    key: Seq<char>,
)
    ensures
        (widget_at(ws, at) matches Some(w) && (w is NumParam || w is BoolParam)) && undriven(
            ws,
            at,
        ) && (forall|other: Seq<int>|
            (#[trigger] widget_at(ws, other) matches Some(w) && (w is NumParam || w is BoolParam))
                && undriven(ws, other) && comes_after(other, at) ==> relative_path(ws, other, path)
                != relative_path(ws, at, path)) ==> {
            &&& collected(ws, path, values).dom().contains(relative_path(ws, at, path))
            &&& Some(collected(ws, path, values)[relative_path(ws, at, path)]) == zone_of(
                widget_at(ws, at)->0,
            )
        },
        (forall|other: Seq<int>|
            (#[trigger] widget_at(ws, other) matches Some(w) && (w is NumParam || w is BoolParam))
                && undriven(ws, other) ==> relative_path(ws, other, path) != key) ==> {
            &&& collected(ws, path, values).dom().contains(key) <==> values.dom().contains(key)
            &&& collected(ws, path, values)[key] == values[key]
        },
{
    if is_param(widget_at(ws, at)) && undriven(ws, at) && (forall|other: Seq<int>|
        (#[trigger] widget_at(ws, other) matches Some(w) && (w is NumParam || w is BoolParam))
            && undriven(ws, other) && comes_after(other, at) ==> relative_path(ws, other, path)
            != relative_path(ws, at, path)) {
        assert forall|other: Seq<int>|
            is_param(#[trigger] widget_at(ws, other)) && undriven(ws, other) && comes_after(
                other,
                at,
            ) implies relative_path(ws, other, path) != relative_path(ws, at, path) by {}
        lemma_collected_value(ws, path, values, at);
    }
    if forall|other: Seq<int>|
        (#[trigger] widget_at(ws, other) matches Some(w) && (w is NumParam || w is BoolParam))
            && undriven(ws, other) ==> relative_path(ws, other, path) != key {
        assert(uncollected(ws, path, key)) by {
            assert forall|other: Seq<int>|
                is_param(#[trigger] widget_at(ws, other)) && undriven(
                    ws,
                    other,
                ) implies relative_path(ws, other, path) != key by {}
        }
        lemma_uncollected_is_kept(ws, path, values, key);
    }
}

/// The value of the last parameter at a path is collected.
proof fn lemma_collected_value(
    ws: Seq<Widget>,
    path: Seq<char>,
    values: Map<Seq<char>, Bits>,
    at: Seq<int>,
)
    requires
        is_param(widget_at(ws, at)),
        undriven(ws, at),
        forall|other: Seq<int>|
            is_param(#[trigger] widget_at(ws, other)) && undriven(ws, other) && comes_after(
                other,
                at,
            ) ==> relative_path(ws, other, path) != relative_path(ws, at, path),
    ensures
        collected(ws, path, values).dom().contains(relative_path(ws, at, path)),
        Some(collected(ws, path, values)[relative_path(ws, at, path)]) == zone_of(
            widget_at(ws, at)->0,
        ),
    decreases ws,
{
    let rest = ws.drop_last();
    let last = (ws.len() - 1) as int;
    let key = relative_path(ws, at, path);
    let before = collected(rest, path, values);
    assert(collected(ws, path, values) == collected_one(ws[last], path, before));
    law_labels_with_a_meaning(label_of(ws[last]));
    assert(decreases_to!(ws => ws[ws.len() - 1]));
    if at[0] == last {
        match ws[last] {
            Widget::Group { inner, .. } => {
                let here = voice_path(path, label_of(ws[last]));
                let down = at.skip(1);
                assert forall|other: Seq<int>|
                    is_param(#[trigger] widget_at(inner@, other)) && undriven(inner@, other)
                        && comes_after(other, down) implies relative_path(inner@, other, here)
                    != relative_path(inner@, down, here) by {
                    lemma_widget_below(ws, last, other);
                    assert(is_param(widget_at(ws, seq![last] + other)));
                    assert(undriven(ws, seq![last] + other));
                    assert(comes_after(seq![last] + other, at));
                    assert(relative_path(ws, seq![last] + other, path) == relative_path(
                        inner@,
                        other,
                        here,
                    ));
                }
                assert(decreases_to!(ws[last] => inner));
                lemma_collected_value(inner@, here, before, down);
            },
            _ => {},
        }
    } else {
        lemma_widget_before(ws, at);
        assert(relative_path(rest, at, path) == key);
        assert(undriven(rest, at));
        assert forall|other: Seq<int>|
            is_param(#[trigger] widget_at(rest, other)) && undriven(rest, other) && comes_after(
                other,
                at,
            ) implies relative_path(rest, other, path) != key by {
            lemma_widget_before(ws, other);
            assert(relative_path(rest, other, path) == relative_path(ws, other, path));
            assert(undriven(ws, other));
            assert(is_param(widget_at(ws, other)));
        }
        lemma_collected_value(rest, path, values, at);
        assert(uncollected_one(ws[last], path, key)) by {
            match ws[last] {
                Widget::Group { inner, .. } => {
                    let here = voice_path(path, label_of(ws[last]));
                    if !midi_driven(label_of(ws[last])) {
                        assert forall|other: Seq<int>|
                            is_param(#[trigger] widget_at(inner@, other)) && undriven(
                                inner@,
                                other,
                            ) implies relative_path(inner@, other, here) != key by {
                            lemma_widget_below(ws, last, other);
                            assert(is_param(widget_at(ws, seq![last] + other)));
                            assert(undriven(ws, seq![last] + other));
                            assert(comes_after(seq![last] + other, at));
                            assert(relative_path(ws, seq![last] + other, path) == relative_path(
                                inner@,
                                other,
                                here,
                            ));
                        }
                    }
                },
                _ => {
                    assert(widget_at(ws, seq![last]) == Some(ws[last]));
                    assert(comes_after(seq![last], at));
                    assert(relative_path(ws, seq![last], path) == voice_path(
                        path,
                        label_of(ws[last]),
                    ));
                },
            }
        }
        lemma_uncollected_one_is_kept(ws[last], path, before, key);
    }
}

/// Whether a widget is the first voice.
spec fn is_first(w: Option<Widget>) -> bool {
    w matches Some(Widget::Group { label, .. }) && label@ == seq!['V', '1']
}

/// Without a first voice nothing is collected.
proof fn lemma_no_first(ws: Seq<Widget>, values: Map<Seq<char>, Bits>)
    requires
        forall|at: Seq<int>| !is_first(#[trigger] widget_at(ws, at)),
    ensures
        voice_collected(ws, "V1"@, values) == values,
    decreases ws,
{
    if ws.len() > 0 {
        let rest = ws.drop_last();
        let last = (ws.len() - 1) as int;
        assert forall|at: Seq<int>| !is_first(#[trigger] widget_at(rest, at)) by {
            if widget_at(rest, at) is Some {
                lemma_widget_before(ws, at);
                assert(!is_first(widget_at(ws, at)));
            }
        }
        lemma_no_first(rest, values);
        assert(voice_collected(ws, "V1"@, values) == voice_collected_one(
            ws[last],
            "V1"@,
            values,
        ));
        assert(!is_first(widget_at(ws, seq![last])));
        assert(widget_at(ws, seq![last]) == Some(ws[last]));
        reveal_strlit("V1");
        assert("V1"@ =~= seq!['V', '1']);
        assert(decreases_to!(ws => ws[ws.len() - 1]));
        match ws[last] {
            Widget::Group { inner, .. } => {
                assert forall|at: Seq<int>| !is_first(#[trigger] widget_at(inner@, at)) by {
                    if widget_at(inner@, at) is Some {
                        lemma_widget_below(ws, last, at);
                        assert(!is_first(widget_at(ws, seq![last] + at)));
                    }
                }
                assert(decreases_to!(ws[last] => inner));
                lemma_no_first(inner@, values);
            },
            _ => {},
        }
    }
}

/// The parameters of the only first voice are collected.
proof fn lemma_only_first(ws: Seq<Widget>, first: Seq<int>, values: Map<Seq<char>, Bits>)
    requires
        is_first(widget_at(ws, first)),
        forall|at: Seq<int>| is_first(#[trigger] widget_at(ws, at)) ==> at == first,
    ensures
        voice_collected(ws, "V1"@, values) == collected(
            widget_at(ws, first)->0->inner@,
            Seq::empty(),
            values,
        ),
    decreases ws,
{
    let rest = ws.drop_last();
    let last = (ws.len() - 1) as int;
    reveal_strlit("V1");
    assert("V1"@ =~= seq!['V', '1']);
    assert(decreases_to!(ws => ws[ws.len() - 1]));
    assert(voice_collected(ws, "V1"@, values) == voice_collected_one(
        ws[last],
        "V1"@,
        voice_collected(rest, "V1"@, values),
    ));
    assert(widget_at(ws, seq![last]) == Some(ws[last]));
    if first[0] == last {
        assert forall|at: Seq<int>| !is_first(#[trigger] widget_at(rest, at)) by {
            if widget_at(rest, at) is Some {
                lemma_widget_before(ws, at);
                assert(is_first(widget_at(ws, at)) ==> at == first);
            }
        }
        lemma_no_first(rest, values);
        if first.len() == 1 {
            assert(first =~= seq![last]);
        } else {
            assert(!is_first(Some(ws[last]))) by {
                if is_first(widget_at(ws, seq![last])) {
                    assert(seq![last] == first);
                }
            }
            match ws[last] {
                Widget::Group { inner, .. } => {
                    let down = first.skip(1);
                    assert forall|at: Seq<int>| is_first(
                        #[trigger] widget_at(inner@, at),
                    ) implies at == down by {
                        lemma_widget_below(ws, last, at);
                        assert(is_first(widget_at(ws, seq![last] + at)));
                        assert((seq![last] + at).skip(1) == first.skip(1));
                    }
                    assert(decreases_to!(ws[last] => inner));
                    lemma_only_first(inner@, down, values);
                },
                _ => {},
            }
        }
    } else {
        lemma_widget_before(ws, first);
        assert forall|at: Seq<int>| is_first(#[trigger] widget_at(rest, at)) implies at
            == first by {
            lemma_widget_before(ws, at);
            assert(is_first(widget_at(ws, at)));
        }
        lemma_only_first(rest, first, values);
        assert(!is_first(Some(ws[last]))) by {
            if is_first(widget_at(ws, seq![last])) {
                assert(seq![last] == first);
                assert(first[0] == last);
            }
        }
        match ws[last] {
            Widget::Group { inner, .. } => {
                assert forall|at: Seq<int>| !is_first(#[trigger] widget_at(inner@, at)) by {
                    if widget_at(inner@, at) is Some {
                        lemma_widget_below(ws, last, at);
                        if is_first(widget_at(ws, seq![last] + at)) {
                            assert(seq![last] + at == first);
                        }
                    }
                }
                lemma_no_first(inner@, voice_collected(rest, "V1"@, values));
            },
            _ => {},
        }
    }
}

/// A parameter below one voice takes the value at its path, if there is one and MIDI
/// does not drive it.
proof fn lemma_synced_in_voice(
    old_ws: Seq<Widget>,
    new_ws: Seq<Widget>,
    scope: Scope,
    values: Map<Seq<char>, Bits>,
    at: Seq<int>,
)
    requires
        all_synced(old_ws, new_ws, seq![scope], values),
        is_param(widget_at(old_ws, at)),
        outside_voices(old_ws, at),
    ensures
        is_param(widget_at(new_ws, at)),
        ({
            let value = zone_of(widget_at(new_ws, at)->0);
            match scope.path {
                Some(path) if undriven(old_ws, at) && values.dom().contains(
                    relative_path(old_ws, at, path),
                ) => value == Some(values[relative_path(old_ws, at, path)]),
                _ => value == zone_of(widget_at(old_ws, at)->0),
            }
        }),
    decreases at.len(),
{
    let i = at[0];
    let label = label_of(old_ws[i]);
    law_labels_with_a_meaning(label);
    assert(synced(old_ws[i], new_ws[i], seq![scope], values));
    match (old_ws[i], new_ws[i]) {
        (Widget::Group { inner: x, .. }, Widget::Group { inner: y, .. }) => {
            assert(below(seq![scope], label) =~= seq![scope_below(scope, label)]);
            lemma_synced_in_voice(x@, y@, scope_below(scope, label), values, at.skip(1));
        },
        _ => {
            assert(seq![scope].drop_last() =~= Seq::<Scope>::empty());
            assert(deciding(seq![scope].drop_last(), label, values) is None);
            assert(seq![scope].last() == scope);
        },
    }
}

/// The contents of a voice take the values.
proof fn lemma_synced_voice(
    old_ws: Seq<Widget>,
    new_ws: Seq<Widget>,
    values: Map<Seq<char>, Bits>,
    voice: Seq<int>,
)
    requires
        all_synced(old_ws, new_ws, Seq::empty(), values),
        widget_at(old_ws, voice) matches Some(Widget::Group { label, .. }) && named_later_voice(
            label@,
        ),
        outside_voices(old_ws, voice),
    ensures
        widget_at(new_ws, voice) matches Some(Widget::Group { inner, .. }) && all_synced(
            widget_at(old_ws, voice)->0->inner@,
            inner@,
            seq![
                Scope { voice: label_of(widget_at(old_ws, voice)->0), path: Some(Seq::empty()) },
            ],
            values,
        ),
    decreases voice.len(),
{
    let i = voice[0];
    let root = Seq::<Scope>::empty();
    let label = label_of(old_ws[i]);
    law_labels_with_a_meaning(label);
    assert(synced(old_ws[i], new_ws[i], root, values));
    if voice.len() == 1 {
        assert(!stands_in(root, label));
        assert(below(root, label) =~= seq![Scope { voice: label, path: Some(Seq::empty()) }]);
    } else {
        assert(below(root, label) =~= root);
        match (old_ws[i], new_ws[i]) {
            (Widget::Group { inner: x, .. }, Widget::Group { inner: y, .. }) => {
                lemma_synced_voice(x@, y@, values, voice.skip(1));
            },
            _ => {},
        }
    }
}

/// Every other voice has the first voice's values: where the tree has one first voice,
/// a parameter of a voice after the first (with no other voice round it) has, after a
/// synchronisation, the value of the first voice's parameter at the same path, whatever
/// it is called: only what is called freq, gate or gain, or stands in a group of such a
/// name, is left out. Of parameters of the first voice with the same path the last one
/// counts.
pub proof fn law_voices_take_the_first_voices_values(
    old_ws: Seq<Widget>,
    new_ws: Seq<Widget>,
    first: Seq<int>,
    voice: Seq<int>,
    from: Seq<int>,
    to: Seq<int>,
)
    requires
        all_synced(old_ws, new_ws, Seq::empty(), first_voice(old_ws)),
        widget_at(old_ws, first) matches Some(Widget::Group { label, inner, .. }) && label@ == seq![
            'V',
            '1',
        ] && (widget_at(inner@, from) matches Some(w) && (w is NumParam || w is BoolParam))
            && undriven(inner@, from) && (forall|other: Seq<int>|
            (#[trigger] widget_at(inner@, other) matches Some(w) && (w is NumParam
                || w is BoolParam)) && undriven(inner@, other) && comes_after(other, from)
                ==> relative_path(inner@, other, Seq::empty()) != relative_path(
                inner@,
                from,
                Seq::empty(),
            )),
        forall|at: Seq<int>|
            (#[trigger] widget_at(old_ws, at) matches Some(Widget::Group { label, .. }) && label@
                == seq!['V', '1']) ==> at == first,
        outside_voices(old_ws, voice),
        widget_at(old_ws, voice) matches Some(Widget::Group { label, inner, .. })
            && named_later_voice(label@) && (widget_at(inner@, to) matches Some(w) && (
        w is NumParam || w is BoolParam)) && undriven(inner@, to) && outside_voices(inner@, to),
        relative_path(widget_at(old_ws, first)->0->inner@, from, Seq::empty()) == relative_path(
            widget_at(old_ws, voice)->0->inner@,
            to,
            Seq::empty(),
        ),
    ensures
        widget_at(new_ws, voice) matches Some(Widget::Group { inner, .. }) && (widget_at(
            inner@,
            to,
        ) matches Some(w) && zone_of(w) == zone_of(
            widget_at(widget_at(old_ws, first)->0->inner@, from)->0,
        )),
{
    let values = first_voice(old_ws);
    let a = widget_at(old_ws, first)->0->inner@;
    let b = widget_at(old_ws, voice)->0->inner@;
    assert forall|at: Seq<int>| is_first(#[trigger] widget_at(old_ws, at)) implies at
        == first by {}
    lemma_only_first(old_ws, first, Map::empty());
    law_every_parameter_is_collected(a, Seq::empty(), Map::empty(), from, Seq::empty());
    lemma_synced_voice(old_ws, new_ws, values, voice);
    lemma_synced_in_voice(
        b,
        widget_at(new_ws, voice)->0->inner@,
        Scope { voice: label_of(widget_at(old_ws, voice)->0), path: Some(Seq::empty()) },
        values,
        to,
    );
}

/// Nothing else is changed by a synchronisation: a parameter of a voice after the first
/// keeps its value where it, or a group that it stands in, is called freq, gate or gain,
/// and where the only first voice has no parameter at its path.
pub proof fn law_other_parameters_of_voices_are_kept(
    old_ws: Seq<Widget>,
    new_ws: Seq<Widget>,
    first: Seq<int>,
    voice: Seq<int>,
    to: Seq<int>,
)
    requires
        all_synced(old_ws, new_ws, Seq::empty(), first_voice(old_ws)),
        outside_voices(old_ws, voice),
        widget_at(old_ws, voice) matches Some(Widget::Group { label, inner, .. })
            && named_later_voice(label@) && (widget_at(inner@, to) matches Some(w) && (
        w is NumParam || w is BoolParam)) && outside_voices(inner@, to),
        undriven(widget_at(old_ws, voice)->0->inner@, to) ==> {
            &&& widget_at(old_ws, first) matches Some(Widget::Group { label, inner, .. }) && label@
                == seq!['V', '1'] && (forall|other: Seq<int>|
                (#[trigger] widget_at(inner@, other) matches Some(w) && (w is NumParam
                    || w is BoolParam)) && undriven(inner@, other) ==> relative_path(
                    inner@,
                    other,
                    Seq::empty(),
                ) != relative_path(widget_at(old_ws, voice)->0->inner@, to, Seq::empty()))
            &&& forall|at: Seq<int>|
                (#[trigger] widget_at(old_ws, at) matches Some(Widget::Group { label, .. })
                    && label@ == seq!['V', '1']) ==> at == first
        },
    ensures
        widget_at(new_ws, voice) matches Some(Widget::Group { inner, .. }) && (widget_at(
            inner@,
            to,
        ) matches Some(w) && zone_of(w) == zone_of(
            widget_at(widget_at(old_ws, voice)->0->inner@, to)->0,
        )),
{
    let values = first_voice(old_ws);
    let b = widget_at(old_ws, voice)->0->inner@;
    let key = relative_path(b, to, Seq::empty());
    if undriven(b, to) {
        let a = widget_at(old_ws, first)->0->inner@;
        assert forall|at: Seq<int>| is_first(#[trigger] widget_at(old_ws, at)) implies at
            == first by {}
        lemma_only_first(old_ws, first, Map::empty());
        law_every_parameter_is_collected(a, Seq::empty(), Map::empty(), Seq::empty(), key);
    }
    lemma_synced_voice(old_ws, new_ws, values, voice);
    lemma_synced_in_voice(
        b,
        widget_at(new_ws, voice)->0->inner@,
        Scope { voice: label_of(widget_at(old_ws, voice)->0), path: Some(Seq::empty()) },
        values,
        to,
    );
}

/// Outside the voices after the first, every parameter and every display keeps its
/// value.
pub proof fn law_outside_voices_nothing_changes(
    old_ws: Seq<Widget>,
    new_ws: Seq<Widget>,
    values: Map<Seq<char>, Bits>,
    at: Seq<int>,
)
    requires
        all_synced(old_ws, new_ws, Seq::empty(), values),
        widget_at(old_ws, at) is Some,
        outside_voices(old_ws, at),
    ensures
        widget_at(new_ws, at) matches Some(w) && zone_of(w) == zone_of(widget_at(old_ws, at)->0),
    decreases at.len(),
{
    let i = at[0];
    let root = Seq::<Scope>::empty();
    let label = label_of(old_ws[i]);
    law_labels_with_a_meaning(label);
    assert(synced(old_ws[i], new_ws[i], root, values));
    match (old_ws[i], new_ws[i]) {
        (Widget::Group { inner: x, .. }, Widget::Group { inner: y, .. }) => {
            if at.len() > 1 {
                assert(below(root, label) =~= root);
                law_outside_voices_nothing_changes(x@, y@, values, at.skip(1));
            }
        },
        _ => {},
    }
}

/// A synchronisation changes nothing but values of parameters.
pub proof fn law_synchronisation_changes_values_only(
    old_ws: Seq<Widget>,
    new_ws: Seq<Widget>,
    scopes: Seq<Scope>,
    values: Map<Seq<char>, Bits>,
)
    requires
        all_synced(old_ws, new_ws, scopes, values),
    ensures
        all_same_but_values(old_ws, new_ws),
    decreases old_ws,
{
    assert forall|i: int| 0 <= i < old_ws.len() implies same_but_values(
        #[trigger] old_ws[i],
        new_ws[i],
    ) by {
        assert(synced(old_ws[i], new_ws[i], scopes, values));
        assert(decreases_to!(old_ws => old_ws[i]));
        match (old_ws[i], new_ws[i]) {
            (Widget::Group { label, inner: x, .. }, Widget::Group { inner: y, .. }) => {
                assert(decreases_to!(old_ws[i] => x));
                law_synchronisation_changes_values_only(
                    x@,
                    y@,
                    below(scopes, label@),
                    values,
                );
            },
            _ => {},
        }
    }
}

/// The number of a voice is the one in its label.
pub proof fn law_voices_are_numbered(n: nat)
    requires
        n >= 1,
    ensures
        voice_number(voice_label(n)) == n,
{
    let digits = decimal(n);
    lemma_decimal_digits(n);
    lemma_decimal_start(n);
    lemma_number(digits);
    assert(voice_label(n).skip(1) =~= digits);
    crate::text::law_decimal_is_injective(number(digits), n);
}

/// Of the voices that a parameter stands in and that have a value for it, the one with
/// the highest number decides, so that voices inside voices are served in the order of
/// their numbers.
pub proof fn law_highest_voice_decides(
    scopes: Seq<Scope>,
    label: Seq<char>,
    values: Map<Seq<char>, Bits>,
    i: int,
)
    requires
        0 <= i < scopes.len(),
        value_in(scopes[i], label, values) is Some,
    ensures
        deciding(scopes, label, values) matches Some(d) && 0 <= d < scopes.len() && voice_number(
            scopes[i].voice,
        ) <= voice_number(scopes[d].voice),
        looked_up(scopes, label, values) is Some,
    decreases scopes.len(),
{
    lemma_deciding(scopes, label, values);
    lemma_deciding(scopes.drop_last(), label, values);
    if i < scopes.len() - 1 {
        law_highest_voice_decides(scopes.drop_last(), label, values, i);
    }
}

/// Going down into a group: every voice that a widget stands in is kept, its path longer
/// by the group's label, and lost where MIDI drives the group; and a group that is a voice
/// after the first is one more, with an empty path, unless it stands in one of its label.
pub proof fn law_voices_are_kept_on_the_way_down(
    scopes: Seq<Scope>,
    label: Seq<char>,
    i: int,
)
    ensures
        ({
            let lower = below(scopes, label);
            let driven = label == seq!['f', 'r', 'e', 'q'] || label == seq!['g', 'a', 't', 'e']
                || label == seq!['g', 'a', 'i', 'n'];
            let another = named_later_voice(label) && forall|k: int|
                0 <= k < scopes.len() ==> (#[trigger] scopes[k]).voice != label;
            &&& lower.len() == scopes.len() + (if another {
                1int
            } else {
                0
            })
            &&& another ==> lower.last() == (Scope { voice: label, path: Some(Seq::empty()) })
            &&& 0 <= i < scopes.len() ==> lower[i].voice == scopes[i].voice
            &&& 0 <= i < scopes.len() && (driven || scopes[i].path is None) ==> lower[i].path is None
            &&& 0 <= i < scopes.len() && !driven ==> (scopes[i].path matches Some(path)
                ==> lower[i].path == Some(
                if path.len() == 0 {
                    label
                } else {
                    path + seq!['/'] + label
                },
            ))
        }),
{
    law_labels_with_a_meaning(label);
    if named_later_voice(label) {
        if forall|k: int| 0 <= k < scopes.len() ==> (#[trigger] scopes[k]).voice != label {
            assert(!stands_in(scopes, label));
        } else {
            let k = choose|k: int| 0 <= k < scopes.len() && (#[trigger] scopes[k]).voice == label;
            assert(stands_in(scopes, label));
        }
    }
}

/// Every voice after the first is hidden, and the first is not.
pub proof fn law_only_the_first_voice_is_shown(n: nat)
    ensures
        n >= 2 ==> skipped(voice_label(n)),
        n == 1 ==> !skipped(voice_label(n)) && unwrapped(voice_label(n)),
{
    if n == 1 {
        reveal_strlit("DSP2");
        reveal_strlit("V1");
        assert(voice_label(1) =~= seq!['V', '1']);
        assert("V1"@ =~= seq!['V', '1']);
        assert("DSP2"@[0] == 'D');
    } else if n >= 2 {
        lemma_voice_is_other(n);
    }
}

/// Voices are collected in the order of the tree: a further widget adds, where it is a
/// group of the voice's label, what its contents have, with paths relative to it; where it
/// is another group, the voices in it; and else nothing.
pub proof fn law_voices_are_collected_in_order(
    ws: Seq<Widget>,
    w: Widget,
    target: Seq<char>,
    values: Map<Seq<char>, Bits>,
)
    ensures
        voice_collected(Seq::empty(), target, values) == values,
        voice_collected(ws.push(w), target, values) == (match w {
            Widget::Group { label, inner, .. } if label@ == target => collected(
                inner@,
                Seq::empty(),
                voice_collected(ws, target, values),
            ),
            Widget::Group { inner, .. } => voice_collected(
                inner@,
                target,
                voice_collected(ws, target, values),
            ),
            _ => voice_collected(ws, target, values),
        }),
{
    assert(ws.push(w).drop_last() =~= ws);
    assert(ws.push(w).last() == w);
    assert(voice_collected(ws.push(w), target, values) == voice_collected_one(
        w,
        target,
        voice_collected(ws, target, values),
    ));
}

/// A parameter takes the value of the deciding voice: the one at its path relative to that
/// voice. Where no voice that it stands in has a value at its path, or MIDI drives it, it
/// keeps its own, as every display does; and what stands in a group goes by the voices
/// that the group stands in and is.
pub proof fn law_parameters_take_the_deciding_value(
    old_w: Widget,
    new_w: Widget,
    scopes: Seq<Scope>,
    values: Map<Seq<char>, Bits>,
    i: int,
)
    requires
        synced(old_w, new_w, scopes, values),
    ensures
        ({
            let label = label_of(old_w);
            let driven = label == seq!['f', 'r', 'e', 'q'] || label == seq!['g', 'a', 't', 'e']
                || label == seq!['g', 'a', 'i', 'n'];
            let found = looked_up(scopes, label, values);
            &&& old_w is NumParam || old_w is BoolParam ==> zone_of(new_w) == (if driven || found is None {
                zone_of(old_w)
            } else {
                found
            })
            &&& old_w is NumDisplay ==> new_w == old_w
            &&& old_w matches Widget::Group { label: l1, inner: x, .. } ==> (
            new_w matches Widget::Group { label: l2, inner: y, .. } && l1 == l2 && all_synced(
                x@,
                y@,
                below(scopes, l1@),
                values,
            ))
            &&& (forall|k: int|
                0 <= k < scopes.len() ==> value_in(#[trigger] scopes[k], label, values) is None)
                ==> found is None
            &&& deciding(scopes, label, values) matches Some(d) ==> 0 <= d < scopes.len() && found
                == value_in(scopes[d], label, values) && found is Some
            &&& 0 <= i < scopes.len() ==> value_in(scopes[i], label, values) == (match scopes[i].path {
                Some(path) => {
                    let at = if path.len() == 0 {
                        label
                    } else {
                        path + seq!['/'] + label
                    };
                    if values.dom().contains(at) {
                        Some(values[at])
                    } else {
                        None
                    }
                },
                None => None,
            })
        }),
{
    law_labels_with_a_meaning(label_of(old_w));
    lemma_deciding(scopes, label_of(old_w), values);
}

} // verus!
