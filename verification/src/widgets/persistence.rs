//! Saving the values of the parameters and bringing them back.
use vstd::prelude::*;

use crate::bits::{clamp, clamped, is_lt, le, lt, Bits};
use crate::store::ParamStore;
use crate::text::joined;
use crate::widgets::tree::{
    all_same_but_values, comes_after, label_of, lemma_widget_before, lemma_widget_below, nopre_of,
    same_but_values, widget_at, zone_of, Widget,
};

verus! {

/// The path of a widget below `path`. Unnamed groups add nothing, so that no
/// path holds an empty step.
pub open spec fn widget_path(path: Seq<char>, label: Seq<char>) -> Seq<char> {
    if label.len() == 0 {
        path
    } else if path.len() == 0 {
        label
    } else {
        path + seq!['/'] + label
    }
}

/// The path of a widget below `path`.
pub fn build_widget_path(path: &str, label: &str) -> (r: String)
    ensures
        r@ == widget_path(path@, label@),
        label@.len() == 0 ==> r@ == path@,
        label@.len() > 0 && path@.len() == 0 ==> r@ == label@,
        label@.len() > 0 && path@.len() > 0 ==> r@ == path@ + seq!['/'] + label@,
{
    if label.is_empty() {
        path.to_owned()
    } else if path.is_empty() {
        label.to_owned()
    } else {
        let mut start: String = path.to_owned();
        start.push('/');
        assert(start@ =~= path@ + seq!['/']);
        joined(start.as_str(), label)
    }
}

/// What kind of value a widget without children holds.
pub enum LeafKind {
    /// A switch.
    Switch,
    /// A number that the user sets within a range.
    Number { min: Bits, max: Bits },
    /// A number that the DSP shows.
    Display,
}

/// A widget without children, with its path from the root.
pub struct Leaf {
    pub path: Seq<char>,
    pub kind: LeafKind,
    pub zone: Bits,
    pub nopre: bool,
}

/// The leaves of a list of widgets below `path`, in order.
pub open spec fn leaves(ws: Seq<Widget>, path: Seq<char>) -> Seq<Leaf>
    decreases ws,
{
    if ws.len() == 0 {
        Seq::empty()
    } else {
        leaves(ws.drop_last(), path) + leaves_of(ws.last(), path)
    }
}

/// The leaves of one widget below `path`, in order.
pub open spec fn leaves_of(w: Widget, path: Seq<char>) -> Seq<Leaf>
    decreases w,
{
    let at = widget_path(path, label_of(w));
    match w {
        Widget::Group { inner, .. } => leaves(inner@, at),
        Widget::BoolParam { zone, nopre, .. } => seq![
            Leaf { path: at, kind: LeafKind::Switch, zone, nopre },
        ],
        Widget::NumParam { zone, min, max, metadata, .. } => seq![
            Leaf {
                path: at,
                kind: LeafKind::Number { min, max },
                zone,
                nopre: metadata.nopre,
            },
        ],
        Widget::NumDisplay { zone, metadata, .. } => seq![
            Leaf { path: at, kind: LeafKind::Display, zone, nopre: metadata.nopre },
        ],
    }
}

/// Whether the value of a leaf is saved: displays are not, nor what has no name,
/// nor, in a preset, what is marked to be left out.
pub open spec fn is_saved(leaf: Leaf, for_preset: bool) -> bool {
    !(leaf.kind is Display) && leaf.path.len() > 0 && !(for_preset && leaf.nopre)
}

/// The stored values after the leaves were saved, one after the other.
pub open spec fn saved(
    found: Seq<Leaf>,
    storage: Map<Seq<char>, Bits>,
    for_preset: bool,
) -> Map<Seq<char>, Bits>
    decreases found.len(),
{
    if found.len() == 0 {
        storage
    } else {
        let before = saved(found.drop_last(), storage, for_preset);
        if is_saved(found.last(), for_preset) {
            before.insert(found.last().path, found.last().zone)
        } else {
            before
        }
    }
}

/// A leaf after the stored values were brought back: a stored number is moved
/// into the parameter's range, a stored switch is taken as it is.
pub open spec fn restored(leaf: Leaf, stored: Map<Seq<char>, Bits>) -> Leaf {
    if !stored.dom().contains(leaf.path) {
        leaf
    } else {
        match leaf.kind {
            LeafKind::Switch => Leaf { zone: stored[leaf.path], ..leaf },
            LeafKind::Number { min, max } => Leaf {
                zone: clamped(stored[leaf.path], min, max),
                ..leaf
            },
            LeafKind::Display => leaf,
        }
    }
}

/// The leaves after the stored values were brought back.
pub open spec fn all_restored(found: Seq<Leaf>, stored: Map<Seq<char>, Bits>) -> Seq<Leaf> {
    Seq::new(found.len(), |i: int| restored(found[i], stored))
}

/// Whether every stored number has a range to be moved into.
pub open spec fn ranges_hold(found: Seq<Leaf>, stored: Map<Seq<char>, Bits>) -> bool {
    forall|i: int|
        0 <= i < found.len() && stored.dom().contains((#[trigger] found[i]).path) ==> (
        found[i].kind matches LeafKind::Number { min, max } ==> le(min, max))
}

/// Saves the values of the parameters below `path`. For a preset, parameters
/// that are marked to be left out are skipped.
pub fn save_widget_values(
    widgets: &Vec<Widget>,
    storage: &mut ParamStore,
    path: &str,
    for_preset: bool,
)
    ensures
        final(storage)@ == saved(leaves(widgets@, path@), old(storage)@, for_preset),
    decreases widgets@,
{
    let mut i: usize = 0;
    assert(widgets@.take(0) =~= Seq::<Widget>::empty());
    while i < widgets.len()
        invariant
            i <= widgets@.len(),
            storage@ == saved(leaves(widgets@.take(i as int), path@), old(storage)@, for_preset),
        decreases widgets@.len() - i,
    {
        let ghost done = leaves(widgets@.take(i as int), path@);
        let ghost more = leaves_of(widgets@[i as int], path@);
        proof {
            assert(widgets@.take(i + 1).drop_last() =~= widgets@.take(i as int));
            lemma_saved_in_two(done, more, old(storage)@, for_preset);
            assert(decreases_to!(widgets@ => widgets@[i as int]));
        }
        let at = build_widget_path(path, widgets[i].label());
        match &widgets[i] {
            Widget::NumParam { zone, metadata, .. } => {
                proof {
                    lemma_saved_one(more[0], saved(done, old(storage)@, for_preset), for_preset);
                    assert(more =~= seq![more[0]]);
                }
                if !(for_preset && metadata.nopre) && !at.as_str().is_empty() {
                    storage.insert(at, *zone);
                }
            },
            Widget::BoolParam { zone, nopre, .. } => {
                proof {
                    lemma_saved_one(more[0], saved(done, old(storage)@, for_preset), for_preset);
                    assert(more =~= seq![more[0]]);
                }
                if !(for_preset && *nopre) && !at.as_str().is_empty() {
                    storage.insert(at, *zone);
                }
            },
            Widget::Group { inner, .. } => {
                save_widget_values(inner, storage, at.as_str(), for_preset);
            },
            Widget::NumDisplay { .. } => {
                proof {
                    lemma_saved_one(more[0], saved(done, old(storage)@, for_preset), for_preset);
                    assert(more =~= seq![more[0]]);
                }
            },
        }
        i = i + 1;
    }
    assert(widgets@.take(i as int) =~= widgets@);
}

/// Saving leaves in two goes is saving them in one.
proof fn lemma_saved_in_two(
    first: Seq<Leaf>,
    second: Seq<Leaf>,
    storage: Map<Seq<char>, Bits>,
    for_preset: bool,
)
    ensures
        saved(first + second, storage, for_preset) == saved(
            second,
            saved(first, storage, for_preset),
            for_preset,
        ),
    decreases second.len(),
{
    if second.len() == 0 {
        assert(first + second =~= first);
    } else {
        assert((first + second).drop_last() =~= first + second.drop_last());
        lemma_saved_in_two(first, second.drop_last(), storage, for_preset);
    }
}

/// Saving a single leaf.
proof fn lemma_saved_one(leaf: Leaf, storage: Map<Seq<char>, Bits>, for_preset: bool)
    ensures
        saved(seq![leaf], storage, for_preset) == (if is_saved(leaf, for_preset) {
            storage.insert(leaf.path, leaf.zone)
        } else {
            storage
        }),
{
    reveal_with_fuel(saved, 2);
    assert(seq![leaf].drop_last() =~= Seq::<Leaf>::empty());
}

/// Brings stored values back into the parameters below `path`. Parameters that
/// presets leave out are brought back too, where a value is stored for them.
pub fn restore_widget_values(widgets: &mut Vec<Widget>, stored: &ParamStore, path: &str)
    requires
        ranges_hold(leaves(old(widgets)@, path@), stored@),
    ensures
        all_same_but_values(old(widgets)@, final(widgets)@),
        leaves(final(widgets)@, path@) == all_restored(leaves(old(widgets)@, path@), stored@),
    decreases old(widgets)@,
{
    let ghost before = widgets@;
    let mut i: usize = 0;
    assert(widgets@.take(0) =~= Seq::<Widget>::empty());
    while i < widgets.len()
        invariant
            i <= widgets@.len(),
            before == old(widgets)@,
            widgets@.len() == before.len(),
            ranges_hold(leaves(before, path@), stored@),
            forall|k: int| i <= k < before.len() ==> widgets@[k] == #[trigger] before[k],
            forall|k: int| 0 <= k < i ==> same_but_values(#[trigger] before[k], widgets@[k]),
            leaves(widgets@.take(i as int), path@) == all_restored(
                leaves(before.take(i as int), path@),
                stored@,
            ),
        decreases widgets@.len() - i,
    {
        let ghost entry = widgets@;
        let ghost done = leaves(before.take(i as int), path@);
        let ghost more = leaves_of(before[i as int], path@);
        proof {
            assert(before[i as int] == widgets@[i as int]);
            assert(decreases_to!(before => before[i as int]));
            lemma_leaves_within(before, i as int, path@);
            assert(ranges_hold(more, stored@)) by {
                assert forall|k: int|
                    0 <= k < more.len() && stored@.dom().contains((#[trigger] more[k]).path) implies (
                more[k].kind matches LeafKind::Number { min, max } ==> le(min, max)) by {
                    assert(leaves(before, path@)[done.len() + k] == more[k]);
                }
            }
        }
        let at = build_widget_path(path, widgets[i].label());
        match &mut widgets[i] {
            Widget::NumParam { zone, min, max, .. } => {
                match stored.get(at.as_str()) {
                    Some(value) => {
                        assert(more[0].kind == LeafKind::Number { min: *min, max: *max });
                        *zone = clamp(value, *min, *max);
                    },
                    None => {},
                }
            },
            Widget::BoolParam { zone, .. } => {
                match stored.get(at.as_str()) {
                    Some(value) => {
                        *zone = value;
                    },
                    None => {},
                }
            },
            Widget::Group { inner, .. } => {
                restore_widget_values(inner, stored, at.as_str());
            },
            Widget::NumDisplay { .. } => {},
        }
        proof {
            assert(widgets@.take(i as int) =~= entry.take(i as int));
            assert(widgets@.take(i + 1).drop_last() =~= widgets@.take(i as int));
            assert(before.take(i + 1).drop_last() =~= before.take(i as int));
            assert(leaves_of(widgets@[i as int], path@) =~= all_restored(more, stored@));
            assert(leaves(widgets@.take(i + 1), path@) =~= all_restored(
                leaves(before.take(i + 1), path@),
                stored@,
            ));
            assert(same_but_values(before[i as int], widgets@[i as int]));
        }
        i = i + 1;
    }
    proof {
        assert(widgets@.take(i as int) =~= widgets@);
        assert(before.take(i as int) =~= before);
    }
}

/// The leaves of the widget at `i` stand, in order, behind those of the widgets
/// before it.
proof fn lemma_leaves_within(ws: Seq<Widget>, i: int, path: Seq<char>)
    requires
        0 <= i < ws.len(),
    ensures
        leaves(ws, path).len() >= leaves(ws.take(i), path).len() + leaves_of(ws[i], path).len(),
        forall|k: int|
            0 <= k < leaves_of(ws[i], path).len() ==> #[trigger] leaves(
                ws,
                path,
            )[leaves(ws.take(i), path).len() + k] == leaves_of(ws[i], path)[k],
        forall|k: int|
            0 <= k < leaves(ws.take(i), path).len() ==> #[trigger] leaves(ws, path)[k] == leaves(
                ws.take(i),
                path,
            )[k],
    decreases ws.len(),
{
    if i == ws.len() - 1 {
        assert(ws.take(i) =~= ws.drop_last());
    } else {
        lemma_leaves_within(ws.drop_last(), i, path);
        assert(ws.drop_last().take(i) =~= ws.take(i));
    }
}

/// A parameter whose stored value can be held against its present one.
#[derive(Debug)]
pub struct ParamChange {
    pub path: String,
    pub old_value: Bits,
    pub new_value: Bits,
}

/// The bit pattern of `0.001`: a parameter that moved by no more did not move.
pub const MOVED_THRESHOLD: u32 = 0x3a83_126f;

/// Whether a parameter moved. `distance` is how far its stored value and its present
/// one are apart.
pub fn has_moved(distance: Bits) -> (r: bool)
    ensures
        r == lt(MOVED_THRESHOLD, distance),
        r == lt(0x3a83_126f, distance),
{
    is_lt(MOVED_THRESHOLD, distance)
}

/// A parameter's path, its stored value and its present one.
pub type Change = (Seq<char>, Bits, Bits);

/// What `log_param_changes` reports of the leaves, in order: every parameter that
/// has a stored value.
pub open spec fn changes(found: Seq<Leaf>, old_values: Map<Seq<char>, Bits>) -> Seq<Change>
    decreases found.len(),
{
    if found.len() == 0 {
        Seq::empty()
    } else {
        let before = changes(found.drop_last(), old_values);
        let leaf = found.last();
        if !(leaf.kind is Display) && old_values.dom().contains(leaf.path) {
            before.push((leaf.path, old_values[leaf.path], leaf.zone))
        } else {
            before
        }
    }
}

/// The reports as plain values.
pub open spec fn change_views(list: Seq<ParamChange>) -> Seq<Change> {
    Seq::new(list.len(), |i: int| (list[i].path@, list[i].old_value, list[i].new_value))
}

/// Lists the parameters below `path` that have a stored value, with that value
/// and the present one, so that the caller can log those that moved.
pub fn log_param_changes(widgets: &Vec<Widget>, old_values: &ParamStore, path: &str) -> (r: Vec<
    ParamChange,
>)
    ensures
        change_views(r@) == changes(leaves(widgets@, path@), old_values@),
    decreases widgets@,
{
    let mut r: Vec<ParamChange> = Vec::new();
    let mut i: usize = 0;
    assert(widgets@.take(0) =~= Seq::<Widget>::empty());
    assert(change_views(r@) =~= Seq::empty());
    while i < widgets.len()
        invariant
            i <= widgets@.len(),
            change_views(r@) == changes(leaves(widgets@.take(i as int), path@), old_values@),
        decreases widgets@.len() - i,
    {
        let ghost done = leaves(widgets@.take(i as int), path@);
        let ghost more = leaves_of(widgets@[i as int], path@);
        let ghost before = r@;
        proof {
            assert(widgets@.take(i + 1).drop_last() =~= widgets@.take(i as int));
            lemma_changes_in_two(done, more, old_values@);
            assert(decreases_to!(widgets@ => widgets@[i as int]));
        }
        let at = build_widget_path(path, widgets[i].label());
        match &widgets[i] {
            Widget::NumParam { zone, .. } => {
                proof {
                    lemma_changes_one(more[0], old_values@);
                    assert(more =~= seq![more[0]]);
                }
                match old_values.get(at.as_str()) {
                    Some(old_value) => {
                        r.push(ParamChange { path: at, old_value, new_value: *zone });
                    },
                    None => {},
                }
            },
            Widget::BoolParam { zone, .. } => {
                proof {
                    lemma_changes_one(more[0], old_values@);
                    assert(more =~= seq![more[0]]);
                }
                match old_values.get(at.as_str()) {
                    Some(old_value) => {
                        r.push(ParamChange { path: at, old_value, new_value: *zone });
                    },
                    None => {},
                }
            },
            Widget::Group { inner, .. } => {
                let mut below = log_param_changes(inner, old_values, at.as_str());
                let ghost found = below@;
                r.append(&mut below);
                assert(change_views(before + found) =~= change_views(before) + change_views(found));
            },
            Widget::NumDisplay { .. } => {
                proof {
                    lemma_changes_one(more[0], old_values@);
                    assert(more =~= seq![more[0]]);
                }
            },
        }
        assert(change_views(r@) =~= changes(done, old_values@) + changes(more, old_values@));
        i = i + 1;
    }
    assert(widgets@.take(i as int) =~= widgets@);
    r
}

/// Reports on leaves in two goes are the reports in one.
proof fn lemma_changes_in_two(
    first: Seq<Leaf>,
    second: Seq<Leaf>,
    old_values: Map<Seq<char>, Bits>,
)
    ensures
        changes(first + second, old_values) == changes(first, old_values) + changes(
            second,
            old_values,
        ),
    decreases second.len(),
{
    if second.len() == 0 {
        assert(first + second =~= first);
        assert(changes(first, old_values) + changes(second, old_values) =~= changes(
            first,
            old_values,
        ));
    } else {
        assert((first + second).drop_last() =~= first + second.drop_last());
        lemma_changes_in_two(first, second.drop_last(), old_values);
        assert(changes(first + second, old_values) =~= changes(first, old_values) + changes(
            second,
            old_values,
        ));
    }
}

/// The report on a single leaf.
proof fn lemma_changes_one(leaf: Leaf, old_values: Map<Seq<char>, Bits>)
    ensures
        changes(seq![leaf], old_values) == (if !(leaf.kind is Display)
            && old_values.dom().contains(leaf.path) {
            seq![(leaf.path, old_values[leaf.path], leaf.zone)]
        } else {
            Seq::<Change>::empty()
        }),
{
    reveal_with_fuel(changes, 2);
    assert(seq![leaf].drop_last() =~= Seq::<Leaf>::empty());
    assert(changes(seq![leaf], old_values) =~= (if !(leaf.kind is Display)
        && old_values.dom().contains(leaf.path) {
        seq![(leaf.path, old_values[leaf.path], leaf.zone)]
    } else {
        Seq::<Change>::empty()
    }));
}

/// A saved value is read back at its path, unless a later parameter has the same
/// path. Bringing it back gives a switch its value and a number its value moved
/// into the range: a number that lies in its range comes back unchanged.
pub proof fn law_saved_values_come_back(
    found: Seq<Leaf>,
    storage: Map<Seq<char>, Bits>,
    for_preset: bool,
    i: int,
)
    requires
        0 <= i < found.len(),
        is_saved(found[i], for_preset),
        forall|j: int|
            i < j < found.len() && is_saved(#[trigger] found[j], for_preset) ==> found[j].path
                != found[i].path,
    ensures
        saved(found, storage, for_preset).dom().contains(found[i].path),
        saved(found, storage, for_preset)[found[i].path] == found[i].zone,
        restored(found[i], saved(found, storage, for_preset)).zone == (match found[i].kind {
            LeafKind::Number { min, max } => clamped(found[i].zone, min, max),
            _ => found[i].zone,
        }),
        (found[i].kind matches LeafKind::Number { min, max } ==> le(min, found[i].zone) && le(
            found[i].zone,
            max,
        )) ==> restored(found[i], saved(found, storage, for_preset)) == found[i],
    decreases found.len(),
{
    if i < found.len() - 1 {
        let rest = found.drop_last();
        assert forall|j: int|
            i < j < rest.len() && is_saved(#[trigger] rest[j], for_preset) implies rest[j].path
            != rest[i].path by {
            assert(is_saved(found[j], for_preset));
        }
        law_saved_values_come_back(rest, storage, for_preset, i);
        let last = found[found.len() - 1];
        if is_saved(last, for_preset) {
            assert(last.path != found[i].path);
        }
    }
}

/// Saving leaves every stored value alone whose path no saved parameter has: in
/// a preset, the values of the parameters that presets leave out.
pub proof fn law_saving_keeps_other_values(
    found: Seq<Leaf>,
    storage: Map<Seq<char>, Bits>,
    for_preset: bool,
    path: Seq<char>,
)
    requires
        forall|j: int|
            0 <= j < found.len() && is_saved(#[trigger] found[j], for_preset) ==> found[j].path
                != path,
    ensures
        saved(found, storage, for_preset).dom().contains(path) <==> storage.dom().contains(path),
        storage.dom().contains(path) ==> saved(found, storage, for_preset)[path] == storage[path],
    decreases found.len(),
{
    if found.len() > 0 {
        let rest = found.drop_last();
        assert forall|j: int|
            0 <= j < rest.len() && is_saved(#[trigger] rest[j], for_preset) implies rest[j].path
            != path by {
            assert(is_saved(found[j], for_preset));
        }
        law_saving_keeps_other_values(rest, storage, for_preset, path);
        if is_saved(found[found.len() - 1], for_preset) {
            assert(found[found.len() - 1].path != path);
        }
    }
}

/// The labels on the way down the tree, behind `path`, with a `/` between them; empty
/// ones are left out.
pub open spec fn path_to(ws: Seq<Widget>, at: Seq<int>, path: Seq<char>) -> Seq<char>
    decreases at.len(),
{
    if at.len() == 0 || !(0 <= at[0] < ws.len()) {
        path
    } else {
        let label = label_of(ws[at[0]]);
        let here = if label.len() == 0 {
            path
        } else if path.len() == 0 {
            label
        } else {
            path + seq!['/'] + label
        };
        match ws[at[0]] {
            Widget::Group { inner, .. } => path_to(inner@, at.skip(1), here),
            _ => here,
        }
    }
}

/// No parameter that goes into the storage has this path.
spec fn unnamed(ws: Seq<Widget>, path: Seq<char>, for_preset: bool, key: Seq<char>) -> bool {
    forall|at: Seq<int>|
        (match #[trigger] widget_at(ws, at) {
            Some(w) => (w is NumParam || w is BoolParam) && !(for_preset && nopre_of(w)),
            None => false,
        }) ==> path_to(ws, at, path) != key
}

/// Storing what has another path keeps what is at a path.
proof fn lemma_unnamed_is_kept(
    ws: Seq<Widget>,
    path: Seq<char>,
    storage: Map<Seq<char>, Bits>,
    for_preset: bool,
    key: Seq<char>,
)
    requires
        unnamed(ws, path, for_preset, key),
    ensures
        saved(leaves(ws, path), storage, for_preset).dom().contains(key)
            <==> storage.dom().contains(key),
        saved(leaves(ws, path), storage, for_preset)[key] == storage[key],
    decreases ws,
{
    if ws.len() > 0 {
        let rest = ws.drop_last();
        let last = (ws.len() - 1) as int;
        assert(unnamed(rest, path, for_preset, key)) by {
            assert forall|at: Seq<int>|
                (match #[trigger] widget_at(rest, at) {
                    Some(w) => (w is NumParam || w is BoolParam) && !(for_preset && nopre_of(w)),
                    None => false,
                }) implies path_to(rest, at, path) != key by {
                lemma_widget_before(ws, at);
                assert(path_to(rest, at, path) == path_to(ws, at, path));
                assert(widget_at(ws, at) is Some);
            }
        }
        lemma_unnamed_is_kept(rest, path, storage, for_preset, key);
        lemma_unnamed_below(ws, last, path, for_preset, key);
        assert(decreases_to!(ws => ws[ws.len() - 1]));
        lemma_unnamed_one_is_kept(
            ws[last],
            path,
            saved(leaves(rest, path), storage, for_preset),
            for_preset,
            key,
        );
        lemma_saved_in_two(leaves(rest, path), leaves_of(ws[last], path), storage, for_preset);
    }
}

/// What no parameter in a list has as its path, none in one of its widgets has.
proof fn lemma_unnamed_below(
    ws: Seq<Widget>,
    i: int,
    path: Seq<char>,
    for_preset: bool,
    key: Seq<char>,
)
    requires
        0 <= i < ws.len(),
        unnamed(ws, path, for_preset, key),
    ensures
        unnamed_one(ws[i], path, for_preset, key),
{
    match ws[i] {
        Widget::Group { inner, .. } => {
            let here = widget_path(path, label_of(ws[i]));
            assert forall|at: Seq<int>|
                (match #[trigger] widget_at(inner@, at) {
                    Some(w) => (w is NumParam || w is BoolParam) && !(for_preset && nopre_of(w)),
                    None => false,
                }) implies path_to(inner@, at, here) != key by {
                lemma_widget_below(ws, i, at);
                assert(widget_at(ws, seq![i] + at) is Some);
                assert(path_to(ws, seq![i] + at, path) == path_to(inner@, at, here));
            }
        },
        _ => {
            assert(widget_at(ws, seq![i]) == Some(ws[i]));
        },
    }
}

/// `unnamed` for one widget.
spec fn unnamed_one(w: Widget, path: Seq<char>, for_preset: bool, key: Seq<char>) -> bool {
    let here = widget_path(path, label_of(w));
    match w {
        Widget::Group { inner, .. } => unnamed(inner@, here, for_preset, key),
        Widget::NumDisplay { .. } => true,
        _ => for_preset && nopre_of(w) || here != key,
    }
}

/// `lemma_unnamed_is_kept` for one widget.
proof fn lemma_unnamed_one_is_kept(
    w: Widget,
    path: Seq<char>,
    storage: Map<Seq<char>, Bits>,
    for_preset: bool,
    key: Seq<char>,
)
    requires
        unnamed_one(w, path, for_preset, key),
    ensures
        saved(leaves_of(w, path), storage, for_preset).dom().contains(key)
            <==> storage.dom().contains(key),
        saved(leaves_of(w, path), storage, for_preset)[key] == storage[key],
    decreases w,
{
    let here = widget_path(path, label_of(w));
    match w {
        Widget::Group { inner, .. } => {
            lemma_unnamed_is_kept(inner@, here, storage, for_preset, key);
        },
        _ => {
            let leaf = leaves_of(w, path)[0];
            assert(leaves_of(w, path) =~= seq![leaf]);
            lemma_saved_one(leaf, storage, for_preset);
        },
    }
}

/// Nothing else is stored: where no parameter has a path, but for those left out of a
/// preset, what is stored at it stays.
pub proof fn law_nothing_else_is_saved(
    ws: Seq<Widget>,
    path: Seq<char>,
    storage: Map<Seq<char>, Bits>,
    for_preset: bool,
    key: Seq<char>,
)
    requires
        forall|at: Seq<int>|
            (match #[trigger] widget_at(ws, at) {
                Some(w) => (w is NumParam || w is BoolParam) && !(for_preset && nopre_of(w)),
                None => false,
            }) ==> path_to(ws, at, path) != key,
    ensures
        saved(leaves(ws, path), storage, for_preset).dom().contains(key)
            <==> storage.dom().contains(key),
        saved(leaves(ws, path), storage, for_preset)[key] == storage[key],
{
    lemma_unnamed_is_kept(ws, path, storage, for_preset, key);
}

/// Every number and every switch with a name is saved, whatever its value: the storage
/// holds its value at its path afterwards, unless it is left out of a preset, or one
/// that is saved too and stands behind it has the same path.
pub proof fn law_every_parameter_is_saved(
    ws: Seq<Widget>,
    path: Seq<char>,
    storage: Map<Seq<char>, Bits>,
    for_preset: bool,
    at: Seq<int>,
)
    requires
        widget_at(ws, at) matches Some(w) && (w is NumParam || w is BoolParam) && !(for_preset
            && nopre_of(w)),
        path_to(ws, at, path).len() > 0,
        forall|other: Seq<int>|
            (match #[trigger] widget_at(ws, other) {
                Some(w) => (w is NumParam || w is BoolParam) && !(for_preset && nopre_of(w)),
                None => false,
            }) && comes_after(other, at) ==> path_to(ws, other, path) != path_to(ws, at, path),
    ensures
        saved(leaves(ws, path), storage, for_preset).dom().contains(path_to(ws, at, path)),
        Some(saved(leaves(ws, path), storage, for_preset)[path_to(ws, at, path)]) == zone_of(
            widget_at(ws, at)->0,
        ),
    decreases ws,
{
    let rest = ws.drop_last();
    let last = (ws.len() - 1) as int;
    let key = path_to(ws, at, path);
    let before = saved(leaves(rest, path), storage, for_preset);
    lemma_saved_in_two(leaves(rest, path), leaves_of(ws[last], path), storage, for_preset);
    assert(decreases_to!(ws => ws[ws.len() - 1]));
    if at[0] == last {
        match ws[last] {
            Widget::Group { inner, .. } => {
                let here = widget_path(path, label_of(ws[last]));
                let down = at.skip(1);
                assert forall|other: Seq<int>|
                    (match #[trigger] widget_at(inner@, other) {
                        Some(w) => (w is NumParam || w is BoolParam) && !(for_preset && nopre_of(
                            w,
                        )),
                        None => false,
                    }) && comes_after(other, down) implies path_to(inner@, other, here) != path_to(
                    inner@,
                    down,
                    here,
                ) by {
                    lemma_widget_below(ws, last, other);
                    assert(widget_at(ws, seq![last] + other) is Some);
                    assert(comes_after(seq![last] + other, at));
                    assert(path_to(ws, seq![last] + other, path) == path_to(inner@, other, here));
                }
                assert(decreases_to!(ws[last] => inner));
                law_every_parameter_is_saved(inner@, here, before, for_preset, down);
            },
            _ => {
                let leaf = leaves_of(ws[last], path)[0];
                assert(leaves_of(ws[last], path) =~= seq![leaf]);
                lemma_saved_one(leaf, before, for_preset);
            },
        }
    } else {
        lemma_widget_before(ws, at);
        assert(path_to(rest, at, path) == key);
        assert forall|other: Seq<int>|
            (match #[trigger] widget_at(rest, other) {
                Some(w) => (w is NumParam || w is BoolParam) && !(for_preset && nopre_of(w)),
                None => false,
            }) && comes_after(other, at) implies path_to(rest, other, path) != key by {
            lemma_widget_before(ws, other);
            assert(path_to(rest, other, path) == path_to(ws, other, path));
            assert(widget_at(ws, other) is Some);
        }
        law_every_parameter_is_saved(rest, path, storage, for_preset, at);
        assert(unnamed_one(ws[last], path, for_preset, key)) by {
            match ws[last] {
                Widget::Group { inner, .. } => {
                    let here = widget_path(path, label_of(ws[last]));
                    assert forall|other: Seq<int>|
                        (match #[trigger] widget_at(inner@, other) {
                            Some(w) => (w is NumParam || w is BoolParam) && !(for_preset
                                && nopre_of(w)),
                            None => false,
                        }) implies path_to(inner@, other, here) != key by {
                        lemma_widget_below(ws, last, other);
                        assert(widget_at(ws, seq![last] + other) is Some);
                        assert(comes_after(seq![last] + other, at));
                        assert(path_to(ws, seq![last] + other, path) == path_to(
                            inner@,
                            other,
                            here,
                        ));
                    }
                },
                _ => {
                    assert(widget_at(ws, seq![last]) == Some(ws[last]));
                    assert(comes_after(seq![last], at));
                },
            }
        }
        lemma_unnamed_one_is_kept(ws[last], path, before, for_preset, key);
    }
}

/// Which of the leaves is reached by going down the tree.
spec fn leaf_place(ws: Seq<Widget>, at: Seq<int>, path: Seq<char>) -> int
    decreases at.len(),
{
    if at.len() == 0 || !(0 <= at[0] < ws.len()) {
        0
    } else {
        leaves(ws.take(at[0]), path).len() + match ws[at[0]] {
            Widget::Group { inner, .. } => leaf_place(
                inner@,
                at.skip(1),
                widget_path(path, label_of(ws[at[0]])),
            ),
            _ => 0int,
        }
    }
}

/// A widget without children is one of the leaves.
proof fn lemma_leaf_place(ws: Seq<Widget>, at: Seq<int>, path: Seq<char>)
    requires
        widget_at(ws, at) matches Some(w) && !(w is Group),
    ensures
        0 <= leaf_place(ws, at, path) < leaves(ws, path).len(),
        ({
            let w = widget_at(ws, at)->0;
            let leaf = leaves(ws, path)[leaf_place(ws, at, path)];
            &&& leaf.path == path_to(ws, at, path)
            &&& Some(leaf.zone) == zone_of(w)
            &&& leaf.kind == (match w {
                Widget::NumParam { min, max, .. } => LeafKind::Number { min, max },
                Widget::NumDisplay { .. } => LeafKind::Display,
                _ => LeafKind::Switch,
            })
        }),
    decreases at.len(),
{
    let i = at[0];
    lemma_leaves_within(ws, i, path);
    match ws[i] {
        Widget::Group { inner, .. } => {
            lemma_leaf_place(inner@, at.skip(1), widget_path(path, label_of(ws[i])));
        },
        _ => {},
    }
}

/// Widgets that differ in values only have as many leaves.
proof fn lemma_as_many_leaves(a: Seq<Widget>, b: Seq<Widget>, path: Seq<char>)
    requires
        all_same_but_values(a, b),
    ensures
        leaves(a, path).len() == leaves(b, path).len(),
    decreases a,
{
    if a.len() > 0 {
        let x = a.drop_last();
        let y = b.drop_last();
        assert forall|i: int| 0 <= i < x.len() implies same_but_values(#[trigger] x[i], y[i]) by {
            assert(same_but_values(a[i], b[i]));
        }
        lemma_as_many_leaves(x, y, path);
        assert(same_but_values(a[a.len() - 1], b[b.len() - 1]));
        assert(decreases_to!(a => a[a.len() - 1]));
        match (a.last(), b.last()) {
            (Widget::Group { inner: p, .. }, Widget::Group { inner: q, .. }) => {
                assert(decreases_to!(a.last() => p));
                lemma_as_many_leaves(p@, q@, widget_path(path, label_of(a.last())));
            },
            _ => {},
        }
        assert(leaves_of(a.last(), path).len() == leaves_of(b.last(), path).len());
        assert(leaves(a, path).len() == leaves(x, path).len() + leaves_of(a.last(), path).len());
        assert(leaves(b, path).len() == leaves(y, path).len() + leaves_of(b.last(), path).len());
    }
}

/// Widgets that differ in values only have the same leaves at the same places.
proof fn lemma_same_leaf_place(a: Seq<Widget>, b: Seq<Widget>, at: Seq<int>, path: Seq<char>)
    requires
        all_same_but_values(a, b),
        widget_at(a, at) matches Some(w) && !(w is Group),
    ensures
        leaf_place(a, at, path) == leaf_place(b, at, path),
    decreases at.len(),
{
    let i = at[0];
    let x = a.take(i);
    let y = b.take(i);
    assert forall|k: int| 0 <= k < x.len() implies same_but_values(#[trigger] x[k], y[k]) by {
        assert(same_but_values(a[k], b[k]));
    }
    lemma_as_many_leaves(x, y, path);
    assert(same_but_values(a[i], b[i]));
    match (a[i], b[i]) {
        (Widget::Group { inner: p, .. }, Widget::Group { inner: q, .. }) => {
            lemma_same_leaf_place(p@, q@, at.skip(1), widget_path(path, label_of(a[i])));
        },
        _ => {},
    }
}

/// Stored values are brought back to where they belong: a switch with a stored value at
/// its path has that value afterwards; a number has it too, or the end of its range that
/// the value lies behind; what has no stored value, and every display, is as before.
pub proof fn law_stored_values_are_brought_back(
    before: Seq<Widget>,
    after: Seq<Widget>,
    stored: Map<Seq<char>, Bits>,
    path: Seq<char>,
    at: Seq<int>,
)
    requires
        all_same_but_values(before, after),
        leaves(after, path) == all_restored(leaves(before, path), stored),
        widget_at(before, at) matches Some(w) && !(w is Group),
    ensures
        widget_at(after, at) is Some,
        ({
            let here = path_to(before, at, path);
            let value = stored[here];
            let new = zone_of(widget_at(after, at)->0);
            let old_value = zone_of(widget_at(before, at)->0);
            match widget_at(before, at)->0 {
                Widget::BoolParam { .. } if stored.dom().contains(here) => new == Some(value),
                Widget::NumParam { min, max, .. } if stored.dom().contains(here) => if lt(
                    value,
                    min,
                ) {
                    new == Some(min)
                } else if lt(max, value) {
                    new == Some(max)
                } else {
                    new == Some(value)
                },
                _ => new == old_value,
            }
        }),
{
    crate::widgets::tree::law_only_values_change(before, after, at);
    lemma_leaf_place(before, at, path);
    lemma_leaf_place(after, at, path);
    lemma_same_leaf_place(before, after, at, path);
}

/// Stored values can be brought back exactly if every number with a stored value at its
/// path has a range whose lower end is not above its upper end.
pub proof fn law_ranges_that_can_be_restored(
    ws: Seq<Widget>,
    path: Seq<char>,
    stored: Map<Seq<char>, Bits>,
)
    ensures
        ranges_hold(leaves(ws, path), stored) <==> forall|at: Seq<int>|
            (#[trigger] widget_at(ws, at) matches Some(Widget::NumParam { .. }))
                && stored.dom().contains(path_to(ws, at, path)) ==> (widget_at(ws, at) matches Some(
                Widget::NumParam { min, max, .. },
            ) && le(min, max)),
{
    let found = leaves(ws, path);
    if ranges_hold(found, stored) {
        assert forall|at: Seq<int>|
            (#[trigger] widget_at(ws, at) matches Some(Widget::NumParam { .. }))
                && stored.dom().contains(path_to(ws, at, path)) implies (widget_at(
            ws,
            at,
        ) matches Some(Widget::NumParam { min, max, .. }) && le(min, max)) by {
            lemma_leaf_place(ws, at, path);
            assert(stored.dom().contains(found[leaf_place(ws, at, path)].path));
        }
    }
    if forall|at: Seq<int>|
        (#[trigger] widget_at(ws, at) matches Some(Widget::NumParam { .. }))
            && stored.dom().contains(path_to(ws, at, path)) ==> (widget_at(ws, at) matches Some(
            Widget::NumParam { min, max, .. },
        ) && le(min, max)) {
        assert forall|i: int|
            0 <= i < found.len() && stored.dom().contains((#[trigger] found[i]).path) implies (
        found[i].kind matches LeafKind::Number { min, max } ==> le(min, max)) by {
            let at = lemma_leaf_is_reached(ws, path, i);
            lemma_leaf_place(ws, at, path);
            assert(widget_at(ws, at) is Some);
        }
    }
}

/// Every leaf is reached by going down the tree.
proof fn lemma_leaf_is_reached(ws: Seq<Widget>, path: Seq<char>, i: int) -> (at: Seq<int>)
    requires
        0 <= i < leaves(ws, path).len(),
    ensures
        widget_at(ws, at) matches Some(w) && !(w is Group),
        leaf_place(ws, at, path) == i,
    decreases ws,
{
    let rest = ws.drop_last();
    let last = (ws.len() - 1) as int;
    let n = leaves(rest, path).len() as int;
    if i < n {
        let at = lemma_leaf_is_reached(rest, path, i);
        lemma_widget_before(ws, at);
        assert(rest.take(at[0]) =~= ws.take(at[0]));
        at
    } else {
        assert(ws.take(last) =~= rest);
        assert(leaves(ws, path).len() == n + leaves_of(ws[last], path).len());
        assert(decreases_to!(ws => ws[ws.len() - 1]));
        match ws[last] {
            Widget::Group { inner, .. } => {
                assert(decreases_to!(ws[last] => inner));
                let down = lemma_leaf_is_reached(
                    inner@,
                    widget_path(path, label_of(ws[last])),
                    i - n,
                );
                lemma_widget_below(ws, last, down);
                assert(leaf_place(ws, seq![last] + down, path) == i);
                seq![last] + down
            },
            _ => {
                assert(leaf_place(ws, seq![last], path) == n);
                seq![last]
            },
        }
    }
}

/// A report stands for a leaf, and a leaf with a stored value has a report.
proof fn lemma_changes(found: Seq<Leaf>, old_values: Map<Seq<char>, Bits>, change: Change)
    ensures
        changes(found, old_values).contains(change) <==> exists|i: int|
            0 <= i < found.len() && !((#[trigger] found[i]).kind is Display)
                && old_values.dom().contains(found[i].path) && change == (
                found[i].path,
                old_values[found[i].path],
                found[i].zone,
            ),
    decreases found.len(),
{
    if found.len() > 0 {
        let rest = found.drop_last();
        let last = found[found.len() - 1];
        lemma_changes(rest, old_values, change);
        let before = changes(rest, old_values);
        let now = changes(found, old_values);
        if before.contains(change) {
            let k = choose|k: int| 0 <= k < before.len() && before[k] == change;
            assert(now[k] == change);
            let i = choose|i: int|
                0 <= i < rest.len() && !((#[trigger] rest[i]).kind is Display)
                    && old_values.dom().contains(rest[i].path) && change == (
                    rest[i].path,
                    old_values[rest[i].path],
                    rest[i].zone,
                );
            assert(found[i] == rest[i]);
        }
        if now.contains(change) && !before.contains(change) {
            let k = choose|k: int| 0 <= k < now.len() && now[k] == change;
            if k < before.len() {
                assert(before[k] == change);
            }
            assert(!(last.kind is Display));
        }
        if exists|i: int|
            0 <= i < found.len() && !((#[trigger] found[i]).kind is Display)
                && old_values.dom().contains(found[i].path) && change == (
                found[i].path,
                old_values[found[i].path],
                found[i].zone,
            ) {
            let i = choose|i: int|
                0 <= i < found.len() && !((#[trigger] found[i]).kind is Display)
                    && old_values.dom().contains(found[i].path) && change == (
                    found[i].path,
                    old_values[found[i].path],
                    found[i].zone,
                );
            if i < rest.len() {
                assert(rest[i] == found[i]);
            } else {
                assert(now[now.len() - 1] == change);
            }
        }
    }
}

/// What is reported is what can be compared: a number or a switch with a stored value at
/// its path is reported with that value and its present one, and nothing else is.
pub proof fn law_stored_parameters_are_reported(
    ws: Seq<Widget>,
    path: Seq<char>,
    old_values: Map<Seq<char>, Bits>,
    change: Change,
)
    ensures
        changes(leaves(ws, path), old_values).contains(change) <==> exists|at: Seq<int>|
            match #[trigger] widget_at(ws, at) {
                Some(w) => (w is NumParam || w is BoolParam) && path_to(ws, at, path) == change.0
                    && old_values.dom().contains(change.0) && old_values[change.0] == change.1
                    && zone_of(w) == Some(change.2),
                None => false,
            },
{
    let found = leaves(ws, path);
    lemma_changes(found, old_values, change);
    if changes(found, old_values).contains(change) {
        let i = choose|i: int|
            0 <= i < found.len() && !((#[trigger] found[i]).kind is Display)
                && old_values.dom().contains(found[i].path) && change == (
                found[i].path,
                old_values[found[i].path],
                found[i].zone,
            );
        let at = lemma_leaf_is_reached(ws, path, i);
        lemma_leaf_place(ws, at, path);
        assert(widget_at(ws, at) is Some);
    }
    if exists|at: Seq<int>|
        match #[trigger] widget_at(ws, at) {
            Some(w) => (w is NumParam || w is BoolParam) && path_to(ws, at, path) == change.0
                && old_values.dom().contains(change.0) && old_values[change.0] == change.1
                && zone_of(w) == Some(change.2),
            None => false,
        } {
        let at = choose|at: Seq<int>|
            match #[trigger] widget_at(ws, at) {
                Some(w) => (w is NumParam || w is BoolParam) && path_to(ws, at, path) == change.0
                    && old_values.dom().contains(change.0) && old_values[change.0] == change.1
                    && zone_of(w) == Some(change.2),
                None => false,
            };
        lemma_leaf_place(ws, at, path);
        let i = leaf_place(ws, at, path);
        assert(found[i].path == change.0);
    }
}

/// No parameter is reported twice, and the reports are in the order of the parameters:
/// a further parameter adds at most one report, at the end.
pub proof fn law_reports_are_in_order(
    found: Seq<Leaf>,
    leaf: Leaf,
    old_values: Map<Seq<char>, Bits>,
)
    ensures
        changes(found.push(leaf), old_values) == (if !(leaf.kind is Display)
            && old_values.dom().contains(leaf.path) {
            changes(found, old_values).push((leaf.path, old_values[leaf.path], leaf.zone))
        } else {
            changes(found, old_values)
        }),
{
    assert(found.push(leaf).drop_last() =~= found);
}

/// Bringing the same values back twice is bringing them back once.
pub proof fn law_restoring_twice_is_restoring_once(
    found: Seq<Leaf>,
    stored: Map<Seq<char>, Bits>,
)
    requires
        ranges_hold(found, stored),
    ensures
        all_restored(all_restored(found, stored), stored) == all_restored(found, stored),
{
    assert forall|i: int| 0 <= i < found.len() implies restored(
        restored(#[trigger] found[i], stored),
        stored,
    ) == restored(found[i], stored) by {
    }
    assert(all_restored(all_restored(found, stored), stored) =~= all_restored(found, stored));
}

/// A number that was brought back lies in its parameter's range.
pub proof fn law_restored_numbers_are_in_range(
    found: Seq<Leaf>,
    stored: Map<Seq<char>, Bits>,
    i: int,
)
    requires
        ranges_hold(found, stored),
        0 <= i < found.len(),
        stored.dom().contains(found[i].path),
        !crate::bits::nan(stored[found[i].path]),
        found[i].kind is Number,
    ensures
        found[i].kind matches LeafKind::Number { min, max } && le(
            min,
            all_restored(found, stored)[i].zone,
        ) && le(all_restored(found, stored)[i].zone, max),
{
}

/// No path holds an empty step: where two named widgets nest, one separator
/// stands between their labels, and an unnamed group adds nothing.
pub proof fn law_unnamed_groups_add_nothing(path: Seq<char>, label: Seq<char>, empty: Seq<char>)
    requires
        empty.len() == 0,
    ensures
        widget_path(widget_path(path, empty), label) == widget_path(path, label),
        widget_path(widget_path(path, label), empty) == widget_path(path, label),
        path.len() > 0 && label.len() > 0 ==> widget_path(path, label) == path + seq!['/'] + label,
{
}

} // verus!
