//! Stored parameter values: a map from the path of a parameter to its value.
use vstd::prelude::*;

use crate::bits::Bits;

verus! {

/// The map that a list of entries stands for; a later entry wins.
pub open spec fn entries_map(entries: Seq<(String, Bits)>) -> Map<Seq<char>, Bits>
    decreases entries.len(),
{
    if entries.len() == 0 {
        Map::empty()
    } else {
        entries_map(entries.drop_last()).insert(entries.last().0@, entries.last().1)
    }
}

/// Whether no path occurs twice.
pub open spec fn distinct_paths(entries: Seq<(String, Bits)>) -> bool {
    forall|i: int, j: int|
        0 <= i < j < entries.len() ==> (#[trigger] entries[i]).0@ != (#[trigger] entries[j]).0@
}

/// Parameter values by path. Every path is held once.
pub struct ParamStore {
    entries: Vec<(String, Bits)>,
}

impl View for ParamStore {
    type V = Map<Seq<char>, Bits>;

    closed spec fn view(&self) -> Map<Seq<char>, Bits> {
        entries_map(self.entries@)
    }
}

impl ParamStore {
    #[verifier::type_invariant]
    spec fn well_formed(self) -> bool {
        distinct_paths(self.entries@)
    }

    /// The empty store.
    pub fn new() -> (store: Self)
        ensures
            store@ == Map::<Seq<char>, Bits>::empty(),
    {
        ParamStore { entries: Vec::new() }
    }

    /// The number of stored values.
    pub fn len(&self) -> (n: usize)
        ensures
            n == self@.len(),
            self@.dom().finite(),
    {
        proof {
            use_type_invariant(self);
            lemma_size(self.entries@);
        }
        self.entries.len()
    }

    /// Whether nothing is stored.
    pub fn is_empty(&self) -> (r: bool)
        ensures
            r == (self@ =~= Map::<Seq<char>, Bits>::empty()),
    {
        let r = self.entries.len() == 0;
        proof {
            if !r {
                assert(self@.dom().contains(self.entries@.last().0@));
            }
        }
        r
    }

    /// The value at a path.
    pub fn get(&self, path: &str) -> (r: Option<Bits>)
        ensures
            r == (if self@.dom().contains(path@) {
                Some(self@[path@])
            } else {
                None
            }),
    {
        proof {
            use_type_invariant(self);
        }
        match self.find(path) {
            Some(i) => {
                proof {
                    lemma_entry(self.entries@, i as int);
                }
                Some(self.entries[i].1)
            },
            None => {
                proof {
                    lemma_absent(self.entries@, path@);
                }
                None
            },
        }
    }

    /// The place of the entry at a path.
    fn find(&self, path: &str) -> (r: Option<usize>)
        ensures
            match r {
                Some(i) => i < self.entries@.len() && self.entries@[i as int].0@ == path@,
                None => forall|k: int|
                    0 <= k < self.entries@.len() ==> (#[trigger] self.entries@[k]).0@ != path@,
            },
    {
        let key: String = path.to_owned();
        let mut i: usize = 0;
        while i < self.entries.len()
            invariant
                i <= self.entries@.len(),
                key@ == path@,
                forall|k: int| 0 <= k < i ==> (#[trigger] self.entries@[k]).0@ != path@,
            decreases self.entries@.len() - i,
        {
            if self.entries[i].0 == key {
                return Some(i);
            }
            i = i + 1;
        }
        None
    }

    /// Stores a value at a path, in place of one already there.
    pub fn insert(&mut self, path: String, value: Bits)
        ensures
            final(self)@ == old(self)@.insert(path@, value),
    {
        proof {
            use_type_invariant(&*self);
        }
        let ghost before = self.entries@;
        match self.find(path.as_str()) {
            Some(i) => {
                proof {
                    lemma_replace(before, i as int, (path, value));
                }
                let mut entries: Vec<(String, Bits)> = Vec::new();
                std::mem::swap(&mut entries, &mut self.entries);
                entries.set(i, (path, value));
                self.entries = entries;
            },
            None => {
                let mut entries: Vec<(String, Bits)> = Vec::new();
                std::mem::swap(&mut entries, &mut self.entries);
                entries.push((path, value));
                assert(entries@.drop_last() =~= before);
                self.entries = entries;
            },
        }
    }

    /// Stores every value of another store; where both have one, the other's is
    /// kept.
    pub fn extend(&mut self, other: &ParamStore)
        ensures
            final(self)@ == old(self)@.union_prefer_right(other@),
    {
        let mut i: usize = 0;
        proof {
            assert(entries_map(other.entries@.take(0)) =~= Map::empty());
            assert(self@ =~= old(self)@.union_prefer_right(
                entries_map(other.entries@.take(0)),
            ));
        }
        while i < other.entries.len()
            invariant
                i <= other.entries@.len(),
                self@ == old(self)@.union_prefer_right(
                    entries_map(other.entries@.take(i as int)),
                ),
            decreases other.entries@.len() - i,
        {
            let path: String = other.entries[i].0.clone();
            let value: Bits = other.entries[i].1;
            self.insert(path, value);
            proof {
                assert(other.entries@.take(i + 1).drop_last() =~= other.entries@.take(i as int));
                assert(self@ =~= old(self)@.union_prefer_right(
                    entries_map(other.entries@.take(i + 1)),
                ));
            }
            i = i + 1;
        }
        assert(other.entries@.take(i as int) =~= other.entries@);
    }

    /// A store with the same values.
    pub fn copy(&self) -> (r: ParamStore)
        ensures
            r@ == self@,
    {
        let mut r = ParamStore::new();
        r.extend(self);
        assert(r@ =~= self@);
        r
    }

    /// The stored paths and values, each path once.
    pub fn to_entries(&self) -> (r: Vec<(String, Bits)>)
        ensures
            distinct_paths(r@),
            entries_map(r@) == self@,
            forall|i: int|
                0 <= i < r@.len() ==> self@.dom().contains((#[trigger] r@[i]).0@)
                    && self@[r@[i].0@] == r@[i].1,
            forall|path: Seq<char>| #[trigger]
                self@.dom().contains(path) ==> exists|i: int|
                    0 <= i < r@.len() && (#[trigger] r@[i]).0@ == path,
            forall|i: int, j: int|
                0 <= i < j < r@.len() ==> (#[trigger] r@[i]).0@ != (#[trigger] r@[j]).0@,
    {
        proof {
            use_type_invariant(self);
        }
        let mut r: Vec<(String, Bits)> = Vec::new();
        let mut i: usize = 0;
        assert(self.entries@.take(0) =~= Seq::<(String, Bits)>::empty());
        while i < self.entries.len()
            invariant
                i <= self.entries@.len(),
                r@.len() == i,
                forall|k: int| 0 <= k < i ==> (#[trigger] r@[k]).0@ == self.entries@[k].0@,
                entries_map(r@) == entries_map(self.entries@.take(i as int)),
            decreases self.entries@.len() - i,
        {
            let ghost before = r@;
            r.push((self.entries[i].0.clone(), self.entries[i].1));
            proof {
                assert(r@.drop_last() =~= before);
                assert(self.entries@.take(i + 1).drop_last() =~= self.entries@.take(i as int));
            }
            i = i + 1;
        }
        proof {
            assert(self.entries@.take(i as int) =~= self.entries@);
            assert forall|a: int, b: int| 0 <= a < b < r@.len() implies (#[trigger] r@[a]).0@ != (
            #[trigger] r@[b]).0@ by {
                assert(self.entries@[a].0@ != self.entries@[b].0@);
            }
            assert forall|k: int| 0 <= k < r@.len() implies self@.dom().contains(
                (#[trigger] r@[k]).0@,
            ) && self@[r@[k].0@] == r@[k].1 by {
                lemma_entry(r@, k);
            }
            assert forall|path: Seq<char>| #[trigger] self@.dom().contains(path) implies exists|
                k: int,
            |
                0 <= k < r@.len() && (#[trigger] r@[k]).0@ == path by {
                lemma_absent(r@, path);
            }
        }
        r
    }
}

/// The map has a path exactly where the list has an entry for it.
proof fn lemma_absent(entries: Seq<(String, Bits)>, path: Seq<char>)
    ensures
        entries_map(entries).dom().contains(path) <==> exists|k: int|
            0 <= k < entries.len() && (#[trigger] entries[k]).0@ == path,
    decreases entries.len(),
{
    if entries.len() > 0 {
        let rest = entries.drop_last();
        lemma_absent(rest, path);
        if exists|k: int| 0 <= k < entries.len() && (#[trigger] entries[k]).0@ == path {
            let k = choose|k: int| 0 <= k < entries.len() && (#[trigger] entries[k]).0@ == path;
            if k < rest.len() {
                assert(rest[k].0@ == path);
            }
        }
        if exists|k: int| 0 <= k < rest.len() && (#[trigger] rest[k]).0@ == path {
            let k = choose|k: int| 0 <= k < rest.len() && (#[trigger] rest[k]).0@ == path;
            assert(entries[k].0@ == path);
        }
        if entries.last().0@ == path {
            assert(entries[entries.len() - 1].0@ == path);
        }
    }
}

/// Where no path occurs twice, the map holds each entry.
proof fn lemma_entry(entries: Seq<(String, Bits)>, i: int)
    requires
        distinct_paths(entries),
        0 <= i < entries.len(),
    ensures
        entries_map(entries).dom().contains(entries[i].0@),
        entries_map(entries)[entries[i].0@] == entries[i].1,
    decreases entries.len(),
{
    if i < entries.len() - 1 {
        let rest = entries.drop_last();
        assert(distinct_paths(rest)) by {
            assert forall|a: int, b: int| 0 <= a < b < rest.len() implies (#[trigger] rest[a]).0@
                != (#[trigger] rest[b]).0@ by {
                assert(entries[a].0@ != entries[b].0@);
            }
        }
        lemma_entry(rest, i);
        assert(entries[i].0@ != entries[entries.len() - 1].0@);
    }
}

/// Replacing the entry of a path stores the value there and keeps the paths
/// distinct.
proof fn lemma_replace(entries: Seq<(String, Bits)>, i: int, entry: (String, Bits))
    requires
        distinct_paths(entries),
        0 <= i < entries.len(),
        entries[i].0@ == entry.0@,
    ensures
        distinct_paths(entries.update(i, entry)),
        entries_map(entries.update(i, entry)) == entries_map(entries).insert(entry.0@, entry.1),
    decreases entries.len(),
{
    let after = entries.update(i, entry);
    assert forall|a: int, b: int| 0 <= a < b < after.len() implies (#[trigger] after[a]).0@ != (
    #[trigger] after[b]).0@ by {
        assert(entries[a].0@ != entries[b].0@);
    }
    let rest = entries.drop_last();
    if i == entries.len() - 1 {
        assert(after.drop_last() =~= rest);
        assert(entries_map(after) =~= entries_map(entries).insert(entry.0@, entry.1));
    } else {
        assert forall|a: int, b: int| 0 <= a < b < rest.len() implies (#[trigger] rest[a]).0@ != (
        #[trigger] rest[b]).0@ by {
            assert(entries[a].0@ != entries[b].0@);
        }
        lemma_replace(rest, i, entry);
        assert(after.drop_last() =~= rest.update(i, entry));
        assert(entries[i].0@ != entries[entries.len() - 1].0@);
        assert(entries_map(after) =~= entries_map(entries).insert(entry.0@, entry.1));
    }
}

/// Where no path occurs twice, the map is as large as the list.
proof fn lemma_size(entries: Seq<(String, Bits)>)
    requires
        distinct_paths(entries),
    ensures
        entries_map(entries).dom().finite(),
        entries_map(entries).len() == entries.len(),
    decreases entries.len(),
{
    if entries.len() > 0 {
        let rest = entries.drop_last();
        assert forall|a: int, b: int| 0 <= a < b < rest.len() implies (#[trigger] rest[a]).0@ != (
        #[trigger] rest[b]).0@ by {
            assert(entries[a].0@ != entries[b].0@);
        }
        lemma_size(rest);
        lemma_absent(rest, entries.last().0@);
        assert(!entries_map(rest).dom().contains(entries.last().0@)) by {
            assert forall|k: int| 0 <= k < rest.len() implies (#[trigger] rest[k]).0@
                != entries.last().0@ by {
                assert(entries[k].0@ != entries[entries.len() - 1].0@);
            }
        }
        assert(entries_map(entries).dom() =~= entries_map(rest).dom().insert(entries.last().0@));
    }
}

} // verus!
