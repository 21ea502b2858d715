//! Keeping the newest part of a stream.
use vstd::prelude::*;

use crate::bits::Bits;

verus! {

/// The last `n` items of a sequence; all of it where it has no more.
pub open spec fn newest<T>(s: Seq<T>, n: nat) -> Seq<T> {
    if s.len() > n {
        s.skip(s.len() - n)
    } else {
        s
    }
}

/// The `n` items from `from` on, as far as the sequence has them.
pub open spec fn window<T>(s: Seq<T>, from: nat, n: nat) -> Seq<T> {
    if from >= s.len() {
        Seq::empty()
    } else if from + n < s.len() {
        s.subrange(from as int, (from + n) as int)
    } else {
        s.skip(from as int)
    }
}

/// Adds `samples` behind what `kept` holds, and drops the oldest where that is more
/// than `limit`.
pub fn extend_newest(kept: &mut Vec<Bits>, samples: &Vec<Bits>, limit: usize)
    ensures
        final(kept)@ == newest(old(kept)@ + samples@, limit as nat),
{
    kept.extend_from_slice(samples.as_slice());
    assert(kept@ =~= old(kept)@ + samples@);
    if kept.len() > limit {
        let first = kept.len() - limit;
        let newer = kept.split_off(first);
        *kept = newer;
        assert(kept@ =~= newest(old(kept)@ + samples@, limit as nat));
    }
}

/// Adds a frame behind the kept frames, and drops the oldest where there are more
/// than `limit`.
pub fn push_newest(kept: &mut Vec<Vec<Bits>>, frame: Vec<Bits>, limit: usize)
    ensures
        final(kept)@ == newest(old(kept)@.push(frame), limit as nat),
{
    kept.push(frame);
    let ghost all = kept@;
    if kept.len() > limit {
        let first = kept.len() - limit;
        let newer = kept.split_off(first);
        *kept = newer;
        assert(kept@ =~= newest(all, limit as nat));
    }
}

/// A copy of the `n` items from `from` on, as far as there are any.
pub fn copy_window(s: &Vec<Bits>, from: usize, n: usize) -> (r: Vec<Bits>)
    ensures
        r@ == window(s@, from as nat, n as nat),
{
    let mut r: Vec<Bits> = Vec::new();
    if from >= s.len() {
        return r;
    }
    let end: usize = if n < s.len() - from {
        from + n
    } else {
        s.len()
    };
    let mut i: usize = from;
    while i < end
        invariant
            from <= i <= end <= s@.len(),
            r@ == s@.subrange(from as int, i as int),
        decreases end - i,
    {
        r.push(s[i]);
        assert(r@ =~= s@.subrange(from as int, i + 1));
        i = i + 1;
    }
    assert(r@ =~= window(s@, from as nat, n as nat));
    r
}

/// A list with `n` times the same number.
pub fn filled(value: Bits, n: usize) -> (r: Vec<Bits>)
    ensures
        r@ == Seq::new(n as nat, |i: int| value),
{
    let mut r: Vec<Bits> = Vec::new();
    let mut i: usize = 0;
    while i < n
        invariant
            i <= n,
            r@ == Seq::new(i as nat, |k: int| value),
        decreases n - i,
    {
        r.push(value);
        assert(r@ =~= Seq::new((i + 1) as nat, |k: int| value));
        i = i + 1;
    }
    r
}

/// Keeping the newest part after every addition keeps the newest part of the whole
/// stream: what was dropped on the way would have been dropped anyway.
pub proof fn law_newest_of_a_stream<T>(before: Seq<T>, added: Seq<T>, n: nat)
    ensures
        newest(newest(before, n) + added, n) == newest(before + added, n),
{
    assert(newest(newest(before, n) + added, n) =~= newest(before + added, n));
}

/// No more than the limit is kept, and what is kept is the end of the stream.
pub proof fn law_newest_is_bounded<T>(s: Seq<T>, n: nat)
    ensures
        newest(s, n).len() <= n,
        newest(s, n).len() == n || newest(s, n) == s,
        newest(s, n).is_suffix_of(s),
{
}

/// The newest part of a sequence is its end, as long as the limit allows; a window is the
/// stretch from its start on, as long as was asked for and the sequence goes.
pub proof fn law_newest_and_window_are_stretches<T>(s: Seq<T>, from: nat, n: nat, i: int)
    ensures
        newest(s, n).len() == (if s.len() < n {
            s.len()
        } else {
            n
        }),
        0 <= i < newest(s, n).len() ==> newest(s, n)[i] == s[s.len() - newest(s, n).len() + i],
        window(s, from, n).len() == (if from >= s.len() {
            0
        } else if from + n < s.len() {
            n as int
        } else {
            s.len() - from
        }),
        0 <= i < window(s, from, n).len() ==> window(s, from, n)[i] == s[from + i],
{
}

} // verus!
