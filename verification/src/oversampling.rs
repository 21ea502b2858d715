//! Oversampling by a cascade of halfband filters.
//!
//! Oversampling reduces aliasing from nonlinear operations: the input is upsampled,
//! processed at the higher rate, and downsampled again. Every stage of the cascade
//! doubles or halves the rate. The filters belong to the caller; which samples go
//! through which stage, in which order, and where the results go, is decided here.
use vstd::prelude::*;

use crate::bits::{Bits, ZERO};
use crate::testbench::history::filled;

verus! {

/// Oversampling factor selection. A factor of eight is not offered: filters lose
/// precision at very high sample rates.
#[derive(Clone, Copy, Debug, PartialEq, Eq, Structural)]
pub enum OversamplingFactor {
    X1,
    X2,
    X4,
}

impl Default for OversamplingFactor {
    fn default() -> (r: Self)
        ensures
            r == OversamplingFactor::X1,
    {
        OversamplingFactor::X1
    }
}

/// The numeric multiplier of a selection.
pub open spec fn multiplier(f: OversamplingFactor) -> nat {
    match f {
        OversamplingFactor::X1 => 1,
        OversamplingFactor::X2 => 2,
        OversamplingFactor::X4 => 4,
    }
}

/// The selection for a numeric factor; anything but two and four is no oversampling.
pub open spec fn selected(factor: u8) -> OversamplingFactor {
    if factor == 2 {
        OversamplingFactor::X2
    } else if factor == 4 {
        OversamplingFactor::X4
    } else {
        OversamplingFactor::X1
    }
}

/// How the selection is called.
pub open spec fn factor_name(f: OversamplingFactor) -> Seq<char> {
    match f {
        OversamplingFactor::X1 => "1x (Off)"@,
        OversamplingFactor::X2 => "2x"@,
        OversamplingFactor::X4 => "4x"@,
    }
}

impl OversamplingFactor {
    /// The numeric multiplier.
    pub fn factor(&self) -> (r: usize)
        ensures
            r == multiplier(*self),
    {
        match self {
            OversamplingFactor::X1 => 1,
            OversamplingFactor::X2 => 2,
            OversamplingFactor::X4 => 4,
        }
    }

    /// The selection for a numeric factor (1, 2, or 4).
    pub fn from_factor(factor: u8) -> (r: Self)
        ensures
            r == selected(factor),
    {
        match factor {
            2 => OversamplingFactor::X2,
            4 => OversamplingFactor::X4,
            _ => OversamplingFactor::X1,
        }
    }

    /// How the selection is called.
    pub fn name(&self) -> (r: &'static str)
        ensures
            r@ == factor_name(*self),
    {
        match self {
            OversamplingFactor::X1 => "1x (Off)",
            OversamplingFactor::X2 => "2x",
            OversamplingFactor::X4 => "4x",
        }
    }

    /// All selections, in the order in which they are offered.
    pub fn all() -> (r: Vec<Self>)
        ensures
            r@ == seq![OversamplingFactor::X1, OversamplingFactor::X2, OversamplingFactor::X4],
    {
        let r = vec![OversamplingFactor::X1, OversamplingFactor::X2, OversamplingFactor::X4];
        assert(r@ =~= seq![
            OversamplingFactor::X1,
            OversamplingFactor::X2,
            OversamplingFactor::X4,
        ]);
        r
    }
}

/// The samples of a list of pairs, one pair after the other.
pub open spec fn spread(pairs: Seq<(Bits, Bits)>) -> Seq<Bits> {
    Seq::new(
        pairs.len() * 2,
        |i: int|
            if i % 2 == 0 {
                pairs[i / 2].0
            } else {
                pairs[i / 2].1
            },
    )
}

/// A list of samples two by two; a last sample without a partner is left out.
pub open spec fn gathered(samples: Seq<Bits>) -> Seq<(Bits, Bits)> {
    Seq::new(samples.len() / 2, |i: int| (samples[i * 2], samples[i * 2 + 1]))
}

/// The samples of a list of pairs, one pair after the other: what one stage of
/// upsampling hands to the next.
pub fn spread_pairs(pairs: &Vec<(Bits, Bits)>) -> (r: Vec<Bits>)
    ensures
        r@ == spread(pairs@),
{
    let mut r: Vec<Bits> = Vec::new();
    let mut i: usize = 0;
    while i < pairs.len()
        invariant
            i <= pairs@.len(),
            r@ == spread(pairs@.take(i as int)),
        decreases pairs@.len() - i,
    {
        let ghost before = r@;
        r.push(pairs[i].0);
        r.push(pairs[i].1);
        assert(r@ =~= spread(pairs@.take(i + 1))) by {
            assert forall|k: int| 0 <= k < r@.len() implies r@[k] == spread(
                pairs@.take(i + 1),
            )[k] by {
                if k < before.len() {
                    assert(before[k] == spread(pairs@.take(i as int))[k]);
                    assert(k / 2 < i);
                }
            }
        }
        i = i + 1;
    }
    assert(pairs@.take(i as int) =~= pairs@);
    r
}

/// A list of samples two by two, up to `pairs` pairs: what a stage of downsampling
/// gets.
fn gather_pairs(samples: &Vec<Bits>, pairs: usize) -> (r: Vec<(Bits, Bits)>)
    requires
        pairs * 2 <= samples@.len(),
    ensures
        r@ == gathered(samples@.take(pairs * 2)),
{
    let mut r: Vec<(Bits, Bits)> = Vec::new();
    let mut i: usize = 0;
    let len: usize = samples.len();
    while i < pairs
        invariant
            i <= pairs,
            pairs * 2 <= len,
            len == samples@.len(),
            r@ == gathered(samples@.take(i * 2)),
        decreases pairs - i,
    {
        r.push((samples[i * 2], samples[i * 2 + 1]));
        assert(r@ =~= gathered(samples@.take((i + 1) * 2)));
        i = i + 1;
    }
    r
}

/// A list whose beginning is replaced.
pub open spec fn with_front(list: Seq<Bits>, front: Seq<Bits>) -> Seq<Bits> {
    front + list.skip(front.len() as int)
}

/// Replaces the beginning of a list.
fn write_front(list: &mut Vec<Bits>, front: &Vec<Bits>)
    requires
        front@.len() <= old(list)@.len(),
    ensures
        final(list)@ == with_front(old(list)@, front@),
{
    let ghost before = list@;
    let mut i: usize = 0;
    while i < front.len()
        invariant
            i <= front@.len() <= list@.len(),
            list@.len() == before.len(),
            forall|k: int| 0 <= k < i ==> list@[k] == front@[k],
            forall|k: int| i <= k < list@.len() ==> list@[k] == before[k],
        decreases front@.len() - i,
    {
        list.set(i, front[i]);
        i = i + 1;
    }
    assert(list@ =~= with_front(before, front@));
}

/// How many pairs the last stage of upsampling gives for `n` samples: none where
/// nothing is upsampled.
pub open spec fn pairs_up(factor: OversamplingFactor, n: nat) -> nat {
    match factor {
        OversamplingFactor::X1 => 0,
        OversamplingFactor::X2 => n,
        OversamplingFactor::X4 => n * 2,
    }
}

/// The upsampled signal: the input itself, or what the last stage gave.
pub open spec fn upsampled(
    factor: OversamplingFactor,
    input: Seq<Bits>,
    last_stage: Seq<(Bits, Bits)>,
) -> Seq<Bits> {
    if factor == OversamplingFactor::X1 {
        input
    } else {
        spread(last_stage)
    }
}

/// Writes the upsampled signal to the beginning of `output`. `last_stage` is what the
/// last stage gave: for a factor of two, the pairs of the first filter for the
/// input; for four, the pairs of the second filter for the first one's pairs spread
/// out. Returns the number of samples written.
pub fn upsample(
    factor: OversamplingFactor,
    input: &Vec<Bits>,
    last_stage: &Vec<(Bits, Bits)>,
    output: &mut Vec<Bits>,
) -> (n: usize)
    requires
        input@.len() * multiplier(factor) <= old(output)@.len(),
        last_stage@.len() == pairs_up(factor, input@.len()),
    ensures
        n == input@.len() * multiplier(factor),
        final(output)@ == with_front(old(output)@, upsampled(factor, input@, last_stage@)),
{
    match factor {
        OversamplingFactor::X1 => {
            write_front(output, input);
            input.len()
        },
        OversamplingFactor::X2 => {
            let samples = spread_pairs(last_stage);
            write_front(output, &samples);
            samples.len()
        },
        OversamplingFactor::X4 => {
            let samples = spread_pairs(last_stage);
            write_front(output, &samples);
            samples.len()
        },
    }
}

/// The pairs that the first stage of downsampling gets: the input two by two, but
/// for a rest that makes no whole output sample; none where nothing is downsampled.
pub open spec fn first_pairs(factor: OversamplingFactor, input: Seq<Bits>) -> Seq<(Bits, Bits)> {
    match factor {
        OversamplingFactor::X1 => Seq::empty(),
        OversamplingFactor::X2 => gathered(input.take((input.len() / 2 * 2) as int)),
        OversamplingFactor::X4 => gathered(input.take((input.len() / 4 * 4) as int)),
    }
}

/// The pairs that the first stage of downsampling gets. For a factor of four these
/// go through the second filter.
pub fn downsample_pairs(factor: OversamplingFactor, input: &Vec<Bits>) -> (r: Vec<(Bits, Bits)>)
    ensures
        r@ == first_pairs(factor, input@),
{
    match factor {
        OversamplingFactor::X1 => Vec::new(),
        OversamplingFactor::X2 => gather_pairs(input, input.len() / 2),
        OversamplingFactor::X4 => gather_pairs(input, input.len() / 4 * 2),
    }
}

/// The pairs that the last stage of downsampling by four gets: what the stage
/// before it gave, two by two.
pub fn last_pairs(halved: &Vec<Bits>) -> (r: Vec<(Bits, Bits)>)
    ensures
        r@ == gathered(halved@),
{
    let r = gather_pairs(halved, halved.len() / 2);
    assert(r@ =~= gathered(halved@));
    r
}

/// Writes the downsampled signal to the beginning of `output`: the input itself, or
/// what the last stage gave. Returns the number of samples written.
pub fn downsample(
    factor: OversamplingFactor,
    input: &Vec<Bits>,
    last_stage: &Vec<Bits>,
    output: &mut Vec<Bits>,
) -> (n: usize)
    requires
        input@.len() / multiplier(factor) <= old(output)@.len(),
        factor != OversamplingFactor::X1 ==> last_stage@.len() == input@.len() / multiplier(factor),
    ensures
        n == input@.len() / multiplier(factor),
        final(output)@ == with_front(
            old(output)@,
            if factor == OversamplingFactor::X1 {
                input@
            } else {
                last_stage@
            },
        ),
{
    match factor {
        OversamplingFactor::X1 => {
            write_front(output, input);
            input.len()
        },
        OversamplingFactor::X2 => {
            write_front(output, last_stage);
            input.len() / 2
        },
        OversamplingFactor::X4 => {
            write_front(output, last_stage);
            input.len() / 4
        },
    }
}

/// Buffers for a stereo signal at the oversampled rate.
#[derive(Debug)]
pub struct StereoOversampler {
    /// Oversampled buffer for the left channel.
    pub buffer_left: Vec<Bits>,
    /// Oversampled buffer for the right channel.
    pub buffer_right: Vec<Bits>,
    /// Maximum supported buffer size at the plain rate.
    pub max_block_size: usize,
}

impl StereoOversampler {
    /// Both buffers hold the largest block at the highest rate.
    pub open spec fn well_formed(self) -> bool {
        &&& self.buffer_left@.len() == self.max_block_size * 4
        &&& self.buffer_right@.len() == self.max_block_size * 4
    }

    /// Silent buffers for blocks of up to `max_block_size` samples per channel at
    /// the plain rate.
    pub fn new(max_block_size: usize) -> (r: Self)
        requires
            max_block_size * 4 <= usize::MAX,
        ensures
            r.well_formed(),
            r.max_block_size == max_block_size,
            r.buffer_left@ == Seq::new((max_block_size * 4) as nat, |i: int| ZERO),
            r.buffer_right@ == Seq::new((max_block_size * 4) as nat, |i: int| ZERO),
    {
        let size: usize = max_block_size * 4;
        StereoOversampler {
            buffer_left: filled(ZERO, size),
            buffer_right: filled(ZERO, size),
            max_block_size,
        }
    }

    /// Makes room for blocks of `block_size` samples. What the buffers held stays,
    /// with silence behind it.
    pub fn ensure_buffer_size(&mut self, block_size: usize)
        requires
            old(self).well_formed(),
            block_size * 4 <= usize::MAX,
        ensures
            final(self).well_formed(),
            final(self).max_block_size == (if block_size > old(self).max_block_size {
                block_size
            } else {
                old(self).max_block_size
            }),
            block_size <= old(self).max_block_size ==> *final(self) == *old(self),
            final(self).buffer_left@ == grown(
                old(self).buffer_left@,
                final(self).max_block_size * 4,
            ),
            final(self).buffer_right@ == grown(
                old(self).buffer_right@,
                final(self).max_block_size * 4,
            ),
    {
        if block_size > self.max_block_size {
            self.max_block_size = block_size;
            let size: usize = block_size * 4;
            self.buffer_left.resize(size, ZERO);
            self.buffer_right.resize(size, ZERO);
            proof {
                lemma_grown(old(self).buffer_left@, self.buffer_left@);
                lemma_grown(old(self).buffer_right@, self.buffer_right@);
            }
        } else {
            assert(self.buffer_left@ =~= grown(self.buffer_left@, self.max_block_size * 4));
            assert(self.buffer_right@ =~= grown(self.buffer_right@, self.max_block_size * 4));
        }
    }

    /// The parts of both buffers that a block of `input_size` samples takes at the
    /// given factor, for the caller to change.
    pub fn get_oversampled_buffers(&mut self, factor: OversamplingFactor, input_size: usize) -> (r: (
        &mut [Bits],
        &mut [Bits],
    ))
        requires
            input_size * multiplier(factor) <= old(self).buffer_left@.len(),
            input_size * multiplier(factor) <= old(self).buffer_right@.len(),
        ensures
            r.0@ == old(self).buffer_left@.take(input_size * multiplier(factor)),
            r.1@ == old(self).buffer_right@.take(input_size * multiplier(factor)),
            final(self).buffer_left@ == final(r.0)@ + old(self).buffer_left@.skip(
                input_size * multiplier(factor),
            ),
            final(self).buffer_right@ == final(r.1)@ + old(self).buffer_right@.skip(
                input_size * multiplier(factor),
            ),
            final(self).max_block_size == old(self).max_block_size,
    {
        assert(input_size * multiplier(factor) <= self.buffer_left.len());
        let size: usize = input_size * factor.factor();
        let (left, _) = self.buffer_left.as_mut_slice().split_at_mut(size);
        let (right, _) = self.buffer_right.as_mut_slice().split_at_mut(size);
        (left, right)
    }
}

/// A buffer grown to a length with silence.
pub open spec fn grown(buffer: Seq<Bits>, len: int) -> Seq<Bits> {
    Seq::new(
        len as nat,
        |i: int|
            if i < buffer.len() {
                buffer[i]
            } else {
                ZERO
            },
    )
}

/// A buffer that kept its beginning and is silent behind it is a grown one.
proof fn lemma_grown(before: Seq<Bits>, after: Seq<Bits>)
    requires
        before.len() <= after.len(),
        after.take(before.len() as int) == before,
        forall|i: int| before.len() <= i < after.len() ==> after[i] == ZERO,
    ensures
        after == grown(before, after.len() as int),
{
    assert forall|i: int| 0 <= i < before.len() implies after[i] == before[i] by {
        assert(after.take(before.len() as int)[i] == after[i]);
    }
    assert(after =~= grown(before, after.len() as int));
}

/// Every selection comes back from its own multiplier.
pub proof fn law_selection_comes_back(f: OversamplingFactor)
    ensures
        selected(multiplier(f) as u8) == f,
{
}

/// The multiplier of a selection is one of 1, 2 and 4, whatever factor it came from.
pub proof fn law_factors_are_known(factor: u8)
    ensures
        multiplier(selected(factor)) == (if factor == 2 || factor == 4 {
            factor as nat
        } else {
            1
        }),
{
}

/// Taking pairs together undoes spreading them out, and the other way round for an
/// even number of samples.
pub proof fn law_gathering_undoes_spreading(pairs: Seq<(Bits, Bits)>, samples: Seq<Bits>)
    requires
        samples.len() % 2 == 0,
    ensures
        gathered(spread(pairs)) == pairs,
        spread(gathered(samples)) == samples,
{
    assert(gathered(spread(pairs)) =~= pairs) by {
        assert forall|i: int| 0 <= i < pairs.len() implies gathered(spread(pairs))[i]
            == pairs[i] by {
            assert((i * 2) / 2 == i && (i * 2) % 2 == 0);
            assert((i * 2 + 1) / 2 == i && (i * 2 + 1) % 2 == 1);
        }
    }
    assert(spread(gathered(samples)) =~= samples);
}

/// Pairs in a row, spread out, are the spread pairs in a row.
proof fn lemma_spread_joins(a: Seq<(Bits, Bits)>, b: Seq<(Bits, Bits)>)
    ensures
        spread(a + b) == spread(a) + spread(b),
{
    assert forall|i: int| 0 <= i < spread(a + b).len() implies spread(a + b)[i] == (spread(a)
        + spread(b))[i] by {
        if i >= a.len() * 2 {
            let k = i - a.len() * 2;
            assert(k / 2 + a.len() == i / 2 && k % 2 == i % 2);
        }
    }
    assert(spread(a + b) =~= spread(a) + spread(b));
}

/// Block boundaries do not show: the samples written for two blocks, one behind the
/// other, are those written for the two as one block.
pub proof fn law_upsampled_blocks_join(
    factor: OversamplingFactor,
    a: Seq<Bits>,
    b: Seq<Bits>,
    last_a: Seq<(Bits, Bits)>,
    last_b: Seq<(Bits, Bits)>,
)
    ensures
        upsampled(factor, a + b, last_a + last_b) == upsampled(factor, a, last_a) + upsampled(
            factor,
            b,
            last_b,
        ),
{
    lemma_spread_joins(last_a, last_b);
}

/// What a filter gives for samples, one after the other, and the state in which it is
/// then. `filter` is one step: from the state before and a sample to the state after
/// and a pair.
pub open spec fn passed<S>(
    filter: spec_fn(S, Bits) -> (S, (Bits, Bits)),
    state: S,
    samples: Seq<Bits>,
) -> (S, Seq<(Bits, Bits)>)
    decreases samples.len(),
{
    if samples.len() == 0 {
        (state, Seq::empty())
    } else {
        let before = passed(filter, state, samples.drop_last());
        let step = filter(before.0, samples.last());
        (step.0, before.1.push(step.1))
    }
}

/// A filter goes on where it was.
proof fn lemma_passed_joins<S>(
    filter: spec_fn(S, Bits) -> (S, (Bits, Bits)),
    state: S,
    a: Seq<Bits>,
    b: Seq<Bits>,
)
    ensures
        passed(filter, state, a + b).0 == passed(filter, passed(filter, state, a).0, b).0,
        passed(filter, state, a + b).1 == passed(filter, state, a).1 + passed(
            filter,
            passed(filter, state, a).0,
            b,
        ).1,
    decreases b.len(),
{
    if b.len() == 0 {
        assert(a + b =~= a);
        assert(passed(filter, state, a).1 + Seq::empty() =~= passed(filter, state, a).1);
    } else {
        lemma_passed_joins(filter, state, a, b.drop_last());
        assert((a + b).drop_last() =~= a + b.drop_last());
        assert((a + b).last() == b.last());
        assert(passed(filter, state, a + b).1 =~= passed(filter, state, a).1 + passed(
            filter,
            passed(filter, state, a).0,
            b,
        ).1);
    }
}

/// The filters of the cascade after upsampling samples, and what the last stage gave:
/// for a factor of two, the first filter's pairs; for four, the second filter's pairs
/// for the first one's pairs spread out.
pub open spec fn cascaded<S>(
    factor: OversamplingFactor,
    filter: spec_fn(S, Bits) -> (S, (Bits, Bits)),
    states: (S, S),
    samples: Seq<Bits>,
) -> ((S, S), Seq<(Bits, Bits)>) {
    let first = passed(filter, states.0, samples);
    match factor {
        OversamplingFactor::X1 => (states, Seq::empty()),
        OversamplingFactor::X2 => ((first.0, states.1), first.1),
        OversamplingFactor::X4 => {
            let second = passed(filter, states.1, spread(first.1));
            ((first.0, second.0), second.1)
        },
    }
}

/// The cascade goes on where it was: whatever the filter does, upsampling two blocks
/// one after the other leaves the filters in the same states as upsampling them as one
/// block, and gives the same samples.
pub proof fn law_cascade_goes_on<S>(
    factor: OversamplingFactor,
    filter: spec_fn(S, Bits) -> (S, (Bits, Bits)),
    states: (S, S),
    a: Seq<Bits>,
    b: Seq<Bits>,
)
    ensures
        ({
            let one = cascaded(factor, filter, states, a);
            let two = cascaded(factor, filter, one.0, b);
            let whole = cascaded(factor, filter, states, a + b);
            &&& whole.0 == two.0
            &&& upsampled(factor, a + b, whole.1) == upsampled(factor, a, one.1) + upsampled(
                factor,
                b,
                two.1,
            )
        }),
{
    let one = cascaded(factor, filter, states, a);
    let two = cascaded(factor, filter, one.0, b);
    let first = passed(filter, states.0, a);
    let next = passed(filter, first.0, b);
    lemma_passed_joins(filter, states.0, a, b);
    lemma_spread_joins(first.1, next.1);
    lemma_passed_joins(filter, states.1, spread(first.1), spread(next.1));
    law_upsampled_blocks_join(factor, a, b, one.1, two.1);
}

/// The upsampled signal has as many samples per input sample as the factor says, and
/// downsampling as many samples gives one per input sample again.
pub proof fn law_rates_match(
    factor: OversamplingFactor,
    input: Seq<Bits>,
    last_stage: Seq<(Bits, Bits)>,
)
    requires
        last_stage.len() == pairs_up(factor, input.len()),
    ensures
        upsampled(factor, input, last_stage).len() == input.len() * multiplier(factor),
        upsampled(factor, input, last_stage).len() / multiplier(factor) == input.len(),
{
    let n = input.len();
    let m = multiplier(factor);
    assert(m == 1 || m == 2 || m == 4);
    assert(m == 1 ==> n * m == n) by (nonlinear_arith);
    assert(m == 2 ==> n * m == n * 2) by (nonlinear_arith);
    assert(m == 4 ==> n * m == n * 4) by (nonlinear_arith);
    assert(n / 1 == n && n * 2 / 2 == n && n * 4 / 4 == n);
    assert(upsampled(factor, input, last_stage).len() == n * m);
}

/// The selections: X1 for every factor but 2 and 4, which have their own; they multiply by
/// 1, 2 and 4 and are called accordingly.
pub proof fn law_selections_are_what_they_are_called(factor: u8)
    ensures
        selected(factor) == OversamplingFactor::X2 <==> factor == 2,
        selected(factor) == OversamplingFactor::X4 <==> factor == 4,
        selected(factor) == OversamplingFactor::X1 <==> factor != 2 && factor != 4,
        multiplier(OversamplingFactor::X1) == 1,
        multiplier(OversamplingFactor::X2) == 2,
        multiplier(OversamplingFactor::X4) == 4,
        factor_name(OversamplingFactor::X1) == "1x (Off)"@,
        factor_name(OversamplingFactor::X2) == "2x"@,
        factor_name(OversamplingFactor::X4) == "4x"@,
{
}

/// Pairs are spread out one after the other: the `i`-th pair gives the samples at places
/// `2 i` and `2 i + 1`. Samples are gathered the same way, a last one without a partner
/// left out.
pub proof fn law_pairs_stand_side_by_side(
    pairs: Seq<(Bits, Bits)>,
    samples: Seq<Bits>,
    i: int,
)
    ensures
        spread(pairs).len() == pairs.len() * 2,
        0 <= i < pairs.len() ==> spread(pairs)[2 * i] == pairs[i].0 && spread(pairs)[2 * i + 1]
            == pairs[i].1,
        gathered(samples).len() == samples.len() / 2,
        0 <= i < samples.len() / 2 ==> gathered(samples)[i] == (samples[2 * i], samples[2 * i + 1]),
{
    if 0 <= i < pairs.len() {
        assert((2 * i) / 2 == i && (2 * i) % 2 == 0);
        assert((2 * i + 1) / 2 == i && (2 * i + 1) % 2 == 1);
    }
}

/// What goes through the stages: without oversampling the input itself is written; else
/// the pairs of the last stage spread out, of which there is one per input sample for a
/// factor of two and two for four. Downsampling pairs up the input, but for a rest that
/// makes no whole output sample. What is written replaces the beginning of the output and
/// nothing behind it; a buffer that grows keeps what it held, with silence behind it.
pub proof fn law_stages_take_what_they_get(
    factor: OversamplingFactor,
    input: Seq<Bits>,
    last_stage: Seq<(Bits, Bits)>,
    output: Seq<Bits>,
    n: nat,
    i: int,
)
    ensures
        factor == OversamplingFactor::X1 ==> upsampled(factor, input, last_stage) == input,
        factor != OversamplingFactor::X1 ==> upsampled(factor, input, last_stage) == spread(
            last_stage,
        ),
        pairs_up(OversamplingFactor::X1, n) == 0,
        pairs_up(OversamplingFactor::X2, n) == n,
        pairs_up(OversamplingFactor::X4, n) == n + n,
        first_pairs(OversamplingFactor::X1, input).len() == 0,
        first_pairs(OversamplingFactor::X2, input).len() == input.len() / 2,
        first_pairs(OversamplingFactor::X4, input).len() == input.len() / 4 * 2,
        factor != OversamplingFactor::X1 && 0 <= i < first_pairs(factor, input).len()
            ==> first_pairs(factor, input)[i] == (input[2 * i], input[2 * i + 1]),
        input.len() <= output.len() ==> with_front(output, input).len() == output.len(),
        input.len() <= output.len() && 0 <= i < output.len() ==> with_front(output, input)[i] == (
        if i < input.len() {
            input[i]
        } else {
            output[i]
        }),
        grown(input, n as int).len() == n,
        0 <= i < n ==> grown(input, n as int)[i] == (if i < input.len() {
            input[i]
        } else {
            0
        }),
{
}

/// Both buffers of a well-formed oversampler hold the largest block four times.
pub proof fn law_buffers_hold_four_blocks(s: StereoOversampler)
    ensures
        s.well_formed() <==> s.buffer_left@.len() == s.max_block_size * 4 && s.buffer_right@.len()
            == s.max_block_size * 4,
{
}

} // verus!
