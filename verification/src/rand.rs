use rand_core::RngCore;
use rand_core::SeedableRng;
use rand_pcg::Pcg64Mcg;
use vstd::prelude::*;

verus! {

/// The sum of the first `n` weights.
pub open spec fn weight_sum(weights: Seq<u64>, n: int) -> int
    decreases n,
{
    if n <= 0 {
        0
    } else {
        weight_sum(weights, n - 1) + weights[n - 1]
    }
}

/// The sum of all weights.
pub open spec fn total_weight(weights: Seq<u64>) -> int {
    weight_sum(weights, weights.len() as int)
}

/// Whether `i` is the first index at which the running sum of the weights,
/// each multiplied by `scale`, exceeds `x`.
pub open spec fn is_weighted_index(weights: Seq<u64>, scale: int, x: int, i: int) -> bool {
    &&& 0 <= i < weights.len()
    &&& weight_sum(weights, i) * scale <= x
    &&& x < weight_sum(weights, i + 1) * scale
}

/// The first index at which the running sum of the weights, each multiplied
/// by `scale`, exceeds `x`.
pub open spec fn weighted_index(weights: Seq<u64>, scale: int, x: int) -> int {
    choose|i: int| is_weighted_index(weights, scale, x, i)
}

/// The running sum of weights never falls.
pub proof fn lemma_weight_sum_monotonic(weights: Seq<u64>, i: int, j: int)
    requires
        0 <= i <= j,
    ensures
        0 <= weight_sum(weights, i) <= weight_sum(weights, j),
    decreases j,
{
    if i < j {
        lemma_weight_sum_monotonic(weights, i, j - 1);
    } else if i > 0 {
        lemma_weight_sum_monotonic(weights, i - 1, i - 1);
    }
}

/// At most one index is the first at which the scaled running sum exceeds
/// `x`: the index depends on the weights, the scale and `x` alone.
pub proof fn lemma_weighted_index_unique(weights: Seq<u64>, scale: int, x: int, i: int, j: int)
    requires
        scale > 0,
        is_weighted_index(weights, scale, x, i),
        is_weighted_index(weights, scale, x, j),
    ensures
        i == j,
{
    if i < j {
        lemma_weight_sum_monotonic(weights, i + 1, j);
        assert(weight_sum(weights, i + 1) * scale <= weight_sum(weights, j) * scale)
            by (nonlinear_arith)
            requires
                weight_sum(weights, i + 1) <= weight_sum(weights, j),
                scale > 0,
        ;
    } else if j < i {
        lemma_weight_sum_monotonic(weights, j + 1, i);
        assert(weight_sum(weights, j + 1) * scale <= weight_sum(weights, i) * scale)
            by (nonlinear_arith)
            requires
                weight_sum(weights, j + 1) <= weight_sum(weights, i),
                scale > 0,
        ;
    }
}

/// The sum of the weights, or `None` where it does not fit in 64 bits.
pub fn checked_total(weight: &[u64]) -> (res: Option<u64>)
    ensures
        match res {
            Some(sum) => sum == total_weight(weight@),
            None => total_weight(weight@) > u64::MAX,
        },
{
    let mut acc: u64 = 0;
    let mut i: usize = 0;
    while i < weight.len()
        invariant
            i <= weight.len(),
            acc == weight_sum(weight@, i as int),
        decreases weight.len() - i,
    {
        if weight[i] > u64::MAX - acc {
            proof {
                lemma_weight_sum_monotonic(weight@, i as int + 1, weight@.len() as int);
            }
            return None;
        }
        acc = acc + weight[i];
        i += 1;
    }
    Some(acc)
}

/// The sum of the weights, where it fits in 64 bits.
fn sum_of(weight: &[u64]) -> (sum: u64)
    requires
        total_weight(weight@) <= u64::MAX,
    ensures
        sum == total_weight(weight@),
{
    let mut acc: u64 = 0;
    let mut i: usize = 0;
    while i < weight.len()
        invariant
            i <= weight.len(),
            acc == weight_sum(weight@, i as int),
            total_weight(weight@) <= u64::MAX,
        decreases weight.len() - i,
    {
        proof {
            lemma_weight_sum_monotonic(weight@, i as int + 1, weight@.len() as int);
        }
        acc = acc + weight[i];
        i += 1;
    }
    acc
}

/// The index that the scaled running sums assign to `x`: the first index
/// at which the running sum of the weights, multiplied by `scale`, exceeds `x`.
fn scan_index(x: u64, scale: u64, weight: &[u64]) -> (index: usize)
    requires
        scale > 0,
        total_weight(weight@) * scale <= u64::MAX,
        x < total_weight(weight@) * scale,
    ensures
        is_weighted_index(weight@, scale as int, x as int, index as int),
        index == weighted_index(weight@, scale as int, x as int),
{
    let mut acc: u64 = 0;
    let mut i: usize = 0;
    while i < weight.len()
        invariant
            i <= weight.len(),
            scale > 0,
            acc == weight_sum(weight@, i as int),
            acc * scale <= x,
            total_weight(weight@) * scale <= u64::MAX,
            x < total_weight(weight@) * scale,
        decreases weight.len() - i,
    {
        proof {
            lemma_weight_sum_monotonic(weight@, i as int + 1, weight@.len() as int);
            assert(weight_sum(weight@, i as int + 1) * scale <= total_weight(weight@) * scale)
                by (nonlinear_arith)
                requires
                    0 <= weight_sum(weight@, i as int + 1) <= total_weight(weight@),
                    scale > 0,
            ;
            assert(weight_sum(weight@, i as int + 1) <= weight_sum(weight@, i as int + 1) * scale)
                by (nonlinear_arith)
                requires
                    0 <= weight_sum(weight@, i as int + 1),
                    scale > 0,
            ;
        }
        acc = acc + weight[i];
        if x < acc * scale {
            proof {
                let found = i as int;
                assert(is_weighted_index(weight@, scale as int, x as int, found));
                let chosen = weighted_index(weight@, scale as int, x as int);
                lemma_weighted_index_unique(weight@, scale as int, x as int, found, chosen);
            }
            return i;
        }
        i += 1;
    }
    proof {
        assert(false);
    }
    0
}

/// Chooses a proposer by weight: with `x` the remainder of `seed` by the
/// sum of the weights, the first index at which the running sum exceeds `x`.
pub fn get_index(seed: u64, weight: &[u64]) -> (index: usize)
    requires
        0 < total_weight(weight@) <= u64::MAX,
    ensures
        is_weighted_index(weight@, 1, seed as int % total_weight(weight@), index as int),
        index == weighted_index(weight@, 1, seed as int % total_weight(weight@)),
{
    let sum = sum_of(weight);
    let x = seed % sum;
    scan_index(x, 1, weight)
}

/// The 128 bits of state that a generator holds.
pub uninterp spec fn pcg_state(rng: Pcg64Mcg) -> u128;

/// The state of a generator that has just been seeded with `seed`.
pub uninterp spec fn pcg_seeded(seed: u64) -> u128;

/// What one draw makes of a generator's state: the state after it, and
/// the 64 bits drawn.
pub uninterp spec fn pcg_next(state: u128) -> (u128, u64);

/// `rand_pcg::Pcg64Mcg`: a generator of pseudo-random numbers. What it
/// holds is known through `pcg_state` alone.
#[verifier::external_type_specification]
#[verifier::external_body]
pub struct ExPcg64Mcg(Pcg64Mcg);

/// `Pcg64Mcg::seed_from_u64`: the generator's state is a function of the
/// seed alone, the same on every machine.
#[verifier::external_body]
fn pcg_from_seed(seed: u64) -> (rng: Pcg64Mcg)
    ensures
        pcg_state(rng) == pcg_seeded(seed),
{
    Pcg64Mcg::seed_from_u64(seed)
}

/// `Pcg64Mcg::next_u64`: the bits drawn and the state left behind are a
/// function of the state before the draw alone.
#[verifier::external_body]
fn pcg_next_u64(rng: &mut Pcg64Mcg) -> (drawn: u64)
    ensures
        (pcg_state(*final(rng)), drawn) == pcg_next(pcg_state(*old(rng))),
{
    rng.next_u64()
}

/// The whole part of `u64::MAX` over the sum of the weights: the width of
/// the share of the samples that one unit of weight gets.
pub open spec fn sample_scale(weights: Seq<u64>) -> int {
    (u64::MAX as int) / total_weight(weights)
}

/// The first of the next `tries` draws from `state` that is below `bound`,
/// if there is one.
pub open spec fn accepted_sample(state: u128, bound: int, tries: nat) -> Option<u64>
    decreases tries,
{
    if tries == 0 {
        None
    } else {
        let (after, drawn) = pcg_next(state);
        if drawn < bound {
            Some(drawn)
        } else {
            accepted_sample(after, bound, (tries - 1) as nat)
        }
    }
}

/// The number of draws after which a sample is no longer looked for.
pub const MAX_DRAWS: u64 = 0xffff_ffff_ffff_ffff;

/// The index that a sample falls on when the range below
/// `sum * (u64::MAX / sum)` is divided among the weights in proportion:
/// the first index at which the running sum, multiplied by
/// `u64::MAX / sum`, exceeds the sample.
pub fn get_index_of_sample(sample: u64, weight: &[u64]) -> (index: usize)
    requires
        0 < total_weight(weight@) <= u64::MAX,
        sample < total_weight(weight@) * sample_scale(weight@),
    ensures
        is_weighted_index(weight@, sample_scale(weight@), sample as int, index as int),
        index == weighted_index(weight@, sample_scale(weight@), sample as int),
{
    let sum = sum_of(weight);
    let scale = u64::MAX / sum;
    proof {
        lemma_scale_fits(sum);
    }
    scan_index(sample, scale, weight)
}

/// A positive sum times the whole part of `u64::MAX` over it stays within
/// 64 bits, and that whole part is positive.
pub proof fn lemma_scale_fits(sum: u64)
    requires
        sum > 0,
    ensures
        (u64::MAX as int) / (sum as int) >= 1,
        sum * ((u64::MAX as int) / (sum as int)) <= u64::MAX,
{
    let scale = u64::MAX as int / sum as int;
    assert(scale >= 1 && sum * scale <= u64::MAX) by (nonlinear_arith)
        requires
            0 < sum <= u64::MAX,
            scale == u64::MAX as int / sum as int,
    ;
}

/// The proposer that a seed chooses at random by weight: the index of the
/// first accepted sample, or 0 where none of `MAX_DRAWS` draws is accepted.
pub open spec fn random_index(seed: u64, weights: Seq<u64>) -> int {
    let scale = sample_scale(weights);
    match accepted_sample(pcg_seeded(seed), total_weight(weights) * scale, MAX_DRAWS as nat) {
        Some(sample) => weighted_index(weights, scale, sample as int),
        None => 0,
    }
}

/// Chooses a proposer at random by weight, the same on every node: a
/// generator seeded with `seed` is drawn from until a sample falls below
/// `sum * (u64::MAX / sum)`, and the sample is mapped to an index as
/// `get_index_of_sample` does.
pub fn get_index_rand(seed: u64, weight: &[u64]) -> (index: usize)
    requires
        0 < total_weight(weight@) <= u64::MAX,
    ensures
        index == random_index(seed, weight@),
        index < weight@.len(),
{
    let sum = sum_of(weight);
    let scale = u64::MAX / sum;
    proof {
        lemma_scale_fits(sum);
    }
    let bound = sum * scale;
    let mut rng = pcg_from_seed(seed);
    let mut left: u64 = MAX_DRAWS;
    while left > 0
        invariant
            accepted_sample(pcg_seeded(seed), bound as int, MAX_DRAWS as nat) == accepted_sample(
                pcg_state(rng),
                bound as int,
                left as nat,
            ),
            0 < total_weight(weight@) <= u64::MAX,
            sum == total_weight(weight@),
            scale == sample_scale(weight@),
            bound == sum * scale,
        decreases left,
    {
        let sample = pcg_next_u64(&mut rng);
        if sample < bound {
            return get_index_of_sample(sample, weight);
        }
        left = left - 1;
    }
    proof {
        assert(weight@.len() > 0) by {
            if weight@.len() == 0 {
                assert(total_weight(weight@) == 0);
            }
        }
    }
    0
}

} // verus!
