use bft_core::rand::{checked_total, get_index, get_index_of_sample, get_index_rand};
use rand_core::{RngCore, SeedableRng};
use rand_pcg::Pcg64Mcg as Pcg;

/// The proposer that a seed chooses at random, computed on the generator itself.
fn cal_proposer(seed: u64, weight: &[u64]) -> usize {
    let sum: u64 = weight.iter().sum();
    let x = u64::max_value() / sum;

    let mut rng = Pcg::seed_from_u64(seed);
    let mut res = rng.next_u64();
    while res >= sum * x {
        res = rng.next_u64();
    }
    let mut acc = 0u64;
    for (index, w) in weight.iter().enumerate() {
        acc += *w;
        if res < acc * x {
            return index;
        }
    }
    0
}

#[test]
fn equal_weights_take_turns() {
    let weight = [1u64, 1, 1, 1];
    assert_eq!(get_index(0, &weight), 0);
    assert_eq!(get_index(1, &weight), 1);
    assert_eq!(get_index(2, &weight), 2);
    assert_eq!(get_index(3, &weight), 3);
    assert_eq!(get_index(4, &weight), 0);
    assert_eq!(get_index(1 + 0, &weight), 1);
    assert_eq!(get_index(u64::MAX, &weight), 3);
}

#[test]
fn the_first_running_sum_above_the_remainder_decides() {
    let weight = [3u64, 0, 2, 5];
    // The running sums are 3, 3, 5, 10.
    let expected = [0usize, 0, 0, 2, 2, 3, 3, 3, 3, 3];
    for seed in 0..30u64 {
        assert_eq!(get_index(seed, &weight), expected[(seed % 10) as usize]);
    }
}

#[test]
fn a_node_without_weight_is_never_chosen() {
    let weight = [0u64, 4, 0];
    for seed in 0..20u64 {
        assert_eq!(get_index(seed, &weight), 1);
        assert_eq!(get_index_rand(seed, &weight), 1);
    }
}

#[test]
fn a_single_node_is_always_chosen() {
    assert_eq!(get_index(77, &[9]), 0);
    assert_eq!(get_index_rand(77, &[9]), 0);
    assert_eq!(get_index(0, &[u64::MAX]), 0);
    assert_eq!(get_index_rand(0, &[u64::MAX]), 0);
}

#[test]
fn weights_are_summed_with_care() {
    assert_eq!(checked_total(&[]), Some(0));
    assert_eq!(checked_total(&[1, 2, 3]), Some(6));
    assert_eq!(checked_total(&[u64::MAX - 1, 1]), Some(u64::MAX));
    assert_eq!(checked_total(&[u64::MAX, 1]), None);
    assert_eq!(checked_total(&[1 << 63, 1 << 63]), None);
}

#[test]
fn a_sample_falls_on_the_share_of_its_weight() {
    let weight = [1u64, 1, 1, 1];
    let share = u64::MAX / 4;
    assert_eq!(get_index_of_sample(0, &weight), 0);
    assert_eq!(get_index_of_sample(share - 1, &weight), 0);
    assert_eq!(get_index_of_sample(share, &weight), 1);
    assert_eq!(get_index_of_sample(2 * share - 1, &weight), 1);
    assert_eq!(get_index_of_sample(2 * share, &weight), 2);
    assert_eq!(get_index_of_sample(3 * share, &weight), 3);
    assert_eq!(get_index_of_sample(4 * share - 1, &weight), 3);
    let uneven = [1u64, 0, 2];
    let third = u64::MAX / 3;
    assert_eq!(get_index_of_sample(third - 1, &uneven), 0);
    assert_eq!(get_index_of_sample(third, &uneven), 2);
    assert_eq!(get_index_of_sample(3 * third - 1, &uneven), 2);
}

#[test]
fn the_random_choice_is_that_of_the_generator() {
    let equal = [1u64, 1, 1, 1];
    let uneven = [7u64, 1, 13, 2, 40];
    let mut seen = [false; 4];
    for seed in 0..200u64 {
        let index = get_index_rand(seed, &equal);
        assert_eq!(index, cal_proposer(seed, &equal));
        seen[index] = true;
        assert_eq!(get_index_rand(seed, &uneven), cal_proposer(seed, &uneven));
    }
    // The choice depends on the seed: every node is chosen for some seed.
    assert_eq!(seen, [true; 4]);
    let big = u64::MAX - 3;
    assert_eq!(get_index_rand(big, &uneven), cal_proposer(big, &uneven));
}

#[test]
fn the_random_choice_is_the_same_every_time() {
    let weight = [3u64, 5, 8];
    for seed in [0u64, 1, 2, 1 << 40, u64::MAX] {
        assert_eq!(get_index_rand(seed, &weight), get_index_rand(seed, &weight));
    }
}

#[test]
fn a_sum_above_half_of_all_samples_rejects_and_draws_again() {
    // With this sum one unit of weight gets one sample, and nearly half of the samples are rejected.
    let weight = [(1u64 << 63) + 1, 5];
    for seed in 0..50u64 {
        assert_eq!(get_index_rand(seed, &weight), cal_proposer(seed, &weight));
    }
}
