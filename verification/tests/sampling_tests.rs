use emd_hypothesis_testing::sampling::{partial_shuffle, sample_index_weighted};
use rand::SeedableRng;

#[test]
fn partial_shuffle_permutes_in_place() {
    let mut rng = rand::rngs::StdRng::seed_from_u64(21);
    let mut values: Vec<usize> = (0..10).collect();
    partial_shuffle(&mut values, 4, &mut rng);
    assert_eq!(values.len(), 10);
    let mut sorted = values.clone();
    sorted.sort_unstable();
    assert_eq!(sorted, (0..10).collect::<Vec<usize>>());
}

#[test]
fn weighted_draws_pick_occurring_variants() {
    let mut rng = rand::rngs::StdRng::seed_from_u64(5);
    let counts: Vec<u64> = vec![3, 0, 2, 5];
    for _ in 0..50 {
        let idx = sample_index_weighted(&counts, 10, &mut rng);
        assert!(idx < counts.len());
        assert!(counts[idx] > 0);
    }
}

#[test]
fn weighted_draws_are_reproducible_with_a_seed() {
    let counts: Vec<u64> = vec![1, 4, 2];
    let mut rng_1 = rand::rngs::StdRng::seed_from_u64(77);
    let mut rng_2 = rand::rngs::StdRng::seed_from_u64(77);
    let draws_1: Vec<usize> = (0..20).map(|_| sample_index_weighted(&counts, 7, &mut rng_1)).collect();
    let draws_2: Vec<usize> = (0..20).map(|_| sample_index_weighted(&counts, 7, &mut rng_2)).collect();
    assert_eq!(draws_1, draws_2);
}
