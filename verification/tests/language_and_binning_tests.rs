use emd_hypothesis_testing::binning::{Binner, BinnerManager};
use emd_hypothesis_testing::extraction::apply_binner_manager_on_service_time_trace;
use emd_hypothesis_testing::kmeans::{kmeans, square_distance, KMeansArgs, KMeansBinner};
use emd_hypothesis_testing::language::StochasticLanguage;
use emd_hypothesis_testing::percentile::{percentile, OuterPercentileBinner};

#[test]
fn from_items_counts_and_sorts() {
    let items: Vec<Vec<String>> = vec![
        vec!["b".into()],
        vec!["a".into()],
        vec!["b".into()],
        vec!["a".into()],
        vec!["a".into()],
    ];
    let language = StochasticLanguage::from_items(items);
    assert_eq!(language.total, 5);
    assert_eq!(language.variants, vec![vec!["a".to_string()], vec!["b".to_string()]]);
    assert_eq!(language.counts, vec![3, 2]);
    // the relative frequencies sum to exactly 1
    let sum: u64 = language.counts.iter().sum();
    assert_eq!(sum, language.total);
    let f = language.frequency(0);
    assert_eq!((f.num, f.den), (3, 5));
}

#[test]
fn from_items_empty_population() {
    let items: Vec<Vec<String>> = Vec::new();
    let language = StochasticLanguage::from_items(items);
    assert_eq!(language.total, 0);
    assert_eq!(language.num_variants(), 0);
}

#[test]
fn percentile_interpolates_between_order_statistics() {
    let sorted: Vec<u64> = vec![1, 2, 3, 4, 5, 6, 7, 8, 9, 10];
    // rank of the 10th percentile is 0.9: between 1 and 2, nine tenths along
    assert_eq!(percentile(&sorted, 10), 190);
    // rank of the 90th percentile is 8.1: between 9 and 10, one tenth along
    assert_eq!(percentile(&sorted, 90), 910);
    assert_eq!(percentile(&sorted, 0), 100);
    assert_eq!(percentile(&sorted, 100), 1000);
}

#[test]
fn percentile_binner_has_exactly_three_bins() {
    let data: Vec<u64> = vec![5, 1, 9, 3, 7, 2, 8, 4, 6, 10];
    let binner = OuterPercentileBinner::new(data, 10);
    assert_eq!(binner.num_bins(), 3);
    assert_eq!(binner.bin(1), 0);
    assert_eq!(binner.bin(5), 1);
    assert_eq!(binner.bin(10), 2);
}

#[test]
fn percentile_binner_bins_boundaries_consistently() {
    let data: Vec<u64> = vec![0, 100, 200, 300, 400, 500, 600, 700, 800, 900, 1000];
    let binner = OuterPercentileBinner::new(data, 20);
    // the lower boundary is the 20th percentile, exactly 200
    let first = binner.bin(200);
    let second = binner.bin(200);
    assert_eq!(first, second);
    // a value exactly on the boundary is never in the lower bin
    assert_eq!(first, 1);
    assert_eq!(binner.bin(199), 0);
    // monotone bins
    assert!(binner.bin(100) <= binner.bin(500));
    assert!(binner.bin(500) <= binner.bin(1000));
}

#[test]
fn square_distance_is_exact() {
    assert_eq!(square_distance(3, 8), 25);
    assert_eq!(square_distance(8, 3), 25);
    assert_eq!(square_distance(7, 7), 0);
}

#[test]
fn kmeans_produces_k_clusters() {
    let elems: Vec<u64> = vec![1, 2, 3, 100, 101, 102, 1000, 1001];
    let clustering = kmeans(3, &elems, 100, Some(11));
    assert_eq!(clustering.centroids.len(), 3);
    assert_eq!(clustering.membership.len(), elems.len());
    assert!(clustering.membership.iter().all(|&c| c < 3));
}

#[test]
fn kmeans_binner_bins_monotonically() {
    let data: Vec<u64> = vec![1, 2, 3, 100, 101, 102, 1000, 1001, 1002];
    let args = KMeansArgs::new(3, 100, Some(42));
    let binner = KMeansBinner::new(data, args);
    assert_eq!(binner.num_bins(), 3);
    // sorted centroids give monotonically non-decreasing bins
    assert!(binner.bin(1) <= binner.bin(100));
    assert!(binner.bin(100) <= binner.bin(1000));
    let mut previous = 0;
    for value in [1u64, 5, 50, 150, 500, 900, 1002] {
        let b = binner.bin(value);
        assert!(previous <= b);
        previous = b;
    }
}

#[test]
fn kmeans_binner_is_reproducible_with_a_seed() {
    let data: Vec<u64> = vec![4, 8, 15, 16, 23, 42, 99, 100, 101];
    let args = KMeansArgs::default().with_seed(7);
    let binner_1 = KMeansBinner::new(data.clone(), args);
    let binner_2 = KMeansBinner::new(data, args);
    assert_eq!(binner_1.centroids, binner_2.centroids);
}

#[test]
fn binner_manager_trains_one_binner_per_key() {
    let data: Vec<(String, u64)> = vec![
        ("a".into(), 1),
        ("b".into(), 1000),
        ("a".into(), 2),
        ("b".into(), 2000),
        ("a".into(), 3),
        ("b".into(), 3000),
        ("a".into(), 10),
        ("b".into(), 10000),
    ];
    let manager: BinnerManager<OuterPercentileBinner> =
        BinnerManager::from_key_value_pairs(data, 25);
    // boundaries are per key: a small value of "b" is in "b"'s lowest bin
    // even though it is far above every "a" value
    let low_a = manager.bin("a", 1);
    let low_b = manager.bin("b", 1000);
    assert_eq!(low_a, 0);
    assert_eq!(low_b, 0);
    assert_eq!(manager.bin("b", 10000), 2);
}

#[test]
fn binning_turns_service_time_traces_into_timed_tokens() {
    let training: Vec<(String, u64)> = vec![
        ("a".into(), 10),
        ("a".into(), 20),
        ("a".into(), 5000),
        ("b".into(), 7),
        ("b".into(), 9),
        ("b".into(), 800),
    ];
    let manager: BinnerManager<KMeansBinner> =
        BinnerManager::from_key_value_pairs(training, KMeansArgs::new(3, 100, Some(3)));
    let trace: Vec<(String, u64)> = vec![("a".into(), 10), ("a".into(), 5000), ("b".into(), 9)];
    let binned = apply_binner_manager_on_service_time_trace(trace, &manager);
    assert_eq!(binned.len(), 3);
    assert!(binned.iter().all(|(_, bin)| *bin < 3));
    // the large "a" service time lands in a higher bin than the small one
    assert!(binned[0].1 <= binned[1].1);
    assert_eq!(binned[0].0, "a");
    assert_eq!(binned[2].0, "b");
}
