use emd_hypothesis_testing::attributes::{AttributeError, AttributeErrorKind, AttributeLevel};
use emd_hypothesis_testing::bootstrap::{
    bootstrap_test_prepare, compute_distance_matrix, BootstrapTestComparator,
};
use emd_hypothesis_testing::control_flow::{
    ControlFlowBootstrapComparator, ControlFlowPermutationComparator,
};
use emd_hypothesis_testing::emd::{
    check_emd_input_shapes, pvalue_from_exceed_flags, EmdError, EmdInstance, FastTransportError,
};
use emd_hypothesis_testing::kmeans::KMeansArgs;
use emd_hypothesis_testing::permutation::{
    compute_symmetric_distance_matrix, permutation_test_prepare, PermutationTestComparator,
};
use emd_hypothesis_testing::retain::retain_err;
use emd_hypothesis_testing::timed_levenshtein::TimedLevenshteinBootstrapComparator;

fn sample_log_1() -> Vec<Vec<String>> {
    vec![
        vec!["a".into(), "b".into(), "c".into()],
        vec!["a".into(), "b".into(), "c".into()],
        vec!["a".into(), "c".into()],
        vec!["a".into(), "b".into()],
    ]
}

fn sample_log_2() -> Vec<Vec<String>> {
    vec![
        vec!["a".into(), "b".into(), "c".into()],
        vec!["a".into(), "c".into(), "b".into()],
        vec!["a".into(), "c".into()],
    ]
}

#[test]
fn symmetric_matrix_matches_full_matrix() {
    let language =
        emd_hypothesis_testing::language::StochasticLanguage::from_items(sample_log_1());
    let variants = language.variants;
    let full = compute_distance_matrix(&ControlFlowBootstrapComparator, &variants, &variants);
    let symmetric = compute_symmetric_distance_matrix(&ControlFlowPermutationComparator, &variants);
    assert_eq!(full.len(), symmetric.len());
    for i in 0..full.len() {
        assert_eq!(full[i], symmetric[i]);
    }
}

#[test]
fn control_flow_cost_is_a_metric_surrogate() {
    let a: Vec<String> = vec!["a".into(), "b".into(), "c".into()];
    let b: Vec<String> = vec!["a".into(), "c".into()];
    let comparator = ControlFlowBootstrapComparator;
    let self_cost = comparator.cost(&a, &a);
    assert_eq!(self_cost.num, 0);
    let ab = comparator.cost(&a, &b);
    let ba = comparator.cost(&b, &a);
    assert_eq!((ab.num, ab.den), (ba.num, ba.den));
    assert!(ab.num <= ab.den);
}

#[test]
fn timed_cost_matches_weighted_distance() {
    let t1: Vec<(String, usize)> = vec![("a".into(), 0), ("b".into(), 2)];
    let t2: Vec<(String, usize)> = vec![("a".into(), 1), ("b".into(), 2)];
    let comparator = TimedLevenshteinBootstrapComparator::new(KMeansArgs::default());
    let cost = comparator.cost(&t1, &t2);
    // one substitution of (a,0) by (a,1): cost (0 + 1/2) / 2 = 1/4, normalized
    // by length 2: 1/8
    assert_eq!(cost.num as f64 / cost.den as f64, 1.0 / 8.0);
}

#[test]
fn bootstrap_prepare_builds_observed_and_draws() {
    let run = bootstrap_test_prepare(
        &ControlFlowBootstrapComparator,
        sample_log_1(),
        sample_log_2(),
        4,
        5,
        Some(7),
    );
    assert_eq!(run.language_1.total, 4);
    assert_eq!(run.language_2.total, 3);
    assert_eq!(run.observed.source_weights, run.language_1.counts);
    assert_eq!(run.observed.target_weights, run.language_2.counts);
    assert_eq!(run.observed.costs.len(), run.language_1.variants.len());
    assert!(check_emd_input_shapes(&run.observed).is_ok());
    assert_eq!(run.draws.len(), 5);
    for draw in &run.draws {
        // every bootstrap sample has the requested size, weighted from the
        // reference language
        let sample_total: u64 = draw.sample_language.counts.iter().sum();
        assert_eq!(sample_total, 4);
        assert!(draw
            .sample_language
            .variants
            .iter()
            .all(|&v| v < run.language_1.variants.len()));
        assert_eq!(draw.instance.target_weights, run.language_1.counts);
        assert!(check_emd_input_shapes(&draw.instance).is_ok());
    }
}

#[test]
fn bootstrap_is_reproducible_with_a_seed() {
    let run_1 = bootstrap_test_prepare(
        &ControlFlowBootstrapComparator,
        sample_log_1(),
        sample_log_2(),
        sample_log_1().len(),
        1,
        Some(123),
    );
    let run_2 = bootstrap_test_prepare(
        &ControlFlowBootstrapComparator,
        sample_log_1(),
        sample_log_2(),
        sample_log_1().len(),
        1,
        Some(123),
    );
    assert_eq!(run_1.observed, run_2.observed);
    assert_eq!(run_1.draws.len(), run_2.draws.len());
    for (d1, d2) in run_1.draws.iter().zip(run_2.draws.iter()) {
        assert_eq!(d1.sample_language.variants, d2.sample_language.variants);
        assert_eq!(d1.sample_language.counts, d2.sample_language.counts);
        assert_eq!(d1.instance, d2.instance);
    }
}

#[test]
fn identical_logs_have_observed_distance_zero() {
    let run = permutation_test_prepare(
        &ControlFlowPermutationComparator,
        sample_log_1(),
        sample_log_1(),
        3,
        Some(5),
    );
    // both logs have the same language, so the observed transportation
    // instance moves identical weights over a zero diagonal: its optimum is
    // exactly 0
    assert_eq!(run.observed.source_weights, run.observed.target_weights);
    for i in 0..run.observed.costs.len() {
        assert_eq!(run.observed.costs[i][i].num, 0);
    }
    assert_eq!(run.draws.len(), 3);
    for draw in &run.draws {
        let total_1: u64 = draw.sample_language_1.counts.iter().sum();
        let total_2: u64 = draw.sample_language_2.counts.iter().sum();
        assert_eq!(total_1, 4);
        assert_eq!(total_2, 4);
        assert!(check_emd_input_shapes(&draw.instance).is_ok());
    }
}

#[test]
fn permutation_prepare_projects_the_pooled_matrix() {
    let run = permutation_test_prepare(
        &ControlFlowPermutationComparator,
        sample_log_1(),
        sample_log_2(),
        2,
        Some(9),
    );
    let pool = run.combined_variants.len();
    assert_eq!(run.pooled_matrix.len(), pool);
    for row in &run.pooled_matrix {
        assert_eq!(row.len(), pool);
    }
    // the pooled matrix is symmetric with a zero diagonal
    for i in 0..pool {
        assert_eq!(run.pooled_matrix[i][i].num, 0);
        for j in 0..pool {
            assert_eq!(run.pooled_matrix[i][j], run.pooled_matrix[j][i]);
        }
    }
    assert_eq!(run.observed.costs.len(), run.language_1.variants.len());

    // every draw partitions the pooled cases: per combined variant, the two
    // groups' counts add up to the number of pooled cases of that variant
    let mut pooled_counts: Vec<u64> = vec![0; pool];
    for case in sample_log_1().iter().chain(sample_log_2().iter()) {
        let v = run
            .combined_variants
            .iter()
            .position(|variant| variant == case)
            .expect("every case has a combined variant");
        pooled_counts[v] += 1;
    }
    for draw in &run.draws {
        let mut drawn_counts: Vec<u64> = vec![0; pool];
        for (variant, count) in draw
            .sample_language_1
            .variants
            .iter()
            .zip(draw.sample_language_1.counts.iter())
        {
            drawn_counts[*variant] += count;
        }
        for (variant, count) in draw
            .sample_language_2
            .variants
            .iter()
            .zip(draw.sample_language_2.counts.iter())
        {
            drawn_counts[*variant] += count;
        }
        assert_eq!(drawn_counts, pooled_counts);
    }
}

#[test]
fn pvalue_is_the_fraction_of_exceeding_draws() {
    let flags = vec![true, false, true, false];
    let p = pvalue_from_exceed_flags(&flags);
    assert_eq!((p.num, p.den), (2, 4));
    assert!(p.num <= p.den);
}

#[test]
fn pvalue_is_invariant_to_iteration_order() {
    let flags = vec![true, false, false, true, true];
    let permuted = vec![false, true, true, false, true];
    let p_1 = pvalue_from_exceed_flags(&flags);
    let p_2 = pvalue_from_exceed_flags(&permuted);
    assert_eq!((p_1.num, p_1.den), (p_2.num, p_2.den));
}

#[test]
fn shape_check_reports_dimension_mismatch() {
    let instance = EmdInstance {
        source_weights: vec![1, 2],
        target_weights: vec![3],
        costs: vec![vec![]],
    };
    match check_emd_input_shapes(&instance) {
        Err(EmdError::WeightDimensionError(a, b, c, _)) => {
            assert_eq!((a, b, c), (2, 1, 1));
        },
        other => panic!("expected a dimension error, got {:?}", other),
    }
}

#[test]
fn solver_error_codes_are_classified() {
    assert_eq!(FastTransportError::from(0), FastTransportError::Infeasible);
    assert_eq!(FastTransportError::from(2), FastTransportError::Unbounded);
    assert_eq!(FastTransportError::from(3), FastTransportError::MaxIterReached);
}

#[test]
fn attribute_error_carries_level_key_and_kind() {
    let error = AttributeError::new(
        AttributeLevel::Event,
        "concept:name".to_string(),
        AttributeErrorKind::MissingAttribute,
    );
    assert_eq!(error.level, AttributeLevel::Event);
    assert_eq!(error.key, "concept:name");
    assert_eq!(error.kind, AttributeErrorKind::MissingAttribute);
}

#[test]
fn retain_err_filters_or_leaves_untouched() {
    let mut values: Vec<u64> = vec![1, 2, 3, 4, 5, 6];
    let result: Result<(), String> = retain_err(&mut values, |v: &u64| Ok(*v % 2 == 0));
    assert!(result.is_ok());
    assert_eq!(values, vec![2, 4, 6]);

    let mut values: Vec<u64> = vec![1, 2, 3];
    let result: Result<(), String> = retain_err(&mut values, |v: &u64| {
        if *v == 2 {
            Err("two is not allowed".to_string())
        } else {
            Ok(true)
        }
    });
    assert!(result.is_err());
    assert_eq!(values, vec![1, 2, 3]);
}
