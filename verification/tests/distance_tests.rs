use emd_hypothesis_testing::distance::{
    postnormalized_weighted_levenshtein_distance, weighted_levenshtein_distance,
};
use emd_hypothesis_testing::fraction::Fraction;

#[test]
fn test_levenshtein_wikipedia_example_1() {
    let str_1: Vec<char> = "kitten".chars().collect();
    let str_2: Vec<char> = "sitting".chars().collect();

    assert_eq!(weighted_levenshtein_distance(&str_1, &str_2), 3);
    let post = postnormalized_weighted_levenshtein_distance(&str_1, &str_2);
    assert_eq!(post.num as f64 / post.den as f64, 3.0 / 7.0);
}

#[test]
fn test_levenshtein_wikipedia_example_2() {
    let str_1: Vec<char> = "Saturday".chars().collect();
    let str_2: Vec<char> = "Sunday".chars().collect();

    assert_eq!(weighted_levenshtein_distance(&str_1, &str_2), 3);
    let post = postnormalized_weighted_levenshtein_distance(&str_1, &str_2);
    assert_eq!(post.num as f64 / post.den as f64, 3.0 / 8.0);
}

#[test]
fn test_postnormalized_weighted_lev_distance() {
    let trace_1: Vec<(String, usize)> = vec![
        ("a".into(), 1),
        ("b".into(), 1),
        ("c".into(), 2),
        ("d".into(), 2),
    ];
    let trace_2: Vec<(String, usize)> = vec![
        ("a".into(), 1),
        ("c".into(), 2),
        ("b".into(), 1),
        ("d".into(), 0),
    ];
    // Solution:
    //   1) Match (a,1) and (a,1) with cost 0
    //   2) Delete (b,1) with cost 0.5 + 0.25 = 0.75
    //   3) Match (c,2) and (c,2) with cost 0
    //   4) Insert a (b,1) with cost 0.5 + 0.25 = 0.75
    //   5) Match (d,2) and (d,0) with cost 0.5 + 0.5 = 2
    // Total cost is 2.0; the integer costs carry a denominator of 4.

    let raw = weighted_levenshtein_distance(&trace_1, &trace_2);
    assert_eq!(raw as f64 / 4.0, 2.0);
    let post = postnormalized_weighted_levenshtein_distance(&trace_1, &trace_2);
    assert_eq!(post.num as f64 / post.den as f64, 2.0 / 4.0)
}

#[test]
fn distance_to_itself_is_zero() {
    let trace: Vec<char> = "abcabc".chars().collect();
    assert_eq!(weighted_levenshtein_distance(&trace, &trace), 0);
    let empty: Vec<char> = Vec::new();
    let post = postnormalized_weighted_levenshtein_distance(&empty, &empty);
    assert_eq!(post.num, 0);
}

#[test]
fn distance_is_symmetric() {
    let a: Vec<String> = vec!["x".into(), "y".into(), "z".into()];
    let b: Vec<String> = vec!["x".into(), "z".into()];
    assert_eq!(
        weighted_levenshtein_distance(&a, &b),
        weighted_levenshtein_distance(&b, &a)
    );
    let ab = postnormalized_weighted_levenshtein_distance(&a, &b);
    let ba = postnormalized_weighted_levenshtein_distance(&b, &a);
    assert_eq!((ab.num, ab.den), (ba.num, ba.den));
}

#[test]
fn postnormalized_distance_is_at_most_one_for_unit_costs() {
    let a: Vec<String> = vec!["p".into(), "q".into()];
    let b: Vec<String> = vec!["r".into(), "s".into(), "t".into(), "u".into()];
    let post = postnormalized_weighted_levenshtein_distance(&a, &b);
    assert!(post.num <= post.den);
}

#[test]
fn fractions_compare_exactly() {
    let third = Fraction::new(1, 3);
    let two_fifths = Fraction::new(2, 5);
    assert!(third.lt(&two_fifths));
    assert!(!two_fifths.lt(&third));
    // equal values with different denominators are not less than each other
    let half = Fraction::new(1, 2);
    let two_quarters = Fraction::new(2, 4);
    assert!(!half.lt(&two_quarters));
    assert!(!two_quarters.lt(&half));
    assert_eq!(Fraction::zero().num, 0);
}
