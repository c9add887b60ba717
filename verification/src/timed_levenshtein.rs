//! Timed-behavior comparators: cases are represented by sequences of
//! `(activity, service-time bin)` tokens and compared with the post-normalized
//! weighted Levenshtein distance, whose per-token costs scale with the bin
//! index. Service times are binned by per-activity k-means clustering.

use vstd::prelude::*;

use crate::bootstrap::BootstrapTestComparator;
use crate::distance::{
    all_wf, lemma_distance_symmetric, lemma_levenshtein_congruence,
    postnormalized_weighted_levenshtein_distance, spec_max_len, spec_postnormalized,
    LevenshteinDistance,
};
use crate::fraction::Fraction;
use crate::kmeans::KMeansArgs;
use crate::order::{seq_keys, VariantOrd};
use crate::permutation::PermutationTestComparator;
use crate::tokens::MAX_BIN_INDEX;

verus! {

/// Timed token sequences within the cost model's domain: machine length
/// bounds, and every bin at most the largest bin index.
pub open spec fn timed_rep_wf(rep: Vec<(String, usize)>) -> bool {
    &&& 2 * rep@.len() < usize::MAX
    &&& 12 * rep@.len() <= u64::MAX
    &&& all_wf::<(String, usize)>(rep@)
}

/// The post-normalized weighted Levenshtein distance between two timed token
/// sequences, as an exact fraction.
pub open spec fn timed_cost(a: Vec<(String, usize)>, b: Vec<(String, usize)>) -> Fraction {
    spec_postnormalized::<(String, usize)>(a@, b@)
}

/// The timed cost is a well-formed fraction.
proof fn lemma_timed_cost_wf(a: Vec<(String, usize)>, b: Vec<(String, usize)>)
    requires
        timed_rep_wf(a),
        timed_rep_wf(b),
    ensures
        timed_cost(a, b).wf(),
{
    if a@.len() > 0 || b@.len() > 0 {
        assert(<(String, usize) as LevenshteinDistance>::spec_scale() == 4);
        assert(4 * spec_max_len(a@.len() as int, b@.len() as int) <= u64::MAX);
    }
}

/// Equal keys mean pointwise equal labels and bins, so the cost only depends
/// on the keys.
proof fn lemma_timed_cost_keys(
    a1: Vec<(String, usize)>,
    a2: Vec<(String, usize)>,
    b1: Vec<(String, usize)>,
    b2: Vec<(String, usize)>,
)
    requires
        a1.key() == a2.key(),
        b1.key() == b2.key(),
    ensures
        timed_cost(a1, b1) == timed_cost(a2, b2),
{
    assert(a1@.len() == a2@.len()) by {
        assert(seq_keys(a1@).len() == a1@.len() && seq_keys(a2@).len() == a2@.len());
    }
    assert(b1@.len() == b2@.len()) by {
        assert(seq_keys(b1@).len() == b1@.len() && seq_keys(b2@).len() == b2@.len());
    }
    assert forall|i: int|
        0 <= i < a1@.len() implies (#[trigger] a1@[i]).0@ == a2@[i].0@ && a1@[i].1 == a2@[
        i].1 by {
        assert(seq_keys(a1@)[i] == a1@[i].key());
        assert(seq_keys(a2@)[i] == a2@[i].key());
        assert(seq_keys(a1@)[i] == seq_keys(a2@)[i]);
    }
    assert forall|j: int|
        0 <= j < b1@.len() implies (#[trigger] b1@[j]).0@ == b2@[j].0@ && b1@[j].1 == b2@[
        j].1 by {
        assert(seq_keys(b1@)[j] == b1@[j].key());
        assert(seq_keys(b2@)[j] == b2@[j].key());
        assert(seq_keys(b1@)[j] == seq_keys(b2@)[j]);
    }
    if a1@.len() > 0 || b1@.len() > 0 {
        lemma_levenshtein_congruence(a1@, b1@, a2@, b2@);
    }
}

/// The weighted distance is symmetric: insertion and deletion share one
/// formula, and substitution blends symmetric terms.
pub proof fn lemma_timed_cost_symmetric(a: Vec<(String, usize)>, b: Vec<(String, usize)>)
    ensures
        timed_cost(a, b) == timed_cost(b, a),
{
    lemma_distance_symmetric(a@, b@);
    assert(spec_max_len(a@.len() as int, b@.len() as int) == spec_max_len(
        b@.len() as int,
        a@.len() as int,
    ));
}

/// A timed token sequence is at distance zero from itself.
pub proof fn lemma_timed_cost_self_is_zero(a: Vec<(String, usize)>)
    requires
        all_wf::<(String, usize)>(a@),
    ensures
        timed_cost(a, a).num == 0,
{
    if a@.len() > 0 {
        crate::distance::lemma_distance_self_is_zero(a@);
    }
}

/// Keys carry lengths and bins, so the domain respects keys.
proof fn lemma_timed_rep_wf_keys(rep_1: Vec<(String, usize)>, rep_2: Vec<(String, usize)>)
    requires
        rep_1.key() == rep_2.key(),
        timed_rep_wf(rep_1),
    ensures
        timed_rep_wf(rep_2),
{
    assert(rep_1@.len() == rep_2@.len()) by {
        assert(seq_keys(rep_1@).len() == rep_1@.len() && seq_keys(rep_2@).len() == rep_2@.len());
    }
    assert forall|i: int| 0 <= i < rep_2@.len() implies (#[trigger] rep_2@[i]).wf() by {
        assert(seq_keys(rep_1@)[i] == rep_1@[i].key());
        assert(seq_keys(rep_2@)[i] == rep_2@[i].key());
        assert(seq_keys(rep_1@)[i] == seq_keys(rep_2@)[i]);
        assert(rep_1@[i].1 == rep_2@[i].1);
        assert(rep_1@[i].wf());
    }
}

/// Executable timed cost, shared by both comparators.
fn timed_cost_exec(rep_1: &Vec<(String, usize)>, rep_2: &Vec<(String, usize)>) -> (r: Fraction)
    requires
        timed_rep_wf(*rep_1),
        timed_rep_wf(*rep_2),
    ensures
        r == timed_cost(*rep_1, *rep_2),
{
    proof {
        assert(<(String, usize) as LevenshteinDistance>::spec_max_cost() * (rep_1@.len()
            + rep_2@.len()) == 6 * (rep_1@.len() + rep_2@.len()));
        assert(6 * (rep_1@.len() + rep_2@.len()) <= u64::MAX);
        assert(<(String, usize) as LevenshteinDistance>::spec_scale() * spec_max_len(
            rep_1@.len() as int,
            rep_2@.len() as int,
        ) == 4 * spec_max_len(rep_1@.len() as int, rep_2@.len() as int));
        assert(4 * spec_max_len(rep_1@.len() as int, rep_2@.len() as int) <= u64::MAX);
    }
    postnormalized_weighted_levenshtein_distance::<(String, usize)>(
        rep_1.as_slice(),
        rep_2.as_slice(),
    )
}

/// The bootstrap method over timed representations: service times are binned
/// per activity by k-means clustering, and sequences of (activity, bin)
/// tokens are compared with the weighted Levenshtein distance.
#[derive(Debug)]
pub struct TimedLevenshteinBootstrapComparator {
    pub binner_args: KMeansArgs,
}

impl TimedLevenshteinBootstrapComparator {
    pub fn new(binner_args: KMeansArgs) -> (r: TimedLevenshteinBootstrapComparator)
        ensures
            r.binner_args == binner_args,
    {
        TimedLevenshteinBootstrapComparator { binner_args }
    }
}

impl BootstrapTestComparator<Vec<(String, usize)>> for TimedLevenshteinBootstrapComparator {
    open spec fn rep_wf(&self, rep: Vec<(String, usize)>) -> bool {
        timed_rep_wf(rep)
    }

    open spec fn spec_cost(&self, rep_1: Vec<(String, usize)>, rep_2: Vec<(String, usize)>) -> Fraction {
        timed_cost(rep_1, rep_2)
    }

    proof fn lemma_cost_wf(&self, rep_1: Vec<(String, usize)>, rep_2: Vec<(String, usize)>) {
        lemma_timed_cost_wf(rep_1, rep_2);
    }

    proof fn lemma_rep_wf_respects_keys(
        &self,
        rep_1: Vec<(String, usize)>,
        rep_2: Vec<(String, usize)>,
    ) {
        lemma_timed_rep_wf_keys(rep_1, rep_2);
    }

    proof fn lemma_cost_respects_keys(
        &self,
        a1: Vec<(String, usize)>,
        a2: Vec<(String, usize)>,
        b1: Vec<(String, usize)>,
        b2: Vec<(String, usize)>,
    ) {
        lemma_timed_cost_keys(a1, a2, b1, b2);
    }

    fn cost(&self, rep_1: &Vec<(String, usize)>, rep_2: &Vec<(String, usize)>) -> Fraction {
        timed_cost_exec(rep_1, rep_2)
    }
}

/// The permutation test over timed representations, with the same binned
/// weighted Levenshtein distance.
#[derive(Debug)]
pub struct TimedLevenshteinPermutationComparator {
    pub binner_args: KMeansArgs,
}

impl TimedLevenshteinPermutationComparator {
    pub fn new(binner_args: KMeansArgs) -> (r: TimedLevenshteinPermutationComparator)
        ensures
            r.binner_args == binner_args,
    {
        TimedLevenshteinPermutationComparator { binner_args }
    }
}

impl PermutationTestComparator<Vec<(String, usize)>> for TimedLevenshteinPermutationComparator {
    open spec fn rep_wf(&self, rep: Vec<(String, usize)>) -> bool {
        timed_rep_wf(rep)
    }

    open spec fn spec_cost(&self, rep_1: Vec<(String, usize)>, rep_2: Vec<(String, usize)>) -> Fraction {
        timed_cost(rep_1, rep_2)
    }

    proof fn lemma_cost_wf(&self, rep_1: Vec<(String, usize)>, rep_2: Vec<(String, usize)>) {
        lemma_timed_cost_wf(rep_1, rep_2);
    }

    proof fn lemma_rep_wf_respects_keys(
        &self,
        rep_1: Vec<(String, usize)>,
        rep_2: Vec<(String, usize)>,
    ) {
        lemma_timed_rep_wf_keys(rep_1, rep_2);
    }

    proof fn lemma_cost_respects_keys(
        &self,
        a1: Vec<(String, usize)>,
        a2: Vec<(String, usize)>,
        b1: Vec<(String, usize)>,
        b2: Vec<(String, usize)>,
    ) {
        lemma_timed_cost_keys(a1, a2, b1, b2);
    }

    proof fn lemma_cost_symmetric(
        &self,
        rep_1: Vec<(String, usize)>,
        rep_2: Vec<(String, usize)>,
    ) {
        lemma_timed_cost_symmetric(rep_1, rep_2);
    }

    fn cost(&self, rep_1: &Vec<(String, usize)>, rep_2: &Vec<(String, usize)>) -> Fraction {
        timed_cost_exec(rep_1, rep_2)
    }
}

} // verus!
