//! Control-flow comparators: cases are represented by their activity
//! sequences and compared with the post-normalized unit-cost Levenshtein
//! distance.

use vstd::prelude::*;

use crate::bootstrap::BootstrapTestComparator;
use crate::distance::{
    all_wf, lemma_distance_symmetric, lemma_levenshtein_congruence,
    postnormalized_weighted_levenshtein_distance, spec_max_len, spec_postnormalized,
    LevenshteinDistance,
};
use crate::fraction::Fraction;
use crate::order::{seq_keys, VariantOrd};
use crate::permutation::PermutationTestComparator;

verus! {

/// Activity sequences within the edit distance's machine bounds.
pub open spec fn control_flow_rep_wf(rep: Vec<String>) -> bool {
    2 * rep@.len() < usize::MAX
}

/// The post-normalized unit-cost Levenshtein distance between two activity
/// sequences, as an exact fraction.
pub open spec fn control_flow_cost(a: Vec<String>, b: Vec<String>) -> Fraction {
    spec_postnormalized::<String>(a@, b@)
}

/// The control-flow cost is a well-formed fraction.
pub proof fn lemma_control_flow_cost_wf(a: Vec<String>, b: Vec<String>)
    requires
        control_flow_rep_wf(a),
        control_flow_rep_wf(b),
    ensures
        control_flow_cost(a, b).wf(),
{
    if a@.len() > 0 || b@.len() > 0 {
        assert(<String as LevenshteinDistance>::spec_scale() == 1);
        assert(1 * spec_max_len(a@.len() as int, b@.len() as int) == spec_max_len(
            a@.len() as int,
            b@.len() as int,
        ));
    }
}

/// Equal keys mean equal activity sequences (as character sequences), so the
/// cost only depends on the keys.
pub proof fn lemma_control_flow_cost_keys(
    a1: Vec<String>,
    a2: Vec<String>,
    b1: Vec<String>,
    b2: Vec<String>,
)
    requires
        a1.key() == a2.key(),
        b1.key() == b2.key(),
    ensures
        control_flow_cost(a1, b1) == control_flow_cost(a2, b2),
{
    assert(a1@.len() == a2@.len()) by {
        assert(seq_keys(a1@).len() == a1@.len() && seq_keys(a2@).len() == a2@.len());
    }
    assert(b1@.len() == b2@.len()) by {
        assert(seq_keys(b1@).len() == b1@.len() && seq_keys(b2@).len() == b2@.len());
    }
    assert forall|i: int| 0 <= i < a1@.len() implies (#[trigger] a1@[i])@ == a2@[i]@ by {
        assert(seq_keys(a1@)[i] == a1@[i].key());
        assert(seq_keys(a2@)[i] == a2@[i].key());
        assert(seq_keys(a1@)[i] == seq_keys(a2@)[i]);
    }
    assert forall|j: int| 0 <= j < b1@.len() implies (#[trigger] b1@[j])@ == b2@[j]@ by {
        assert(seq_keys(b1@)[j] == b1@[j].key());
        assert(seq_keys(b2@)[j] == b2@[j].key());
        assert(seq_keys(b1@)[j] == seq_keys(b2@)[j]);
    }
    if a1@.len() > 0 || b1@.len() > 0 {
        lemma_levenshtein_congruence(a1@, b1@, a2@, b2@);
    }
}

/// The unit-cost distance is symmetric: insertion and deletion cost the same,
/// and substitution only asks whether the labels match.
pub proof fn lemma_control_flow_cost_symmetric(a: Vec<String>, b: Vec<String>)
    ensures
        control_flow_cost(a, b) == control_flow_cost(b, a),
{
    lemma_distance_symmetric(a@, b@);
    assert(spec_max_len(a@.len() as int, b@.len() as int) == spec_max_len(
        b@.len() as int,
        a@.len() as int,
    ));
}

/// A sequence is at distance zero from itself.
pub proof fn lemma_control_flow_cost_self_is_zero(a: Vec<String>)
    ensures
        control_flow_cost(a, a).num == 0,
{
    if a@.len() > 0 {
        crate::distance::lemma_distance_self_is_zero(a@);
    }
}

/// With unit per-token costs, the post-normalized distance never exceeds 1:
/// the numerator is at most the denominator.
pub proof fn lemma_control_flow_cost_at_most_one(a: Vec<String>, b: Vec<String>)
    requires
        control_flow_rep_wf(a),
        control_flow_rep_wf(b),
    ensures
        control_flow_cost(a, b).num <= control_flow_cost(a, b).den,
{
    if a@.len() > 0 || b@.len() > 0 {
        assert(<String as LevenshteinDistance>::spec_max_cost()
            <= <String as LevenshteinDistance>::spec_scale());
        crate::distance::lemma_postnormalized_bounded::<String>(a@, b@);
        assert(1 * spec_max_len(a@.len() as int, b@.len() as int) == spec_max_len(
            a@.len() as int,
            b@.len() as int,
        ));
    }
}

/// Executable control-flow cost, shared by both comparators.
fn control_flow_cost_exec(rep_1: &Vec<String>, rep_2: &Vec<String>) -> (r: Fraction)
    requires
        control_flow_rep_wf(*rep_1),
        control_flow_rep_wf(*rep_2),
    ensures
        r == control_flow_cost(*rep_1, *rep_2),
{
    proof {
        assert(all_wf::<String>(rep_1@));
        assert(all_wf::<String>(rep_2@));
        assert(<String as LevenshteinDistance>::spec_max_cost() * (rep_1@.len() + rep_2@.len())
            == rep_1@.len() + rep_2@.len());
        assert(<String as LevenshteinDistance>::spec_scale() * spec_max_len(
            rep_1@.len() as int,
            rep_2@.len() as int,
        ) == spec_max_len(rep_1@.len() as int, rep_2@.len() as int));
    }
    postnormalized_weighted_levenshtein_distance::<String>(rep_1.as_slice(), rep_2.as_slice())
}

/// The bootstrap method over control-flow representations, with the
/// post-normalized Levenshtein distance between activity sequences.
#[derive(Debug)]
pub struct ControlFlowBootstrapComparator;

impl BootstrapTestComparator<Vec<String>> for ControlFlowBootstrapComparator {
    open spec fn rep_wf(&self, rep: Vec<String>) -> bool {
        control_flow_rep_wf(rep)
    }

    open spec fn spec_cost(&self, rep_1: Vec<String>, rep_2: Vec<String>) -> Fraction {
        control_flow_cost(rep_1, rep_2)
    }

    proof fn lemma_cost_wf(&self, rep_1: Vec<String>, rep_2: Vec<String>) {
        lemma_control_flow_cost_wf(rep_1, rep_2);
    }

    proof fn lemma_rep_wf_respects_keys(&self, rep_1: Vec<String>, rep_2: Vec<String>) {
        assert(seq_keys(rep_1@).len() == rep_1@.len() && seq_keys(rep_2@).len() == rep_2@.len());
    }

    proof fn lemma_cost_respects_keys(
        &self,
        a1: Vec<String>,
        a2: Vec<String>,
        b1: Vec<String>,
        b2: Vec<String>,
    ) {
        lemma_control_flow_cost_keys(a1, a2, b1, b2);
    }

    fn cost(&self, rep_1: &Vec<String>, rep_2: &Vec<String>) -> Fraction {
        control_flow_cost_exec(rep_1, rep_2)
    }
}

/// The permutation test over control-flow representations, with the
/// post-normalized Levenshtein distance between activity sequences.
#[derive(Debug)]
pub struct ControlFlowPermutationComparator;

impl PermutationTestComparator<Vec<String>> for ControlFlowPermutationComparator {
    open spec fn rep_wf(&self, rep: Vec<String>) -> bool {
        control_flow_rep_wf(rep)
    }

    open spec fn spec_cost(&self, rep_1: Vec<String>, rep_2: Vec<String>) -> Fraction {
        control_flow_cost(rep_1, rep_2)
    }

    proof fn lemma_cost_wf(&self, rep_1: Vec<String>, rep_2: Vec<String>) {
        lemma_control_flow_cost_wf(rep_1, rep_2);
    }

    proof fn lemma_rep_wf_respects_keys(&self, rep_1: Vec<String>, rep_2: Vec<String>) {
        assert(seq_keys(rep_1@).len() == rep_1@.len() && seq_keys(rep_2@).len() == rep_2@.len());
    }

    proof fn lemma_cost_respects_keys(
        &self,
        a1: Vec<String>,
        a2: Vec<String>,
        b1: Vec<String>,
        b2: Vec<String>,
    ) {
        lemma_control_flow_cost_keys(a1, a2, b1, b2);
    }

    proof fn lemma_cost_symmetric(&self, rep_1: Vec<String>, rep_2: Vec<String>) {
        lemma_control_flow_cost_symmetric(rep_1, rep_2);
    }

    fn cost(&self, rep_1: &Vec<String>, rep_2: &Vec<String>) -> Fraction {
        control_flow_cost_exec(rep_1, rep_2)
    }
}

} // verus!
