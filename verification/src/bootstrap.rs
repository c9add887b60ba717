//! The bootstrap method for process hypothesis testing.
//!
//! A bootstrap distribution is built by repeatedly drawing a sample (with
//! replacement, weighted by the empirical frequencies) from the first log's
//! stochastic language and pairing it against that language; the p-value is
//! the fraction of bootstrap distances greater than the distance observed
//! between the two logs. This module assembles the exact transportation
//! instances of that procedure; the caller runs them through the solver.

use vstd::prelude::*;

use crate::emd::EmdInstance;
use crate::fraction::Fraction;
use crate::language::{key_multiset, StochasticLanguage};
use crate::matrix::{is_matrix, select_rows};
use crate::order::{seq_keys, VariantOrd};
use crate::rng::{rng_from_entropy, rng_from_seed};
use crate::sampling::sample_index_weighted;

verus! {

broadcast use vstd::seq_lib::group_to_multiset_ensures;

/// Strategy interface of the bootstrap test: a dissimilarity measure between
/// case representations. The cost is a function of the variants' keys alone,
/// so it is indifferent to which representative of a variant it is given.
pub trait BootstrapTestComparator<T: VariantOrd> {
    /// The representations the measure is defined on.
    spec fn rep_wf(&self, rep: T) -> bool;

    /// The dissimilarity of two representations, as an exact fraction.
    spec fn spec_cost(&self, rep_1: T, rep_2: T) -> Fraction;

    /// The cost of two representations in the measure's domain is a
    /// well-formed fraction.
    proof fn lemma_cost_wf(&self, rep_1: T, rep_2: T)
        requires
            self.rep_wf(rep_1),
            self.rep_wf(rep_2),
        ensures
            self.spec_cost(rep_1, rep_2).wf(),
    ;

    /// The domain is a property of the variant's key.
    proof fn lemma_rep_wf_respects_keys(&self, rep_1: T, rep_2: T)
        requires
            rep_1.key() == rep_2.key(),
            self.rep_wf(rep_1),
        ensures
            self.rep_wf(rep_2),
    ;

    /// The cost is a function of the variants' keys.
    proof fn lemma_cost_respects_keys(&self, a1: T, a2: T, b1: T, b2: T)
        requires
            a1.key() == a2.key(),
            b1.key() == b2.key(),
            self.rep_wf(a1),
            self.rep_wf(b1),
        ensures
            self.spec_cost(a1, b1) == self.spec_cost(a2, b2),
    ;

    fn cost(&self, rep_1: &T, rep_2: &T) -> (r: Fraction)
        requires
            self.rep_wf(*rep_1),
            self.rep_wf(*rep_2),
        ensures
            r == self.spec_cost(*rep_1, *rep_2),
    ;
}

/// Every representation of the sequence lies in the measure's domain.
pub open spec fn all_reps_wf<T: VariantOrd, C: BootstrapTestComparator<T>>(
    comparator: C,
    s: Seq<T>,
) -> bool {
    forall|i: int| 0 <= i < s.len() ==> comparator.rep_wf(#[trigger] s[i])
}

/// A language built from in-domain items has in-domain variants: each variant
/// occurs in the items, and the domain respects keys.
pub proof fn lemma_language_reps_wf<T: VariantOrd, C: BootstrapTestComparator<T>>(
    comparator: C,
    language: StochasticLanguage<T>,
    items: Seq<T>,
)
    requires
        language.wf(),
        language.describes(items),
        all_reps_wf(comparator, items),
    ensures
        all_reps_wf(comparator, language.variants@),
{
    assert forall|i: int|
        0 <= i < language.variants@.len() implies comparator.rep_wf(
        #[trigger] language.variants@[i],
    ) by {
        let k = seq_keys(language.variants@)[i];
        assert(language.counts@[i] as nat == key_multiset(items).count(k));
        assert(language.counts@[i] >= 1);
        assert(seq_keys(items).to_multiset().count(k) > 0);
        assert(seq_keys(items).contains(k));
        let j = choose|j: int| 0 <= j < seq_keys(items).len() && seq_keys(items)[j] == k;
        assert(items[j].key() == k);
        assert(language.variants@[i].key() == k);
        comparator.lemma_rep_wf_respects_keys(items[j], language.variants@[i]);
    }
}

/// Computes the dense distance matrix between two variant lists: entry
/// `(i, j)` is the cost of the `i`-th variant of the first list against the
/// `j`-th of the second.
pub fn compute_distance_matrix<T: VariantOrd, C: BootstrapTestComparator<T>>(
    comparator: &C,
    variants_1: &Vec<T>,
    variants_2: &Vec<T>,
) -> (m: Vec<Vec<Fraction>>)
    requires
        all_reps_wf(*comparator, variants_1@),
        all_reps_wf(*comparator, variants_2@),
    ensures
        is_matrix(m@, variants_1@.len() as int, variants_2@.len() as int),
        forall|i: int, j: int|
            0 <= i < variants_1@.len() && 0 <= j < variants_2@.len() ==> #[trigger] m@[i]@[j]
                == comparator.spec_cost(variants_1@[i], variants_2@[j]),
{
    let n1 = variants_1.len();
    let n2 = variants_2.len();
    let mut rows: Vec<Vec<Fraction>> = Vec::new();
    let mut i: usize = 0;
    while i < n1
        invariant
            0 <= i <= n1 == variants_1@.len(),
            n2 == variants_2@.len(),
            all_reps_wf(*comparator, variants_1@),
            all_reps_wf(*comparator, variants_2@),
            rows@.len() == i,
            forall|k: int| 0 <= k < i ==> (#[trigger] rows@[k])@.len() == n2,
            forall|k: int, j: int|
                0 <= k < i && 0 <= j < n2 ==> #[trigger] rows@[k]@[j] == comparator.spec_cost(
                    variants_1@[k],
                    variants_2@[j],
                ),
        decreases n1 - i,
    {
        let mut row: Vec<Fraction> = Vec::new();
        let mut j: usize = 0;
        while j < n2
            invariant
                0 <= j <= n2 == variants_2@.len(),
                0 <= i < variants_1@.len(),
                all_reps_wf(*comparator, variants_1@),
                all_reps_wf(*comparator, variants_2@),
                row@.len() == j,
                forall|k: int|
                    0 <= k < j ==> #[trigger] row@[k] == comparator.spec_cost(
                        variants_1@[i as int],
                        variants_2@[k],
                    ),
            decreases n2 - j,
        {
            row.push(comparator.cost(&variants_1[i], &variants_2[j]));
            j += 1;
        }
        rows.push(row);
        i += 1;
    }
    rows
}

/// One bootstrap iteration: the sample's stochastic language (over variant
/// indices of the reference language) and the transportation instance pairing
/// the sample against the reference.
pub struct BootstrapDraw {
    pub sample_language: StochasticLanguage<usize>,
    pub instance: EmdInstance,
}

/// What every bootstrap iteration guarantees, whatever was randomly drawn:
/// the sample language is the empirical distribution of `resample_size` drawn
/// variant indices, the instance pairs its counts against the reference
/// counts, and each cost cell is the measure's cost between the corresponding
/// reference variants.
pub open spec fn bootstrap_draw_wf<T: VariantOrd, C: BootstrapTestComparator<T>>(
    comparator: C,
    reference: StochasticLanguage<T>,
    resample_size: int,
    draw: BootstrapDraw,
) -> bool {
    &&& draw.sample_language.wf()
    &&& draw.sample_language.total == resample_size
    &&& forall|r: int|
        0 <= r < draw.sample_language.variants@.len()
            ==> #[trigger] draw.sample_language.variants@[r] < reference.variants@.len()
    &&& draw.instance.source_weights@ == draw.sample_language.counts@
    &&& draw.instance.target_weights@ == reference.counts@
    &&& is_matrix(
        draw.instance.costs@,
        draw.sample_language.variants@.len() as int,
        reference.variants@.len() as int,
    )
    &&& forall|r: int, c: int|
        0 <= r < draw.sample_language.variants@.len() && 0 <= c < reference.variants@.len()
            ==> #[trigger] draw.instance.costs@[r]@[c] == comparator.spec_cost(
            reference.variants@[draw.sample_language.variants@[r] as int],
            reference.variants@[c],
        )
}

/// Builds the bootstrap distribution's transportation instances: the
/// reference language's self-distance matrix is computed once, and each of
/// the `distribution_size` iterations draws `resample_size` variant indices
/// with replacement (weighted by the empirical frequencies), builds the
/// sample's language, and projects the matrix onto the sample's rows.
pub fn bootstrap_emd_population<T: VariantOrd, C: BootstrapTestComparator<T>>(
    comparator: &C,
    reference_stochastic_language: &StochasticLanguage<T>,
    resample_size: usize,
    distribution_size: usize,
    seed: Option<u64>,
) -> (draws: Vec<BootstrapDraw>)
    requires
        reference_stochastic_language.wf(),
        reference_stochastic_language.total > 0,
        resample_size > 0,
        all_reps_wf(*comparator, reference_stochastic_language.variants@),
    ensures
        draws@.len() == distribution_size,
        forall|k: int|
            0 <= k < distribution_size ==> bootstrap_draw_wf(
                *comparator,
                *reference_stochastic_language,
                resample_size as int,
                #[trigger] draws@[k],
            ),
{
    let reference = reference_stochastic_language;
    let distance_matrix = compute_distance_matrix(
        comparator,
        &reference.variants,
        &reference.variants,
    );
    let mut rng = if let Some(s) = seed {
        rng_from_seed(s)
    } else {
        rng_from_entropy()
    };
    let n1 = reference.variants.len();
    let mut draws: Vec<BootstrapDraw> = Vec::new();
    let mut d: usize = 0;
    while d < distribution_size
        invariant
            0 <= d <= distribution_size,
            reference.wf(),
            reference.total > 0,
            resample_size > 0,
            all_reps_wf(*comparator, reference.variants@),
            n1 == reference.variants@.len() == reference.counts@.len(),
            is_matrix(distance_matrix@, n1 as int, n1 as int),
            forall|i: int, j: int|
                0 <= i < n1 && 0 <= j < n1 ==> #[trigger] distance_matrix@[i]@[j]
                    == comparator.spec_cost(reference.variants@[i], reference.variants@[j]),
            draws@.len() == d,
            forall|k: int|
                0 <= k < d ==> bootstrap_draw_wf(
                    *comparator,
                    *reference,
                    resample_size as int,
                    #[trigger] draws@[k],
                ),
        decreases distribution_size - d,
    {
        let mut sample_indices: Vec<usize> = Vec::new();
        let mut s: usize = 0;
        while s < resample_size
            invariant
                0 <= s <= resample_size,
                reference.wf(),
                reference.total > 0,
                n1 == reference.variants@.len() == reference.counts@.len(),
                sample_indices@.len() == s,
                forall|k: int| 0 <= k < s ==> #[trigger] sample_indices@[k] < n1,
            decreases resample_size - s,
        {
            let idx = sample_index_weighted(&reference.counts, reference.total, &mut rng);
            sample_indices.push(idx);
            s += 1;
        }
        let ghost drawn = sample_indices@;
        let sample_language = StochasticLanguage::<usize>::from_items(sample_indices);
        proof {
            assert(seq_keys(drawn) =~= drawn);
            assert(seq_keys(sample_language.variants@) =~= sample_language.variants@);
            assert forall|r: int|
                0 <= r < sample_language.variants@.len()
                    implies #[trigger] sample_language.variants@[r] < n1 by {
                let v = sample_language.variants@[r];
                assert(sample_language.counts@[r] as nat == key_multiset(drawn).count(
                    seq_keys(sample_language.variants@)[r],
                ));
                assert(sample_language.counts@[r] >= 1);
                assert(drawn.to_multiset().count(v) > 0);
                assert(drawn.contains(v));
            }
        }
        let projected_costs = select_rows(&distance_matrix, &sample_language.variants);
        let source_weights = clone_counts(&sample_language.counts);
        let target_weights = clone_counts(&reference.counts);
        let instance = EmdInstance { source_weights, target_weights, costs: projected_costs };
        proof {
            assert(is_matrix(
                instance.costs@,
                sample_language.variants@.len() as int,
                n1 as int,
            )) by {
                assert(forall|r: int|
                    0 <= r < sample_language.variants@.len()
                        ==> (#[trigger] instance.costs@[r])@ == distance_matrix@[
                    sample_language.variants@[r] as int]@);
            }
        }
        draws.push(BootstrapDraw { sample_language, instance });
        d += 1;
    }
    draws
}

/// An exact copy of a vector of counts.
pub fn clone_counts(v: &Vec<u64>) -> (r: Vec<u64>)
    ensures
        r@ == v@,
{
    let mut out: Vec<u64> = Vec::new();
    let mut i: usize = 0;
    while i < v.len()
        invariant
            0 <= i <= v@.len(),
            out@.len() == i,
            forall|k: int| 0 <= k < i ==> #[trigger] out@[k] == v@[k],
        decreases v@.len() - i,
    {
        out.push(v[i]);
        i += 1;
    }
    proof {
        assert(out@ =~= v@);
    }
    out
}

/// The whole prepared bootstrap comparison: the two logs' stochastic
/// languages, the observed transportation instance between them, and one
/// instance per bootstrap iteration. The caller runs each instance through
/// the solver; the p-value is the fraction of bootstrap distances strictly
/// greater than the observed one.
pub struct BootstrapRun<T: VariantOrd> {
    pub language_1: StochasticLanguage<T>,
    pub language_2: StochasticLanguage<T>,
    pub observed: EmdInstance,
    pub draws: Vec<BootstrapDraw>,
}

/// Prepares a bootstrap comparison of two extracted behavior populations:
/// builds both stochastic languages, the observed instance between them, and
/// the `distribution_size` bootstrap instances over the first language.
pub fn bootstrap_test_prepare<T: VariantOrd, C: BootstrapTestComparator<T>>(
    comparator: &C,
    behavior_1: Vec<T>,
    behavior_2: Vec<T>,
    resample_size: usize,
    distribution_size: usize,
    seed: Option<u64>,
) -> (run: BootstrapRun<T>)
    requires
        behavior_1@.len() > 0,
        resample_size > 0,
        all_reps_wf(*comparator, behavior_1@),
        all_reps_wf(*comparator, behavior_2@),
    ensures
        run.language_1.wf() && run.language_1.describes(behavior_1@),
        run.language_2.wf() && run.language_2.describes(behavior_2@),
        run.observed.source_weights@ == run.language_1.counts@,
        run.observed.target_weights@ == run.language_2.counts@,
        is_matrix(
            run.observed.costs@,
            run.language_1.variants@.len() as int,
            run.language_2.variants@.len() as int,
        ),
        forall|i: int, j: int|
            0 <= i < run.language_1.variants@.len() && 0 <= j < run.language_2.variants@.len()
                ==> #[trigger] run.observed.costs@[i]@[j] == comparator.spec_cost(
                run.language_1.variants@[i],
                run.language_2.variants@[j],
            ),
        run.draws@.len() == distribution_size,
        forall|k: int|
            0 <= k < distribution_size ==> bootstrap_draw_wf(
                *comparator,
                run.language_1,
                resample_size as int,
                #[trigger] run.draws@[k],
            ),
{
    let ghost items_1 = behavior_1@;
    let ghost items_2 = behavior_2@;
    let language_1 = StochasticLanguage::from_items(behavior_1);
    let language_2 = StochasticLanguage::from_items(behavior_2);
    proof {
        lemma_language_reps_wf(*comparator, language_1, items_1);
        lemma_language_reps_wf(*comparator, language_2, items_2);
    }
    let observed_costs = compute_distance_matrix(
        comparator,
        &language_1.variants,
        &language_2.variants,
    );
    let observed = EmdInstance {
        source_weights: clone_counts(&language_1.counts),
        target_weights: clone_counts(&language_2.counts),
        costs: observed_costs,
    };
    let draws = bootstrap_emd_population(
        comparator,
        &language_1,
        resample_size,
        distribution_size,
        seed,
    );
    BootstrapRun { language_1, language_2, observed, draws }
}

} // verus!
