//! The permutation test for process hypothesis testing.
//!
//! The pooled cases of both logs are reshuffled between two groups of the
//! original sizes; the distances of all reshuffled pairs form the null
//! distribution against which the observed distance is judged. The pooled
//! symmetric distance matrix is computed once and projected per iteration.

use vstd::prelude::*;

use crate::emd::EmdInstance;
use crate::fraction::Fraction;
use crate::language::{key_multiset, strictly_sorted_keys, StochasticLanguage};
use crate::matrix::{has_key, index_of_key, is_matrix, select_submatrix};
use crate::order::{seq_keys, VariantOrd};
use crate::rng::{rng_from_entropy, rng_from_seed};
use crate::sampling::partial_shuffle;

verus! {

broadcast use vstd::seq_lib::group_to_multiset_ensures;

/// Strategy interface of the permutation test: a symmetric dissimilarity
/// measure between case representations, a function of the variants' keys
/// alone.
pub trait PermutationTestComparator<T: VariantOrd> {
    /// The representations the measure is defined on.
    spec fn rep_wf(&self, rep: T) -> bool;

    /// The dissimilarity of two representations, as an exact fraction.
    spec fn spec_cost(&self, rep_1: T, rep_2: T) -> Fraction;

    /// The cost of two representations in the measure's domain is a
    /// well-formed fraction.
    proof fn lemma_cost_wf(&self, rep_1: T, rep_2: T)
        requires
            self.rep_wf(rep_1),
            self.rep_wf(rep_2),
        ensures
            self.spec_cost(rep_1, rep_2).wf(),
    ;

    /// The domain is a property of the variant's key.
    proof fn lemma_rep_wf_respects_keys(&self, rep_1: T, rep_2: T)
        requires
            rep_1.key() == rep_2.key(),
            self.rep_wf(rep_1),
        ensures
            self.rep_wf(rep_2),
    ;

    /// The cost is a function of the variants' keys.
    proof fn lemma_cost_respects_keys(&self, a1: T, a2: T, b1: T, b2: T)
        requires
            a1.key() == a2.key(),
            b1.key() == b2.key(),
            self.rep_wf(a1),
            self.rep_wf(b1),
        ensures
            self.spec_cost(a1, b1) == self.spec_cost(a2, b2),
    ;

    /// The measure is symmetric: the symmetric matrix computation evaluates
    /// only the upper triangle and mirrors it.
    proof fn lemma_cost_symmetric(&self, rep_1: T, rep_2: T)
        requires
            self.rep_wf(rep_1),
            self.rep_wf(rep_2),
        ensures
            self.spec_cost(rep_1, rep_2) == self.spec_cost(rep_2, rep_1),
    ;

    fn cost(&self, rep_1: &T, rep_2: &T) -> (r: Fraction)
        requires
            self.rep_wf(*rep_1),
            self.rep_wf(*rep_2),
        ensures
            r == self.spec_cost(*rep_1, *rep_2),
    ;
}

/// Every representation of the sequence lies in the measure's domain.
pub open spec fn all_reps_wf_permutation<T: VariantOrd, C: PermutationTestComparator<T>>(
    comparator: C,
    s: Seq<T>,
) -> bool {
    forall|i: int| 0 <= i < s.len() ==> comparator.rep_wf(#[trigger] s[i])
}

/// A language built from in-domain items has in-domain variants.
pub proof fn lemma_language_reps_wf_permutation<T: VariantOrd, C: PermutationTestComparator<T>>(
    comparator: C,
    language: StochasticLanguage<T>,
    items: Seq<T>,
)
    requires
        language.wf(),
        language.describes(items),
        all_reps_wf_permutation(comparator, items),
    ensures
        all_reps_wf_permutation(comparator, language.variants@),
{
    assert forall|i: int|
        0 <= i < language.variants@.len() implies comparator.rep_wf(
        #[trigger] language.variants@[i],
    ) by {
        let k = seq_keys(language.variants@)[i];
        assert(language.counts@[i] as nat == key_multiset(items).count(k));
        assert(language.counts@[i] >= 1);
        assert(seq_keys(items).to_multiset().count(k) > 0);
        assert(seq_keys(items).contains(k));
        let j = choose|j: int| 0 <= j < seq_keys(items).len() && seq_keys(items)[j] == k;
        assert(items[j].key() == k);
        assert(language.variants@[i].key() == k);
        comparator.lemma_rep_wf_respects_keys(items[j], language.variants@[i]);
    }
}

/// Computes the symmetric distance matrix over one variant list, exploiting
/// the measure's symmetry: cells below the diagonal are mirrored from the
/// already-computed upper triangle instead of being evaluated again.
pub fn compute_symmetric_distance_matrix<T: VariantOrd, C: PermutationTestComparator<T>>(
    comparator: &C,
    variants: &Vec<T>,
) -> (m: Vec<Vec<Fraction>>)
    requires
        all_reps_wf_permutation(*comparator, variants@),
    ensures
        is_matrix(m@, variants@.len() as int, variants@.len() as int),
        forall|i: int, j: int|
            0 <= i < variants@.len() && 0 <= j < variants@.len() ==> #[trigger] m@[i]@[j]
                == comparator.spec_cost(variants@[i], variants@[j]),
{
    let n = variants.len();
    let mut rows: Vec<Vec<Fraction>> = Vec::new();
    let mut i: usize = 0;
    while i < n
        invariant
            0 <= i <= n == variants@.len(),
            all_reps_wf_permutation(*comparator, variants@),
            rows@.len() == i,
            forall|k: int| 0 <= k < i ==> (#[trigger] rows@[k])@.len() == n,
            forall|k: int, j: int|
                0 <= k < i && 0 <= j < n ==> #[trigger] rows@[k]@[j] == comparator.spec_cost(
                    variants@[k],
                    variants@[j],
                ),
        decreases n - i,
    {
        let mut row: Vec<Fraction> = Vec::new();
        let mut j: usize = 0;
        while j < n
            invariant
                0 <= j <= n == variants@.len(),
                0 <= i < variants@.len(),
                all_reps_wf_permutation(*comparator, variants@),
                rows@.len() == i,
                forall|k: int| 0 <= k < i ==> (#[trigger] rows@[k])@.len() == n,
                forall|k: int, l: int|
                    0 <= k < i && 0 <= l < n ==> #[trigger] rows@[k]@[l] == comparator.spec_cost(
                        variants@[k],
                        variants@[l],
                    ),
                row@.len() == j,
                forall|k: int|
                    0 <= k < j ==> #[trigger] row@[k] == comparator.spec_cost(
                        variants@[i as int],
                        variants@[k],
                    ),
            decreases n - j,
        {
            if j < i {
                let v = rows[j][i];
                proof {
                    comparator.lemma_cost_symmetric(variants@[j as int], variants@[i as int]);
                }
                row.push(v);
            } else {
                row.push(comparator.cost(&variants[i], &variants[j]));
            }
            j += 1;
        }
        rows.push(row);
        i += 1;
    }
    rows
}

/// The symmetry-exploiting matrix agrees elementwise with the full pairwise
/// matrix of the same variant list: both carry exactly the measure's cost in
/// every cell.
pub proof fn lemma_symmetric_matrix_matches_full<T: VariantOrd, C: PermutationTestComparator<T>>(
    comparator: C,
    variants: Seq<T>,
    full: Seq<Vec<Fraction>>,
    symmetric: Seq<Vec<Fraction>>,
)
    requires
        is_matrix(full, variants.len() as int, variants.len() as int),
        is_matrix(symmetric, variants.len() as int, variants.len() as int),
        forall|i: int, j: int|
            0 <= i < variants.len() && 0 <= j < variants.len() ==> #[trigger] full[i]@[j]
                == comparator.spec_cost(variants[i], variants[j]),
        forall|i: int, j: int|
            0 <= i < variants.len() && 0 <= j < variants.len() ==> #[trigger] symmetric[i]@[j]
                == comparator.spec_cost(variants[i], variants[j]),
    ensures
        forall|i: int, j: int|
            0 <= i < variants.len() && 0 <= j < variants.len() ==> #[trigger] full[i]@[j]
                == symmetric[i]@[j],
{
}

/// The pooled case-to-variant index map: case `i` of the pooled population
/// (the first log's cases followed by the second's) maps to the position of
/// its variant in the combined population.
pub open spec fn pooled_case_variants<T: VariantOrd>(
    source: Seq<T>,
    behavior_1: Seq<T>,
    behavior_2: Seq<T>,
) -> Seq<usize> {
    Seq::new(
        (behavior_1.len() + behavior_2.len()) as nat,
        |i: int|
            if i < behavior_1.len() {
                index_of_key(source, behavior_1[i].key()) as usize
            } else {
                index_of_key(source, behavior_2[i - behavior_1.len()].key()) as usize
            },
    )
}

/// Each index of `s` replaced by the entry it selects in the table.
pub open spec fn map_indices(table: Seq<usize>, s: Seq<usize>) -> Seq<usize> {
    Seq::new(s.len(), |i: int| table[s[i] as int])
}

/// Mapping two index sequences with equal multisets through the same table
/// yields entry sequences with equal multisets.
proof fn lemma_mapped_multiset(table: Seq<usize>, a: Seq<usize>, b: Seq<usize>)
    requires
        a.to_multiset() == b.to_multiset(),
        forall|i: int| 0 <= i < a.len() ==> #[trigger] a[i] < table.len(),
    ensures
        map_indices(table, a).to_multiset() == map_indices(table, b).to_multiset(),
    decreases a.len(),
{
    assert(a.len() == a.to_multiset().len());
    assert(b.len() == b.to_multiset().len());
    if a.len() == 0 {
        assert(map_indices(table, a) =~= map_indices(table, b));
    } else {
        let x = a.last();
        let cx = table[x as int];
        assert(a.contains(x));
        assert(a.to_multiset().count(x) > 0);
        assert(b.contains(x));
        let j = choose|j: int| 0 <= j < b.len() && b[j] == x;
        assert forall|i: int| 0 <= i < b.len() implies #[trigger] b[i] < table.len() by {
            assert(b.contains(b[i]));
            assert(b.to_multiset().count(b[i]) > 0);
            assert(a.contains(b[i]));
        }
        let a1 = a.drop_last();
        let b1 = b.remove(j);
        assert(a1 =~= a.remove(a.len() - 1));
        assert(a1.to_multiset() =~= a.to_multiset().remove(x));
        assert(b1.to_multiset() =~= b.to_multiset().remove(x));
        lemma_mapped_multiset(table, a1, b1);
        // the mapped sequences decompose the same way
        assert(map_indices(table, a) =~= map_indices(table, a1).push(cx));
        assert(map_indices(table, a).to_multiset() =~= map_indices(table, a1).to_multiset().insert(
            cx,
        ));
        assert(map_indices(table, b1) =~= map_indices(table, b).remove(j));
        assert(map_indices(table, b)[j] == cx);
        assert(map_indices(table, b).remove(j).to_multiset() =~= map_indices(
            table,
            b,
        ).to_multiset().remove(cx));
        assert(map_indices(table, b).contains(cx));
        assert(map_indices(table, b).to_multiset().count(cx) > 0);
        assert(map_indices(table, b).to_multiset() =~= map_indices(
            table,
            b,
        ).to_multiset().remove(cx).insert(cx));
        assert(map_indices(table, a).to_multiset() =~= map_indices(table, b).to_multiset());
    }
}

/// One permutation iteration: the two reshuffled groups' stochastic languages
/// (over variant indices of the pooled population) and the transportation
/// instance pairing them. The ghost fields record the drawn groups as variant
/// index sequences.
pub struct PermutationDraw {
    pub sample_language_1: StochasticLanguage<usize>,
    pub sample_language_2: StochasticLanguage<usize>,
    pub instance: EmdInstance,
    pub translated_1: Ghost<Seq<usize>>,
    pub translated_2: Ghost<Seq<usize>>,
}

/// What every permutation iteration guarantees, whatever was reshuffled: the
/// two groups have the original sizes and together are a permutation of the
/// pooled cases (drawn without replacement), their languages are the
/// empirical distributions of the drawn variant indices, and each cost cell
/// of the instance is the pooled matrix's cell of the paired variants.
pub open spec fn permutation_draw_wf(
    dists: Seq<Vec<Fraction>>,
    pool_size: int,
    len_1: int,
    len_2: int,
    case_variants: Seq<usize>,
    draw: PermutationDraw,
) -> bool {
    &&& draw.sample_language_1.wf()
    &&& draw.sample_language_2.wf()
    &&& draw.translated_1@.len() == len_1
    &&& draw.translated_2@.len() == len_2
    &&& draw.translated_1@.to_multiset().add(draw.translated_2@.to_multiset())
        == case_variants.to_multiset()
    &&& draw.sample_language_1.describes(draw.translated_1@)
    &&& draw.sample_language_2.describes(draw.translated_2@)
    &&& forall|r: int|
        0 <= r < draw.sample_language_1.variants@.len()
            ==> #[trigger] draw.sample_language_1.variants@[r] < pool_size
    &&& forall|r: int|
        0 <= r < draw.sample_language_2.variants@.len()
            ==> #[trigger] draw.sample_language_2.variants@[r] < pool_size
    &&& draw.instance.source_weights@ == draw.sample_language_1.counts@
    &&& draw.instance.target_weights@ == draw.sample_language_2.counts@
    &&& is_matrix(
        draw.instance.costs@,
        draw.sample_language_1.variants@.len() as int,
        draw.sample_language_2.variants@.len() as int,
    )
    &&& forall|r: int, c: int|
        0 <= r < draw.sample_language_1.variants@.len() && 0 <= c
            < draw.sample_language_2.variants@.len() ==> #[trigger] draw.instance.costs@[r]@[c]
            == dists[draw.sample_language_1.variants@[r] as int]@[draw.sample_language_2.variants@[
            c
        ] as int]
}

/// If one sequence of indices is a permutation of another whose entries are
/// all below `n`, its entries are all below `n` too.
proof fn lemma_permuted_entries_bounded(a: Seq<usize>, b: Seq<usize>, n: int)
    requires
        a.to_multiset() == b.to_multiset(),
        forall|i: int| 0 <= i < a.len() ==> #[trigger] a[i] < n,
    ensures
        forall|i: int| 0 <= i < b.len() ==> #[trigger] b[i] < n,
{
    assert forall|i: int| 0 <= i < b.len() implies #[trigger] b[i] < n by {
        assert(b.contains(b[i]));
        assert(b.to_multiset().count(b[i]) > 0);
        assert(a.contains(b[i]));
    }
}

/// Computes the permutation distribution: the pooled case indices are
/// partially reshuffled and split into two groups of the original log sizes
/// (a draw without replacement); each group is translated back to pooled
/// variant indices, turned into a stochastic language, and paired through the
/// projected pooled matrix.
pub fn compute_permutation_test_distribution<T: VariantOrd>(
    dists: &Vec<Vec<Fraction>>,
    distance_matrix_source_population: &Vec<T>,
    behavior_1: &Vec<T>,
    behavior_2: &Vec<T>,
    distribution_size: usize,
    seed: Option<u64>,
) -> (draws: Vec<PermutationDraw>)
    requires
        is_matrix(
            dists@,
            distance_matrix_source_population@.len() as int,
            distance_matrix_source_population@.len() as int,
        ),
        strictly_sorted_keys::<T>(seq_keys(distance_matrix_source_population@)),
        forall|j: int|
            0 <= j < behavior_1@.len() ==> has_key(
                distance_matrix_source_population@,
                (#[trigger] behavior_1@[j]).key(),
            ),
        forall|j: int|
            0 <= j < behavior_2@.len() ==> has_key(
                distance_matrix_source_population@,
                (#[trigger] behavior_2@[j]).key(),
            ),
        behavior_1@.len() + behavior_2@.len() <= usize::MAX,
    ensures
        draws@.len() == distribution_size,
        forall|k: int|
            0 <= k < distribution_size ==> permutation_draw_wf(
                dists@,
                distance_matrix_source_population@.len() as int,
                behavior_1@.len() as int,
                behavior_2@.len() as int,
                pooled_case_variants(
                    distance_matrix_source_population@,
                    behavior_1@,
                    behavior_2@,
                ),
                #[trigger] draws@[k],
            ),
{
    let source = distance_matrix_source_population;
    let len_1 = behavior_1.len();
    let len_2 = behavior_2.len();
    let sample_size = len_1 + len_2;

    // case index (pooled across both logs) -> variant index in the source
    let mut case_to_variant: Vec<usize> = Vec::new();
    let mut i: usize = 0;
    while i < len_1
        invariant
            0 <= i <= len_1 == behavior_1@.len(),
            strictly_sorted_keys::<T>(seq_keys(source@)),
            forall|j: int|
                0 <= j < behavior_1@.len() ==> has_key(source@, (#[trigger] behavior_1@[j]).key()),
            case_to_variant@.len() == i,
            forall|k: int| 0 <= k < i ==> #[trigger] case_to_variant@[k] < source@.len(),
            forall|k: int|
                0 <= k < i ==> #[trigger] case_to_variant@[k] as int == index_of_key(
                    source@,
                    behavior_1@[k].key(),
                ),
        decreases len_1 - i,
    {
        case_to_variant.push(crate::matrix::position_of_key(source, &behavior_1[i]));
        i += 1;
    }
    let mut i: usize = 0;
    while i < len_2
        invariant
            0 <= i <= len_2 == behavior_2@.len(),
            strictly_sorted_keys::<T>(seq_keys(source@)),
            forall|j: int|
                0 <= j < behavior_2@.len() ==> has_key(source@, (#[trigger] behavior_2@[j]).key()),
            case_to_variant@.len() == len_1 + i,
            forall|k: int| 0 <= k < len_1 + i ==> #[trigger] case_to_variant@[k] < source@.len(),
            forall|k: int|
                0 <= k < len_1 ==> #[trigger] case_to_variant@[k] as int == index_of_key(
                    source@,
                    behavior_1@[k].key(),
                ),
            forall|k: int|
                len_1 <= k < len_1 + i ==> #[trigger] case_to_variant@[k] as int == index_of_key(
                    source@,
                    behavior_2@[k - len_1].key(),
                ),
        decreases len_2 - i,
    {
        case_to_variant.push(crate::matrix::position_of_key(source, &behavior_2[i]));
        i += 1;
    }

    proof {
        assert(case_to_variant@ =~= pooled_case_variants(source@, behavior_1@, behavior_2@));
    }

    let mut rng = if let Some(s) = seed {
        rng_from_seed(s)
    } else {
        rng_from_entropy()
    };

    let mut draws: Vec<PermutationDraw> = Vec::new();
    let mut d: usize = 0;
    while d < distribution_size
        invariant
            0 <= d <= distribution_size,
            len_1 == behavior_1@.len(),
            len_2 == behavior_2@.len(),
            sample_size == len_1 + len_2,
            is_matrix(dists@, source@.len() as int, source@.len() as int),
            case_to_variant@.len() == sample_size,
            forall|k: int| 0 <= k < sample_size ==> #[trigger] case_to_variant@[k] < source@.len(),
            case_to_variant@ == pooled_case_variants(source@, behavior_1@, behavior_2@),
            draws@.len() == d,
            forall|k: int|
                0 <= k < d ==> permutation_draw_wf(
                    dists@,
                    source@.len() as int,
                    len_1 as int,
                    len_2 as int,
                    pooled_case_variants(source@, behavior_1@, behavior_2@),
                    #[trigger] draws@[k],
                ),
        decreases distribution_size - d,
    {
        // the pooled case indices, partially reshuffled
        let mut sample: Vec<usize> = Vec::new();
        let mut c: usize = 0;
        while c < sample_size
            invariant
                0 <= c <= sample_size,
                sample@.len() == c,
                forall|k: int| 0 <= k < c ==> #[trigger] sample@[k] < sample_size,
                forall|k: int| 0 <= k < c ==> #[trigger] sample@[k] == k,
            decreases sample_size - c,
        {
            sample.push(c);
            c += 1;
        }
        let ghost initial_sample = sample@;
        partial_shuffle(&mut sample, len_1, &mut rng);
        proof {
            lemma_permuted_entries_bounded(initial_sample, sample@, sample_size as int);
        }

        // translate each group's case indices to pooled variant indices
        let mut translated_1: Vec<usize> = Vec::new();
        let mut t: usize = 0;
        while t < len_1
            invariant
                0 <= t <= len_1,
                len_1 <= sample@.len() == sample_size == case_to_variant@.len(),
                forall|k: int| 0 <= k < sample@.len() ==> #[trigger] sample@[k] < sample_size,
                forall|k: int|
                    0 <= k < sample_size ==> #[trigger] case_to_variant@[k] < source@.len(),
                translated_1@.len() == t,
                forall|k: int| 0 <= k < t ==> #[trigger] translated_1@[k] < source@.len(),
                forall|k: int|
                    0 <= k < t ==> #[trigger] translated_1@[k] == case_to_variant@[sample@[k] as int],
            decreases len_1 - t,
        {
            translated_1.push(case_to_variant[sample[t]]);
            t += 1;
        }
        let mut translated_2: Vec<usize> = Vec::new();
        let mut t: usize = len_1;
        while t < sample_size
            invariant
                len_1 <= t <= sample_size == sample@.len() == case_to_variant@.len(),
                forall|k: int| 0 <= k < sample@.len() ==> #[trigger] sample@[k] < sample_size,
                forall|k: int|
                    0 <= k < sample_size ==> #[trigger] case_to_variant@[k] < source@.len(),
                translated_2@.len() == t - len_1,
                forall|k: int| 0 <= k < t - len_1 ==> #[trigger] translated_2@[k] < source@.len(),
                forall|k: int|
                    0 <= k < t - len_1 ==> #[trigger] translated_2@[k] == case_to_variant@[sample@[
                        k + len_1
                    ] as int],
            decreases sample_size - t,
        {
            translated_2.push(case_to_variant[sample[t]]);
            t += 1;
        }
        let ghost t1 = translated_1@;
        let ghost t2 = translated_2@;
        proof {
            // the two groups together are a permutation of the pooled cases
            let ctv = case_to_variant@;
            assert(t1 =~= map_indices(ctv, sample@.take(len_1 as int)));
            assert(t2 =~= map_indices(ctv, sample@.skip(len_1 as int)));
            assert(t1 + t2 =~= map_indices(ctv, sample@)) by {
                assert(forall|k: int|
                    0 <= k < len_1 ==> #[trigger] (t1 + t2)[k] == ctv[sample@[k] as int]);
                assert(forall|k: int|
                    len_1 <= k < sample_size ==> #[trigger] (t1 + t2)[k] == ctv[sample@[
                        k
                    ] as int]);
            }
            vstd::seq_lib::lemma_multiset_commutative(t1, t2);
            lemma_mapped_multiset(ctv, sample@, initial_sample);
            assert(map_indices(ctv, initial_sample) =~= ctv);
            assert(t1.to_multiset().add(t2.to_multiset()) == ctv.to_multiset());
        }

        let sample_language_1 = StochasticLanguage::<usize>::from_items(translated_1);
        let sample_language_2 = StochasticLanguage::<usize>::from_items(translated_2);
        proof {
            lemma_index_language_variants_bounded(sample_language_1, t1, source@.len() as int);
            lemma_index_language_variants_bounded(sample_language_2, t2, source@.len() as int);
        }
        let projected = select_submatrix(
            dists,
            &sample_language_1.variants,
            &sample_language_2.variants,
        );
        let instance = EmdInstance {
            source_weights: crate::bootstrap::clone_counts(&sample_language_1.counts),
            target_weights: crate::bootstrap::clone_counts(&sample_language_2.counts),
            costs: projected,
        };
        draws.push(
            PermutationDraw {
                sample_language_1,
                sample_language_2,
                instance,
                translated_1: Ghost(t1),
                translated_2: Ghost(t2),
            },
        );
        d += 1;
    }
    draws
}

/// A language over variant indices drawn from `[0, n)` has variants below
/// `n`: every variant occurs among the items.
pub proof fn lemma_index_language_variants_bounded(
    language: StochasticLanguage<usize>,
    items: Seq<usize>,
    n: int,
)
    requires
        language.wf(),
        language.describes(items),
        forall|k: int| 0 <= k < items.len() ==> #[trigger] items[k] < n,
    ensures
        forall|r: int| 0 <= r < language.variants@.len() ==> #[trigger] language.variants@[r] < n,
{
    assert(seq_keys(items) =~= items);
    assert(seq_keys(language.variants@) =~= language.variants@);
    assert forall|r: int|
        0 <= r < language.variants@.len() implies #[trigger] language.variants@[r] < n by {
        let v = language.variants@[r];
        assert(language.counts@[r] as nat == key_multiset(items).count(
            seq_keys(language.variants@)[r],
        ));
        assert(language.counts@[r] >= 1);
        assert(items.to_multiset().count(v) > 0);
        assert(items.contains(v));
    }
}

/// The whole prepared permutation comparison: the two logs' stochastic
/// languages, the pooled deduplicated variant list with its symmetric
/// distance matrix (computed once), the observed transportation instance
/// between the two logs, and one instance per permutation iteration. The
/// caller runs each instance through the solver; the p-value is the fraction
/// of permutation distances strictly greater than the observed one.
pub struct PermutationRun<T: VariantOrd> {
    pub language_1: StochasticLanguage<T>,
    pub language_2: StochasticLanguage<T>,
    pub combined_variants: Vec<T>,
    pub pooled_matrix: Vec<Vec<Fraction>>,
    pub observed: EmdInstance,
    pub draws: Vec<PermutationDraw>,
}

/// Prepares a permutation-test comparison of two extracted behavior
/// populations: pools and deduplicates the variants, computes the pooled
/// symmetric distance matrix once, projects it onto the two logs for the
/// observed instance, and reshuffles cases `distribution_size` times.
pub fn permutation_test_prepare<T: VariantOrd, C: PermutationTestComparator<T>>(
    comparator: &C,
    behavior_1: Vec<T>,
    behavior_2: Vec<T>,
    distribution_size: usize,
    seed: Option<u64>,
) -> (run: PermutationRun<T>)
    requires
        behavior_1@.len() > 0,
        behavior_2@.len() > 0,
        behavior_1@.len() + behavior_2@.len() <= usize::MAX,
        all_reps_wf_permutation(*comparator, behavior_1@),
        all_reps_wf_permutation(*comparator, behavior_2@),
    ensures
        run.language_1.wf() && run.language_1.describes(behavior_1@),
        run.language_2.wf() && run.language_2.describes(behavior_2@),
        strictly_sorted_keys::<T>(seq_keys(run.combined_variants@)),
        all_reps_wf_permutation(*comparator, run.combined_variants@),
        is_matrix(
            run.pooled_matrix@,
            run.combined_variants@.len() as int,
            run.combined_variants@.len() as int,
        ),
        forall|i: int, j: int|
            0 <= i < run.combined_variants@.len() && 0 <= j < run.combined_variants@.len()
                ==> #[trigger] run.pooled_matrix@[i]@[j] == comparator.spec_cost(
                run.combined_variants@[i],
                run.combined_variants@[j],
            ),
        run.observed.source_weights@ == run.language_1.counts@,
        run.observed.target_weights@ == run.language_2.counts@,
        is_matrix(
            run.observed.costs@,
            run.language_1.variants@.len() as int,
            run.language_2.variants@.len() as int,
        ),
        forall|i: int, j: int|
            0 <= i < run.language_1.variants@.len() && 0 <= j < run.language_2.variants@.len()
                ==> #[trigger] run.observed.costs@[i]@[j] == comparator.spec_cost(
                run.language_1.variants@[i],
                run.language_2.variants@[j],
            ),
        run.draws@.len() == distribution_size,
        forall|k: int|
            0 <= k < distribution_size ==> permutation_draw_wf(
                run.pooled_matrix@,
                run.combined_variants@.len() as int,
                behavior_1@.len() as int,
                behavior_2@.len() as int,
                pooled_case_variants(run.combined_variants@, behavior_1@, behavior_2@),
                #[trigger] run.draws@[k],
            ),
{
    let ghost items_1 = behavior_1@;
    let ghost items_2 = behavior_2@;
    let len_1 = behavior_1.len();
    let len_2 = behavior_2.len();

    // pool key-preserving copies of all cases and deduplicate them into the
    // canonical combined variant list
    let mut pooled: Vec<T> = Vec::new();
    let mut i: usize = 0;
    while i < len_1
        invariant
            0 <= i <= len_1 == items_1.len(),
            behavior_1@ == items_1,
            pooled@.len() == i,
            forall|k: int| 0 <= k < i ==> (#[trigger] pooled@[k]).key() == items_1[k].key(),
        decreases len_1 - i,
    {
        pooled.push(behavior_1[i].duplicate());
        i += 1;
    }
    let mut i: usize = 0;
    while i < len_2
        invariant
            0 <= i <= len_2 == items_2.len(),
            behavior_2@ == items_2,
            len_1 == items_1.len(),
            pooled@.len() == len_1 + i,
            forall|k: int| 0 <= k < len_1 ==> (#[trigger] pooled@[k]).key() == items_1[k].key(),
            forall|k: int|
                len_1 <= k < len_1 + i ==> (#[trigger] pooled@[k]).key() == items_2[k - len_1].key(),
        decreases len_2 - i,
    {
        pooled.push(behavior_2[i].duplicate());
        i += 1;
    }
    let ghost pooled_items = pooled@;
    proof {
        assert forall|k: int|
            0 <= k < pooled_items.len() implies comparator.rep_wf(#[trigger] pooled_items[k]) by {
            if k < len_1 {
                comparator.lemma_rep_wf_respects_keys(items_1[k], pooled_items[k]);
            } else {
                comparator.lemma_rep_wf_respects_keys(items_2[k - len_1], pooled_items[k]);
            }
        }
    }
    let combined_language = StochasticLanguage::from_items(pooled);
    proof {
        lemma_language_reps_wf_permutation(*comparator, combined_language, pooled_items);
    }
    let StochasticLanguage { variants: combined_variants, counts: _, total: _ } =
        combined_language;
    let ghost combined = combined_variants@;

    let pooled_matrix = compute_symmetric_distance_matrix(comparator, &combined_variants);

    proof {
        // every case of either log has its variant in the combined list
        assert forall|j: int|
            0 <= j < items_1.len() implies has_key(combined, (#[trigger] items_1[j]).key()) by {
            assert(pooled_items[j].key() == items_1[j].key());
            assert(seq_keys(combined).contains(pooled_items[j].key()));
            let w = choose|w: int|
                0 <= w < seq_keys(combined).len() && seq_keys(combined)[w] == pooled_items[j].key();
            assert(combined[w].key() == items_1[j].key());
        }
        assert forall|j: int|
            0 <= j < items_2.len() implies has_key(combined, (#[trigger] items_2[j]).key()) by {
            assert(pooled_items[len_1 + j].key() == items_2[j].key());
            assert(seq_keys(combined).contains(pooled_items[len_1 + j].key()));
            let w = choose|w: int|
                0 <= w < seq_keys(combined).len() && seq_keys(combined)[w] == pooled_items[len_1
                    + j].key();
            assert(combined[w].key() == items_2[j].key());
        }
    }

    let draws = compute_permutation_test_distribution(
        &pooled_matrix,
        &combined_variants,
        &behavior_1,
        &behavior_2,
        distribution_size,
        seed,
    );

    let language_1 = StochasticLanguage::from_items(behavior_1);
    let language_2 = StochasticLanguage::from_items(behavior_2);
    proof {
        lemma_language_reps_wf_permutation(*comparator, language_1, items_1);
        lemma_language_reps_wf_permutation(*comparator, language_2, items_2);
        // each log's variants carry keys of the log's cases, hence of the pool
        assert forall|i: int|
            0 <= i < language_1.variants@.len() implies has_key(
            combined,
            (#[trigger] language_1.variants@[i]).key(),
        ) by {
            lemma_variant_key_among_items(language_1, items_1, i);
            let j = choose|j: int|
                0 <= j < items_1.len() && (#[trigger] items_1[j]).key() == language_1.variants@[
                    i
                ].key();
            assert(has_key(combined, items_1[j].key()));
        }
        assert forall|i: int|
            0 <= i < language_2.variants@.len() implies has_key(
            combined,
            (#[trigger] language_2.variants@[i]).key(),
        ) by {
            lemma_variant_key_among_items(language_2, items_2, i);
            let j = choose|j: int|
                0 <= j < items_2.len() && (#[trigger] items_2[j]).key() == language_2.variants@[
                    i
                ].key();
            assert(has_key(combined, items_2[j].key()));
        }
    }
    let observed_costs = crate::matrix::project_distance_matrix(
        &pooled_matrix,
        &combined_variants,
        &language_1,
        &language_2,
    );
    proof {
        assert forall|i: int, j: int|
            0 <= i < language_1.variants@.len() && 0 <= j
                < language_2.variants@.len() implies #[trigger] observed_costs@[i]@[j]
            == comparator.spec_cost(language_1.variants@[i], language_2.variants@[j]) by {
            let k1 = language_1.variants@[i].key();
            let k2 = language_2.variants@[j].key();
            let r = index_of_key(combined, k1);
            let c = index_of_key(combined, k2);
            assert(0 <= r < combined.len() && combined[r].key() == k1) by {
                assert(has_key(combined, k1));
            }
            assert(0 <= c < combined.len() && combined[c].key() == k2) by {
                assert(has_key(combined, k2));
            }
            assert(observed_costs@[i]@[j] == pooled_matrix@[r]@[c]);
            assert(pooled_matrix@[r]@[c] == comparator.spec_cost(combined[r], combined[c]));
            comparator.lemma_cost_respects_keys(
                combined[r],
                language_1.variants@[i],
                combined[c],
                language_2.variants@[j],
            );
        }
    }
    let observed = EmdInstance {
        source_weights: crate::bootstrap::clone_counts(&language_1.counts),
        target_weights: crate::bootstrap::clone_counts(&language_2.counts),
        costs: observed_costs,
    };
    PermutationRun { language_1, language_2, combined_variants, pooled_matrix, observed, draws }
}

/// Each variant of a language occurs among the items it describes: some item
/// carries the same key.
pub proof fn lemma_variant_key_among_items<T: VariantOrd>(
    language: StochasticLanguage<T>,
    items: Seq<T>,
    i: int,
)
    requires
        language.wf(),
        language.describes(items),
        0 <= i < language.variants@.len(),
    ensures
        exists|j: int|
            0 <= j < items.len() && (#[trigger] items[j]).key() == language.variants@[i].key(),
{
    let k = seq_keys(language.variants@)[i];
    assert(language.counts@[i] as nat == key_multiset(items).count(k));
    assert(language.counts@[i] >= 1);
    assert(seq_keys(items).to_multiset().count(k) > 0);
    assert(seq_keys(items).contains(k));
    let j = choose|j: int| 0 <= j < seq_keys(items).len() && seq_keys(items)[j] == k;
    assert(items[j].key() == k);
    assert(language.variants@[i].key() == k);
}

} // verus!
