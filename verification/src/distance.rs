//! Weighted Levenshtein (edit) distance between token sequences.
//!
//! The per-token insertion, deletion and substitution costs of a token type
//! are integer numerators over a fixed scale ([`LevenshteinDistance`]), so the
//! dynamic program runs on exact integers; the post-normalized distance is the
//! fraction `dp_value / (scale * max(len_1, len_2))`.

use vstd::prelude::*;

use crate::fraction::Fraction;

verus! {

/// Capability interface of a token type usable with the weighted edit
/// distance: per-token insertion/deletion/substitution costs, expressed as
/// integer numerators over the common denominator `spec_scale()`.
pub trait LevenshteinDistance: Sized {
    /// The tokens on which the cost model is defined.
    spec fn wf(&self) -> bool;

    /// Token equality as the cost model sees it.
    spec fn token_eq(&self, other: &Self) -> bool;

    spec fn spec_insertion_cost(&self) -> int;

    spec fn spec_deletion_cost(&self) -> int;

    spec fn spec_substitution_cost(&self, other: &Self) -> int;

    /// The common denominator that turns the integer costs into rationals.
    spec fn spec_scale() -> int;

    /// An upper bound on every per-token cost.
    spec fn spec_max_cost() -> int;

    /// The laws every cost model obeys: costs are non-negative and bounded,
    /// equal tokens substitute for free, and token equality is reflexive.
    proof fn lemma_cost_bounds(&self, other: &Self)
        requires
            self.wf(),
            other.wf(),
        ensures
            0 <= self.spec_insertion_cost() <= Self::spec_max_cost(),
            0 <= self.spec_deletion_cost() <= Self::spec_max_cost(),
            0 <= self.spec_substitution_cost(other) <= Self::spec_max_cost(),
            self.token_eq(other) ==> self.spec_substitution_cost(other) == 0,
            self.token_eq(self),
    ;

    /// Type-level bounds that hold independently of any token.
    proof fn lemma_metric_bounds()
        ensures
            Self::spec_max_cost() >= 0,
            Self::spec_scale() >= 1,
    ;

    fn insertion_cost(&self) -> (c: u64)
        requires
            self.wf(),
        ensures
            c == self.spec_insertion_cost(),
    ;

    fn deletion_cost(&self) -> (c: u64)
        requires
            self.wf(),
        ensures
            c == self.spec_deletion_cost(),
    ;

    fn substitution_cost(&self, other: &Self) -> (c: u64)
        requires
            self.wf(),
            other.wf(),
        ensures
            c == self.spec_substitution_cost(other),
    ;

    fn eq_token(&self, other: &Self) -> (b: bool)
        requires
            self.wf(),
            other.wf(),
        ensures
            b == self.token_eq(other),
    ;

    fn scale() -> (s: u64)
        ensures
            s == Self::spec_scale(),
    ;
}

/// All tokens of a sequence lie in the cost model's domain.
pub open spec fn all_wf<T: LevenshteinDistance>(s: Seq<T>) -> bool {
    forall|i: int| 0 <= i < s.len() ==> (#[trigger] s[i]).wf()
}

/// Minimum of three integers.
pub open spec fn spec_min3(x: int, y: int, z: int) -> int {
    if x <= y && x <= z {
        x
    } else if y <= z {
        y
    } else {
        z
    }
}

fn min3(x: u64, y: u64, z: u64) -> (r: u64)
    ensures
        r == spec_min3(x as int, y as int, z as int),
{
    let xy = if x <= y {
        x
    } else {
        y
    };
    if xy <= z {
        xy
    } else {
        z
    }
}

/// Total insertion cost of a whole sequence: the cost of producing it from
/// the empty sequence.
pub open spec fn insertion_sum<T: LevenshteinDistance>(s: Seq<T>) -> int
    decreases s.len(),
{
    if s.len() == 0 {
        0
    } else {
        insertion_sum(s.drop_last()) + s.last().spec_insertion_cost()
    }
}

/// The weighted edit distance between two token sequences, defined by the
/// textbook recurrence: an empty side costs the insertion sum of the other
/// side, and otherwise the cheapest of deletion, insertion and substitution
/// is taken.
pub open spec fn spec_levenshtein<T: LevenshteinDistance>(a: Seq<T>, b: Seq<T>) -> int
    decreases a.len(), b.len(),
{
    if a.len() == 0 {
        insertion_sum(b)
    } else if b.len() == 0 {
        insertion_sum(a)
    } else {
        spec_min3(
            spec_levenshtein(a.drop_last(), b) + a.last().spec_deletion_cost(),
            spec_levenshtein(a, b.drop_last()) + b.last().spec_insertion_cost(),
            spec_levenshtein(a.drop_last(), b.drop_last()) + a.last().spec_substitution_cost(
                &b.last(),
            ),
        )
    }
}

/// The insertion sum of a sequence of in-domain tokens lies between 0 and
/// `max_cost * len`.
pub proof fn lemma_insertion_sum_bounds<T: LevenshteinDistance>(s: Seq<T>)
    requires
        all_wf(s),
    ensures
        0 <= insertion_sum(s) <= T::spec_max_cost() * s.len(),
    decreases s.len(),
{
    if s.len() == 0 {
    } else {
        assert(all_wf(s.drop_last()));
        lemma_insertion_sum_bounds(s.drop_last());
        s.last().lemma_cost_bounds(&s.last());
        assert(T::spec_max_cost() * (s.len() - 1) + T::spec_max_cost() == T::spec_max_cost()
            * s.len()) by (nonlinear_arith);
    }
}

/// The edit distance between sequences of in-domain tokens lies between 0 and
/// `max_cost * (len_1 + len_2)`.
pub proof fn lemma_levenshtein_bounds<T: LevenshteinDistance>(a: Seq<T>, b: Seq<T>)
    requires
        all_wf(a),
        all_wf(b),
    ensures
        0 <= spec_levenshtein(a, b) <= T::spec_max_cost() * (a.len() + b.len()),
    decreases a.len(), b.len(),
{
    if a.len() == 0 {
        lemma_insertion_sum_bounds(b);
        assert(T::spec_max_cost() * (b.len() as int) == T::spec_max_cost() * (a.len() + b.len()));
    } else if b.len() == 0 {
        lemma_insertion_sum_bounds(a);
        assert(T::spec_max_cost() * (a.len() as int) == T::spec_max_cost() * (a.len() + b.len()));
    } else {
        assert(all_wf(a.drop_last()));
        assert(all_wf(b.drop_last()));
        lemma_levenshtein_bounds(a.drop_last(), b);
        lemma_levenshtein_bounds(a, b.drop_last());
        lemma_levenshtein_bounds(a.drop_last(), b.drop_last());
        a.last().lemma_cost_bounds(&b.last());
        b.last().lemma_cost_bounds(&a.last());
        let m = T::spec_max_cost();
        let la = a.len() as int;
        let lb = b.len() as int;
        assert(m * (la - 1 + lb) + m == m * (la + lb)) by (nonlinear_arith);
        assert(m * (la + lb - 1) + m == m * (la + lb)) by (nonlinear_arith);
        assert(m * (la - 1 + (lb - 1)) + m <= m * (la + lb)) by (nonlinear_arith)
            requires
                m >= 0,
                la >= 1,
                lb >= 1,
        ;
    }
}

/// Bounds used by the dynamic program: a prefix cell value is at most
/// `max_cost * (i + j)`, which is at most `max_cost * (len_1 + len_2)`.
proof fn lemma_prefix_bound<T: LevenshteinDistance>(s1: Seq<T>, s2: Seq<T>, i: int, j: int)
    requires
        all_wf(s1),
        all_wf(s2),
        0 <= i <= s1.len(),
        0 <= j <= s2.len(),
    ensures
        0 <= spec_levenshtein(s1.take(i), s2.take(j)) <= T::spec_max_cost() * (i + j),
        T::spec_max_cost() * (i + j) <= T::spec_max_cost() * (s1.len() + s2.len()),
{
    T::lemma_metric_bounds();
    assert(all_wf(s1.take(i)));
    assert(all_wf(s2.take(j)));
    lemma_levenshtein_bounds(s1.take(i), s2.take(j));
    assert(T::spec_max_cost() * (i + j) <= T::spec_max_cost() * (s1.len() + s2.len()))
        by (nonlinear_arith)
        requires
            T::spec_max_cost() >= 0,
            i + j <= s1.len() + s2.len(),
    ;
}

/// Sequences whose tokens are pairwise equal (in the cost model's sense) have
/// edit distance zero.
pub proof fn lemma_levenshtein_eq_zero<T: LevenshteinDistance>(a: Seq<T>, b: Seq<T>)
    requires
        all_wf(a),
        all_wf(b),
        a.len() == b.len(),
        forall|i: int| 0 <= i < a.len() ==> a[i].token_eq(&b[i]),
    ensures
        spec_levenshtein(a, b) == 0,
    decreases a.len(),
{
    lemma_levenshtein_bounds(a, b);
    if a.len() == 0 {
    } else {
        assert(all_wf(a.drop_last()));
        assert(all_wf(b.drop_last()));
        assert(forall|i: int|
            0 <= i < a.drop_last().len() ==> a.drop_last()[i].token_eq(&(b.drop_last()[i])));
        lemma_levenshtein_eq_zero(a.drop_last(), b.drop_last());
        a.last().lemma_cost_bounds(&b.last());
        assert(a.last().token_eq(&b.last()));
        lemma_levenshtein_bounds(a.drop_last(), b);
        lemma_levenshtein_bounds(a, b.drop_last());
    }
}

/// The generic weighted edit distance: a full dynamic program over exact
/// integer cost numerators, with a short circuit for pairwise-equal inputs.
pub fn weighted_levenshtein_distance<T: LevenshteinDistance>(trace_1: &[T], trace_2: &[T]) -> (r:
    u64)
    requires
        all_wf(trace_1@),
        all_wf(trace_2@),
        T::spec_max_cost() * (trace_1@.len() + trace_2@.len()) <= u64::MAX,
        trace_1@.len() + trace_2@.len() < usize::MAX,
    ensures
        r == spec_levenshtein(trace_1@, trace_2@),
{
    let ghost s1 = trace_1@;
    let ghost s2 = trace_2@;
    let len_1 = trace_1.len();
    let len_2 = trace_2.len();

    // Identical traces short-circuit to distance 0 without running the DP.
    if len_1 == len_2 {
        let mut k: usize = 0;
        let mut all_eq = true;
        while k < len_1
            invariant
                0 <= k <= len_1,
                len_1 == s1.len() == s2.len(),
                trace_1@ == s1,
                trace_2@ == s2,
                all_wf(s1),
                all_wf(s2),
                all_eq == (forall|i: int| 0 <= i < k ==> s1[i].token_eq(&s2[i])),
            decreases len_1 - k,
        {
            if !trace_1[k].eq_token(&trace_2[k]) {
                all_eq = false;
                assert(!s1[k as int].token_eq(&s2[k as int]));
            }
            k += 1;
        }
        if all_eq {
            proof {
                lemma_levenshtein_eq_zero(s1, s2);
            }
            return 0;
        }
    }

    // Row 0: cumulative insertion costs of `trace_2`.
    let mut prev: Vec<u64> = Vec::new();
    prev.push(0);
    let mut j: usize = 1;
    while j <= len_2
        invariant
            1 <= j <= len_2 + 1,
            len_1 == s1.len(),
            len_2 == s2.len(),
            trace_1@ == s1,
            trace_2@ == s2,
            all_wf(s1),
            all_wf(s2),
            T::spec_max_cost() * (s1.len() + s2.len()) <= u64::MAX,
            s1.len() + s2.len() < usize::MAX,
            prev.len() == j,
            forall|k: int|
                0 <= k < j ==> prev[k] == spec_levenshtein(s1.take(0), s2.take(k)),
        decreases len_2 + 1 - j,
    {
        proof {
            lemma_prefix_bound(s1, s2, 0, j - 1);
            s2[j - 1].lemma_cost_bounds(&s2[j - 1]);
            assert(T::spec_max_cost() * (0 + (j - 1)) + T::spec_max_cost() == T::spec_max_cost() * (
            0 + j)) by (nonlinear_arith);
            lemma_prefix_bound(s1, s2, 0, j as int);
            assert(s2.take(j as int).drop_last() =~= s2.take(j - 1));
            assert(s1.take(0) =~= Seq::<T>::empty());
            assert(spec_levenshtein(s1.take(0), s2.take(j as int)) == insertion_sum(
                s2.take(j as int),
            ));
        }
        let c = trace_2[j - 1].insertion_cost();
        let prev_val = prev[j - 1];
        prev.push(prev_val + c);
        j += 1;
    }

    // Remaining rows.
    let mut i: usize = 1;
    while i <= len_1
        invariant
            1 <= i <= len_1 + 1,
            len_1 == s1.len(),
            len_2 == s2.len(),
            trace_1@ == s1,
            trace_2@ == s2,
            all_wf(s1),
            all_wf(s2),
            T::spec_max_cost() * (s1.len() + s2.len()) <= u64::MAX,
            s1.len() + s2.len() < usize::MAX,
            prev.len() == len_2 + 1,
            forall|k: int|
                0 <= k <= len_2 ==> prev[k] == spec_levenshtein(s1.take(i - 1), s2.take(k)),
        decreases len_1 + 1 - i,
    {
        let mut curr: Vec<u64> = Vec::new();
        proof {
            lemma_prefix_bound(s1, s2, i - 1, 0);
            s1[i - 1].lemma_cost_bounds(&s1[i - 1]);
            assert(T::spec_max_cost() * ((i - 1) + 0) + T::spec_max_cost() == T::spec_max_cost() * (
            i + 0)) by (nonlinear_arith);
            lemma_prefix_bound(s1, s2, i as int, 0);
            assert(s1.take(i as int).drop_last() =~= s1.take(i - 1));
            assert(s2.take(0) =~= Seq::<T>::empty());
            assert(spec_levenshtein(s1.take(i as int), s2.take(0)) == insertion_sum(
                s1.take(i as int),
            ));
            assert(spec_levenshtein(s1.take(i - 1), s2.take(0)) == insertion_sum(s1.take(i - 1)));
        }
        let c0 = trace_1[i - 1].insertion_cost();
        let base = prev[0];
        curr.push(base + c0);
        let mut j: usize = 1;
        while j <= len_2
            invariant
                1 <= i <= len_1,
                1 <= j <= len_2 + 1,
                len_1 == s1.len(),
                len_2 == s2.len(),
                trace_1@ == s1,
                trace_2@ == s2,
                all_wf(s1),
                all_wf(s2),
                T::spec_max_cost() * (s1.len() + s2.len()) <= u64::MAX,
                s1.len() + s2.len() < usize::MAX,
                prev.len() == len_2 + 1,
                forall|k: int|
                    0 <= k <= len_2 ==> prev[k] == spec_levenshtein(s1.take(i - 1), s2.take(k)),
                curr.len() == j,
                forall|k: int|
                    0 <= k < j ==> curr[k] == spec_levenshtein(s1.take(i as int), s2.take(k)),
            decreases len_2 + 1 - j,
        {
            proof {
                let m = T::spec_max_cost();
                lemma_prefix_bound(s1, s2, i - 1, j as int);
                lemma_prefix_bound(s1, s2, i as int, j - 1);
                lemma_prefix_bound(s1, s2, i - 1, j - 1);
                s1[i - 1].lemma_cost_bounds(&s2[j - 1]);
                s2[j - 1].lemma_cost_bounds(&s2[j - 1]);
                assert(m * ((i - 1) + j) + m == m * (i + j)) by (nonlinear_arith);
                assert(m * (i + (j - 1)) + m == m * (i + j)) by (nonlinear_arith);
                assert(m * ((i - 1) + (j - 1)) + m <= m * (i + j)) by (nonlinear_arith)
                    requires
                        m >= 0,
                        i >= 1,
                        j >= 1,
                ;
                lemma_prefix_bound(s1, s2, i as int, j as int);
                assert(s1.take(i as int).drop_last() =~= s1.take(i - 1));
                assert(s2.take(j as int).drop_last() =~= s2.take(j - 1));
                assert(s1.take(i as int).last() == s1[i - 1]);
                assert(s2.take(j as int).last() == s2[j - 1]);
            }
            let del_c = trace_1[i - 1].deletion_cost();
            let ins_c = trace_2[j - 1].insertion_cost();
            let sub_c = trace_1[i - 1].substitution_cost(&trace_2[j - 1]);
            let up = prev[j];
            let left = curr[j - 1];
            let diag = prev[j - 1];
            let v = min3(up + del_c, left + ins_c, diag + sub_c);
            curr.push(v);
            j += 1;
        }
        prev = curr;
        i += 1;
    }
    proof {
        assert(s1.take(len_1 as int) =~= s1);
        assert(s2.take(len_2 as int) =~= s2);
    }
    prev[len_2]
}

/// The larger of two lengths.
pub open spec fn spec_max_len(x: int, y: int) -> int {
    if x >= y {
        x
    } else {
        y
    }
}

/// The post-normalized distance as a spec-level value: the edit distance over
/// `scale * max(len_1, len_2)`, and zero for two empty (hence identical)
/// sequences.
pub open spec fn spec_postnormalized<T: LevenshteinDistance>(a: Seq<T>, b: Seq<T>) -> Fraction {
    if a.len() == 0 && b.len() == 0 {
        Fraction { num: 0, den: 1 }
    } else {
        Fraction {
            num: spec_levenshtein(a, b) as u64,
            den: (T::spec_scale() * spec_max_len(a.len() as int, b.len() as int)) as u64,
        }
    }
}

/// The weighted edit distance divided by the longer sequence's length, as the
/// exact fraction `distance / (scale * max(len_1, len_2))`. Two empty
/// sequences are identical, so their distance is zero.
pub fn postnormalized_weighted_levenshtein_distance<T: LevenshteinDistance>(
    trace_1: &[T],
    trace_2: &[T],
) -> (r: Fraction)
    requires
        all_wf(trace_1@),
        all_wf(trace_2@),
        T::spec_max_cost() * (trace_1@.len() + trace_2@.len()) <= u64::MAX,
        trace_1@.len() + trace_2@.len() < usize::MAX,
        T::spec_scale() * spec_max_len(trace_1@.len() as int, trace_2@.len() as int) <= u64::MAX,
    ensures
        r == spec_postnormalized(trace_1@, trace_2@),
        r.wf(),
        trace_1@.len() == 0 && trace_2@.len() == 0 ==> r.num == 0 && r.den == 1,
        trace_1@.len() > 0 || trace_2@.len() > 0 ==> r.num == spec_levenshtein(trace_1@, trace_2@)
            && r.den == T::spec_scale() * spec_max_len(
            trace_1@.len() as int,
            trace_2@.len() as int,
        ),
{
    let length = if trace_1.len() >= trace_2.len() {
        trace_1.len()
    } else {
        trace_2.len()
    };
    if length == 0 {
        return Fraction::zero();
    }
    let distance = weighted_levenshtein_distance(trace_1, trace_2);
    let scale = T::scale();
    proof {
        T::lemma_metric_bounds();
        assert(T::spec_scale() * spec_max_len(trace_1@.len() as int, trace_2@.len() as int) >= 1)
            by (nonlinear_arith)
            requires
                T::spec_scale() >= 1,
                spec_max_len(trace_1@.len() as int, trace_2@.len() as int) >= 1,
        ;
    }
    proof {
        lemma_levenshtein_bounds(trace_1@, trace_2@);
    }
    Fraction::new(distance, scale * (length as u64))
}

/// The edit distance depends only on the per-token costs: two pairs of
/// sequences whose tokens cost the same, position for position, have the same
/// distance.
pub proof fn lemma_levenshtein_congruence<T: LevenshteinDistance>(
    a1: Seq<T>,
    b1: Seq<T>,
    a2: Seq<T>,
    b2: Seq<T>,
)
    requires
        a1.len() == a2.len(),
        b1.len() == b2.len(),
        forall|i: int|
            0 <= i < a1.len() ==> (#[trigger] a1[i]).spec_insertion_cost() == a2[
                i
            ].spec_insertion_cost() && a1[i].spec_deletion_cost() == a2[i].spec_deletion_cost(),
        forall|j: int|
            0 <= j < b1.len() ==> (#[trigger] b1[j]).spec_insertion_cost() == b2[
                j
            ].spec_insertion_cost() && b1[j].spec_deletion_cost() == b2[j].spec_deletion_cost(),
        forall|i: int, j: int|
            0 <= i < a1.len() && 0 <= j < b1.len() ==> #[trigger] a1[i].spec_substitution_cost(
                &b1[j],
            ) == a2[i].spec_substitution_cost(&b2[j]),
    ensures
        spec_levenshtein(a1, b1) == spec_levenshtein(a2, b2),
    decreases a1.len(), b1.len(),
{
    if a1.len() == 0 {
        lemma_insertion_sum_congruence(b1, b2);
    } else if b1.len() == 0 {
        lemma_insertion_sum_congruence(a1, a2);
    } else {
        lemma_levenshtein_congruence(a1.drop_last(), b1, a2.drop_last(), b2);
        lemma_levenshtein_congruence(a1, b1.drop_last(), a2, b2.drop_last());
        lemma_levenshtein_congruence(a1.drop_last(), b1.drop_last(), a2.drop_last(), b2.drop_last());
        assert(a1.last().spec_substitution_cost(&b1.last()) == a2.last().spec_substitution_cost(
            &b2.last(),
        ));
        assert(a1.last().spec_deletion_cost() == a2.last().spec_deletion_cost());
        assert(b1.last().spec_insertion_cost() == b2.last().spec_insertion_cost());
    }
}

/// The insertion sum likewise depends only on the per-token insertion costs.
pub proof fn lemma_insertion_sum_congruence<T: LevenshteinDistance>(s1: Seq<T>, s2: Seq<T>)
    requires
        s1.len() == s2.len(),
        forall|i: int|
            0 <= i < s1.len() ==> (#[trigger] s1[i]).spec_insertion_cost() == s2[
                i
            ].spec_insertion_cost(),
    ensures
        insertion_sum(s1) == insertion_sum(s2),
    decreases s1.len(),
{
    if s1.len() > 0 {
        lemma_insertion_sum_congruence(s1.drop_last(), s2.drop_last());
    }
}

/// The edit distance from a sequence of in-domain tokens to itself is zero.
pub proof fn lemma_distance_self_is_zero<T: LevenshteinDistance>(a: Seq<T>)
    requires
        all_wf(a),
    ensures
        spec_levenshtein(a, a) == 0,
{
    assert forall|i: int| 0 <= i < a.len() implies a[i].token_eq(&a[i]) by {
        a[i].lemma_cost_bounds(&a[i]);
    }
    lemma_levenshtein_eq_zero(a, a);
}

/// The edit distance is symmetric whenever the per-token costs are: each
/// token's insertion and deletion cost agree, and substitution is symmetric.
pub proof fn lemma_distance_symmetric<T: LevenshteinDistance>(a: Seq<T>, b: Seq<T>)
    requires
        forall|i: int, j: int|
            0 <= i < a.len() && 0 <= j < b.len() ==> a[i].spec_substitution_cost(&b[j]) == b[j]
                .spec_substitution_cost(&a[i]),
        forall|i: int|
            0 <= i < a.len() ==> (#[trigger] a[i]).spec_insertion_cost() == a[
                i
            ].spec_deletion_cost(),
        forall|i: int|
            0 <= i < b.len() ==> (#[trigger] b[i]).spec_insertion_cost() == b[
                i
            ].spec_deletion_cost(),
    ensures
        spec_levenshtein(a, b) == spec_levenshtein(b, a),
    decreases a.len(), b.len(),
{
    if a.len() == 0 && b.len() == 0 {
    } else if a.len() == 0 {
        assert(spec_levenshtein(a, b) == insertion_sum(b));
        assert(spec_levenshtein(b, a) == insertion_sum(b));
    } else if b.len() == 0 {
        assert(spec_levenshtein(a, b) == insertion_sum(a));
        assert(spec_levenshtein(b, a) == insertion_sum(a));
    } else {
        lemma_distance_symmetric(a.drop_last(), b);
        lemma_distance_symmetric(a, b.drop_last());
        lemma_distance_symmetric(a.drop_last(), b.drop_last());
        assert(a.last().spec_substitution_cost(&b.last()) == b.last().spec_substitution_cost(
            &a.last(),
        ));
        assert(a.last().spec_insertion_cost() == a.last().spec_deletion_cost());
        assert(b.last().spec_insertion_cost() == b.last().spec_deletion_cost());
    }
}

/// The sharper length bound behind post-normalization: the edit distance is
/// at most `max_cost * max(len_1, len_2)`.
pub proof fn lemma_levenshtein_max_len_bound<T: LevenshteinDistance>(a: Seq<T>, b: Seq<T>)
    requires
        all_wf(a),
        all_wf(b),
    ensures
        spec_levenshtein(a, b) <= T::spec_max_cost() * spec_max_len(
            a.len() as int,
            b.len() as int,
        ),
    decreases a.len(), b.len(),
{
    if a.len() == 0 {
        lemma_insertion_sum_bounds(b);
    } else if b.len() == 0 {
        lemma_insertion_sum_bounds(a);
    } else {
        assert(all_wf(a.drop_last()));
        assert(all_wf(b.drop_last()));
        lemma_levenshtein_max_len_bound(a.drop_last(), b.drop_last());
        lemma_levenshtein_bounds(a.drop_last(), b);
        lemma_levenshtein_bounds(a, b.drop_last());
        lemma_levenshtein_bounds(a.drop_last(), b.drop_last());
        a.last().lemma_cost_bounds(&b.last());
        let m = T::spec_max_cost();
        assert(m * spec_max_len(a.len() - 1, b.len() - 1) + m == m * spec_max_len(
            a.len() as int,
            b.len() as int,
        )) by (nonlinear_arith)
            requires
                a.len() >= 1,
                b.len() >= 1,
                spec_max_len(a.len() - 1, b.len() - 1) + 1 == spec_max_len(
                    a.len() as int,
                    b.len() as int,
                ),
        ;
    }
}

/// When every per-token cost is at most the scale (i.e. at most 1 after
/// dividing by the scale), the post-normalized distance is at most 1: the
/// numerator is bounded by the denominator `scale * max(len_1, len_2)`.
pub proof fn lemma_postnormalized_bounded<T: LevenshteinDistance>(a: Seq<T>, b: Seq<T>)
    requires
        all_wf(a),
        all_wf(b),
        T::spec_max_cost() <= T::spec_scale(),
    ensures
        0 <= spec_levenshtein(a, b) <= T::spec_scale() * spec_max_len(
            a.len() as int,
            b.len() as int,
        ),
{
    lemma_levenshtein_bounds(a, b);
    lemma_levenshtein_max_len_bound(a, b);
    assert(T::spec_max_cost() * spec_max_len(a.len() as int, b.len() as int) <= T::spec_scale()
        * spec_max_len(a.len() as int, b.len() as int)) by (nonlinear_arith)
        requires
            T::spec_max_cost() <= T::spec_scale(),
            spec_max_len(a.len() as int, b.len() as int) >= 0,
    ;
}

} // verus!
