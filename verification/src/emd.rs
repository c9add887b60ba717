//! The boundary to the Earth Mover's Distance solver, and p-value estimation.
//!
//! The transportation solver itself is an external collaborator: this crate
//! assembles exact [`EmdInstance`]s (two weight vectors and a cost matrix),
//! the caller runs each instance through a solver, and the p-value is the
//! exact fraction of resampled distances that exceed the observed one.

use vstd::multiset::Multiset;
use vstd::prelude::*;

use crate::fraction::Fraction;
use crate::matrix::is_matrix;

verus! {

/// Failure of the network-simplex transportation solver.
#[derive(Clone, Copy, Debug, PartialEq, Eq, Structural)]
pub enum FastTransportError {
    Infeasible,
    Unbounded,
    MaxIterReached,
}

impl FastTransportError {
    /// Classifies a solver result code; code 1 means an optimal solution and
    /// is not an error, and other codes do not occur.
    pub fn from(value: i32) -> (r: FastTransportError)
        requires
            value == 0 || value == 2 || value == 3,
        ensures
            value == 0 ==> r == FastTransportError::Infeasible,
            value == 2 ==> r == FastTransportError::Unbounded,
            value == 3 ==> r == FastTransportError::MaxIterReached,
    {
        if value == 0 {
            FastTransportError::Infeasible
        } else if value == 2 {
            FastTransportError::Unbounded
        } else {
            FastTransportError::MaxIterReached
        }
    }
}

/// Everything that can go wrong when handing an instance to the solver:
/// mismatched dimensions, a solver failure, or a non-positive iteration
/// budget.
#[derive(Clone, Copy, Debug, PartialEq, Eq, Structural)]
pub enum EmdError {
    WeightDimensionError(usize, usize, usize, usize),
    FastTransportError(FastTransportError),
    InvalidIterations(i32),
}

/// One exact transportation problem: source and target weights (occurrence
/// counts of two stochastic languages) and the cost of moving a unit of mass
/// between any source/target variant pair.
#[derive(Clone, Debug, PartialEq)]
pub struct EmdInstance {
    pub source_weights: Vec<u64>,
    pub target_weights: Vec<u64>,
    pub costs: Vec<Vec<Fraction>>,
}

impl EmdInstance {
    /// The cost matrix is `|source| x |target|`.
    pub open spec fn wf(&self) -> bool {
        is_matrix(self.costs@, self.source_weights@.len() as int, self.target_weights@.len() as int)
    }
}

/// The first offending row: every row before position `i` has the expected
/// width, and row `i`'s width is `d`, which differs from it.
#[verifier::opaque]
pub open spec fn first_row_width_mismatch(costs: Seq<Vec<Fraction>>, cols: int, d: int) -> bool {
    exists|i: int|
        0 <= i < costs.len() && (#[trigger] costs[i])@.len() == d && d != cols && (forall|j: int|
            0 <= j < i ==> (#[trigger] costs[j])@.len() == cols)
}

/// Checks that the cost matrix dimensions match the two weight vectors, as
/// the solver requires: returns `Ok` exactly when they do, and otherwise the
/// dimension error carrying both weight lengths, the matrix row count, and
/// the first offending row's width (or 0 when the row count itself is wrong).
pub fn check_emd_input_shapes(instance: &EmdInstance) -> (r: Result<(), EmdError>)
    ensures
        r is Ok <==> instance.wf(),
        r matches Err(e) ==> e matches EmdError::WeightDimensionError(a, b, c, d) && a
            == instance.source_weights@.len() && b == instance.target_weights@.len() && c
            == instance.costs@.len() && (c != a ==> d == 0) && (c == a
            ==> first_row_width_mismatch(instance.costs@, b as int, d as int)),
{
    let a_dim = instance.source_weights.len();
    let b_dim = instance.target_weights.len();
    let costs_dim_1 = instance.costs.len();
    if costs_dim_1 != a_dim {
        return Err(EmdError::WeightDimensionError(a_dim, b_dim, costs_dim_1, 0));
    }
    let mut i: usize = 0;
    while i < costs_dim_1
        invariant
            0 <= i <= costs_dim_1 == instance.costs@.len(),
            costs_dim_1 == a_dim == instance.source_weights@.len(),
            b_dim == instance.target_weights@.len(),
            forall|k: int| 0 <= k < i ==> (#[trigger] instance.costs@[k])@.len() == b_dim,
        decreases costs_dim_1 - i,
    {
        let row_len = instance.costs[i].len();
        if row_len != b_dim {
            proof {
                reveal(first_row_width_mismatch);
                assert(first_row_width_mismatch(instance.costs@, b_dim as int, row_len as int));
            }
            return Err(EmdError::WeightDimensionError(a_dim, b_dim, costs_dim_1, row_len));
        }
        i += 1;
    }
    Ok(())
}

/// How many entries of a sequence of exceed-flags are set.
pub open spec fn count_true(s: Seq<bool>) -> int
    decreases s.len(),
{
    if s.len() == 0 {
        0
    } else {
        count_true(s.drop_last()) + if s.last() {
            1int
        } else {
            0int
        }
    }
}

/// The number of set flags is the multiset count of `true`: the order of the
/// flags does not matter.
pub proof fn lemma_count_true_is_multiset_count(s: Seq<bool>)
    ensures
        count_true(s) == s.to_multiset().count(true),
    decreases s.len(),
{
    broadcast use vstd::seq_lib::group_to_multiset_ensures;

    if s.len() == 0 {
        assert(s.to_multiset() =~= Multiset::<bool>::empty());
    } else {
        lemma_count_true_is_multiset_count(s.drop_last());
        assert(s =~= s.drop_last().push(s.last()));
        assert(s.to_multiset() =~= s.drop_last().to_multiset().insert(s.last()));
    }
}

/// The p-value is invariant under permuting the order of the resampling
/// iterations: any reordering of the exceed-flags yields the same count.
pub proof fn lemma_count_true_permutation_invariant(a: Seq<bool>, b: Seq<bool>)
    requires
        a.to_multiset() == b.to_multiset(),
    ensures
        count_true(a) == count_true(b),
{
    lemma_count_true_is_multiset_count(a);
    lemma_count_true_is_multiset_count(b);
}

/// The count of set flags never exceeds the number of flags.
pub proof fn lemma_count_true_bounds(s: Seq<bool>)
    ensures
        0 <= count_true(s) <= s.len(),
    decreases s.len(),
{
    if s.len() > 0 {
        lemma_count_true_bounds(s.drop_last());
    }
}

/// The p-value of a resampling run: the fraction of resampled distances that
/// exceeded the observed one, given as one exceed-flag per iteration. The
/// result is an exact fraction in [0, 1].
pub fn pvalue_from_exceed_flags(flags: &Vec<bool>) -> (r: Fraction)
    requires
        flags@.len() > 0,
        flags@.len() <= u64::MAX,
    ensures
        r.num == count_true(flags@),
        r.den == flags@.len(),
        r.num <= r.den,
        r.wf(),
{
    let n = flags.len();
    let mut i: usize = 0;
    let mut c: u64 = 0;
    while i < n
        invariant
            0 <= i <= n == flags@.len(),
            n <= u64::MAX,
            c == count_true(flags@.take(i as int)),
            c <= i,
        decreases n - i,
    {
        proof {
            assert(flags@.take(i + 1).drop_last() =~= flags@.take(i as int));
            assert(flags@.take(i + 1).last() == flags@[i as int]);
            lemma_count_true_bounds(flags@.take(i as int));
        }
        if flags[i] {
            c = c + 1;
        }
        i += 1;
    }
    proof {
        assert(flags@.take(n as int) =~= flags@);
    }
    Fraction::new(c, n as u64)
}

} // verus!
