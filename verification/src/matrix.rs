//! Dense distance matrices over variant lists, and their projections.
//!
//! A matrix is a vector of rows of exact fractions. The pooled matrix of the
//! permutation test is computed once and then projected onto sub-populations
//! by position lookup, instead of being recomputed per resampling iteration.

use vstd::prelude::*;

use crate::fraction::Fraction;
use crate::language::{strictly_sorted_keys, StochasticLanguage};
use crate::order::{seq_keys, VariantOrd};

verus! {

/// `m` is a `rows x cols` matrix.
pub open spec fn is_matrix(m: Seq<Vec<Fraction>>, rows: int, cols: int) -> bool {
    m.len() == rows && forall|i: int| 0 <= i < rows ==> (#[trigger] m[i])@.len() == cols
}

/// Some position of `s` carries the key `k`.
pub open spec fn has_key<T: VariantOrd>(s: Seq<T>, k: T::Key) -> bool {
    exists|i: int| 0 <= i < s.len() && (#[trigger] s[i]).key() == k
}

/// The position of `s` that carries the key `k`; unique when the keys of `s`
/// are distinct.
pub open spec fn index_of_key<T: VariantOrd>(s: Seq<T>, k: T::Key) -> int {
    choose|i: int| 0 <= i < s.len() && (#[trigger] s[i]).key() == k
}

/// Position lookup of a variant in a duplicate-free source population.
pub fn position_of_key<T: VariantOrd>(s: &Vec<T>, x: &T) -> (p: usize)
    requires
        has_key(s@, x.key()),
        strictly_sorted_keys::<T>(seq_keys(s@)),
    ensures
        p < s@.len(),
        s@[p as int].key() == x.key(),
        p == index_of_key(s@, x.key()),
{
    let n = s.len();
    let mut i: usize = 0;
    while i < n
        invariant
            0 <= i <= n == s@.len(),
            has_key(s@, x.key()),
            strictly_sorted_keys::<T>(seq_keys(s@)),
            forall|m: int| 0 <= m < i ==> (#[trigger] s@[m]).key() != x.key(),
        decreases n - i,
    {
        if s[i].key_eq(x) {
            proof {
                let q = index_of_key(s@, x.key());
                assert(0 <= q < s@.len() && s@[q].key() == x.key());
                if q != i {
                    assert(seq_keys(s@)[q] == s@[q].key());
                    assert(seq_keys(s@)[i as int] == s@[i as int].key());
                }
            }
            return i;
        }
        i += 1;
    }
    proof {
        let w = choose|w: int| 0 <= w < s@.len() && (#[trigger] s@[w]).key() == x.key();
        assert(s@[w].key() != x.key());
    }
    vstd::pervasive::unreached()
}

/// Projects a square distance matrix computed over `source_population` onto
/// the sub-matrix whose rows are `population_1`'s variants and whose columns
/// are `population_2`'s variants, by position lookup in the source.
pub fn project_distance_matrix<T: VariantOrd>(
    dists: &Vec<Vec<Fraction>>,
    dist_matrix_source_population: &Vec<T>,
    population_1: &StochasticLanguage<T>,
    population_2: &StochasticLanguage<T>,
) -> (r: Vec<Vec<Fraction>>)
    requires
        is_matrix(
            dists@,
            dist_matrix_source_population@.len() as int,
            dist_matrix_source_population@.len() as int,
        ),
        strictly_sorted_keys::<T>(seq_keys(dist_matrix_source_population@)),
        forall|i: int|
            0 <= i < population_1.variants@.len() ==> has_key(
                dist_matrix_source_population@,
                (#[trigger] population_1.variants@[i]).key(),
            ),
        forall|j: int|
            0 <= j < population_2.variants@.len() ==> has_key(
                dist_matrix_source_population@,
                (#[trigger] population_2.variants@[j]).key(),
            ),
    ensures
        is_matrix(r@, population_1.variants@.len() as int, population_2.variants@.len() as int),
        forall|i: int, j: int|
            0 <= i < population_1.variants@.len() && 0 <= j < population_2.variants@.len()
                ==> #[trigger] r@[i]@[j] == dists@[index_of_key(
                dist_matrix_source_population@,
                population_1.variants@[i].key(),
            )]@[index_of_key(
                dist_matrix_source_population@,
                population_2.variants@[j].key(),
            )],
{
    let ghost source = dist_matrix_source_population@;
    let n1 = population_1.variants.len();
    let n2 = population_2.variants.len();
    let mut rows: Vec<Vec<Fraction>> = Vec::new();
    let mut i: usize = 0;
    while i < n1
        invariant
            0 <= i <= n1 == population_1.variants@.len(),
            n2 == population_2.variants@.len(),
            source == dist_matrix_source_population@,
            is_matrix(dists@, source.len() as int, source.len() as int),
            strictly_sorted_keys::<T>(seq_keys(source)),
            forall|k: int|
                0 <= k < population_1.variants@.len() ==> has_key(
                    source,
                    (#[trigger] population_1.variants@[k]).key(),
                ),
            forall|k: int|
                0 <= k < population_2.variants@.len() ==> has_key(
                    source,
                    (#[trigger] population_2.variants@[k]).key(),
                ),
            rows@.len() == i,
            forall|k: int|
                0 <= k < i ==> (#[trigger] rows@[k])@.len() == n2,
            forall|k: int, j: int|
                0 <= k < i && 0 <= j < n2 ==> #[trigger] rows@[k]@[j] == dists@[index_of_key(
                    source,
                    population_1.variants@[k].key(),
                )]@[index_of_key(source, population_2.variants@[j].key())],
        decreases n1 - i,
    {
        let ri = position_of_key(dist_matrix_source_population, &population_1.variants[i]);
        let mut row: Vec<Fraction> = Vec::new();
        let mut j: usize = 0;
        while j < n2
            invariant
                0 <= j <= n2 == population_2.variants@.len(),
                0 <= i < population_1.variants@.len(),
                source == dist_matrix_source_population@,
                is_matrix(dists@, source.len() as int, source.len() as int),
                strictly_sorted_keys::<T>(seq_keys(source)),
                forall|k: int|
                    0 <= k < population_2.variants@.len() ==> has_key(
                        source,
                        (#[trigger] population_2.variants@[k]).key(),
                    ),
                ri < source.len(),
                ri == index_of_key(source, population_1.variants@[i as int].key()),
                row@.len() == j,
                forall|k: int|
                    0 <= k < j ==> #[trigger] row@[k] == dists@[ri as int]@[index_of_key(
                        source,
                        population_2.variants@[k].key(),
                    )],
            decreases n2 - j,
        {
            let cj = position_of_key(dist_matrix_source_population, &population_2.variants[j]);
            row.push(dists[ri][cj]);
            j += 1;
        }
        rows.push(row);
        i += 1;
    }
    rows
}

/// Selects the given rows of a matrix, in order: the projection used by the
/// bootstrap loop, whose sample variants are row indices of the self-distance
/// matrix.
pub fn select_rows(dists: &Vec<Vec<Fraction>>, rows: &Vec<usize>) -> (r: Vec<Vec<Fraction>>)
    requires
        forall|i: int| 0 <= i < rows@.len() ==> #[trigger] rows@[i] < dists@.len(),
    ensures
        r@.len() == rows@.len(),
        forall|i: int| 0 <= i < rows@.len() ==> (#[trigger] r@[i])@ == dists@[rows@[i] as int]@,
{
    let n = rows.len();
    let mut out: Vec<Vec<Fraction>> = Vec::new();
    let mut i: usize = 0;
    while i < n
        invariant
            0 <= i <= n == rows@.len(),
            forall|k: int| 0 <= k < rows@.len() ==> #[trigger] rows@[k] < dists@.len(),
            out@.len() == i,
            forall|k: int|
                0 <= k < i ==> (#[trigger] out@[k])@ == dists@[rows@[k] as int]@,
        decreases n - i,
    {
        let src = &dists[rows[i]];
        let mut row: Vec<Fraction> = Vec::new();
        let mut j: usize = 0;
        while j < src.len()
            invariant
                0 <= j <= src@.len(),
                row@.len() == j,
                forall|k: int| 0 <= k < j ==> #[trigger] row@[k] == src@[k],
            decreases src@.len() - j,
        {
            row.push(src[j]);
            j += 1;
        }
        proof {
            assert(row@ =~= src@);
        }
        out.push(row);
        i += 1;
    }
    out
}

/// Selects the given rows and columns of a square matrix, in order: entry
/// `(i, j)` of the result is entry `(rows[i], cols[j])` of the source.
pub fn select_submatrix(
    dists: &Vec<Vec<Fraction>>,
    rows: &Vec<usize>,
    cols: &Vec<usize>,
) -> (r: Vec<Vec<Fraction>>)
    requires
        is_matrix(dists@, dists@.len() as int, dists@.len() as int),
        forall|i: int| 0 <= i < rows@.len() ==> #[trigger] rows@[i] < dists@.len(),
        forall|j: int| 0 <= j < cols@.len() ==> #[trigger] cols@[j] < dists@.len(),
    ensures
        is_matrix(r@, rows@.len() as int, cols@.len() as int),
        forall|i: int, j: int|
            0 <= i < rows@.len() && 0 <= j < cols@.len() ==> #[trigger] r@[i]@[j] == dists@[rows@[i] as int]@[cols@[j] as int],
{
    let n1 = rows.len();
    let n2 = cols.len();
    let mut out: Vec<Vec<Fraction>> = Vec::new();
    let mut i: usize = 0;
    while i < n1
        invariant
            0 <= i <= n1 == rows@.len(),
            n2 == cols@.len(),
            is_matrix(dists@, dists@.len() as int, dists@.len() as int),
            forall|k: int| 0 <= k < rows@.len() ==> #[trigger] rows@[k] < dists@.len(),
            forall|k: int| 0 <= k < cols@.len() ==> #[trigger] cols@[k] < dists@.len(),
            out@.len() == i,
            forall|k: int| 0 <= k < i ==> (#[trigger] out@[k])@.len() == n2,
            forall|k: int, j: int|
                0 <= k < i && 0 <= j < n2 ==> #[trigger] out@[k]@[j] == dists@[rows@[k] as int]@[cols@[j] as int],
        decreases n1 - i,
    {
        let ri = rows[i];
        let mut row: Vec<Fraction> = Vec::new();
        let mut j: usize = 0;
        while j < n2
            invariant
                0 <= j <= n2 == cols@.len(),
                0 <= i < rows@.len(),
                is_matrix(dists@, dists@.len() as int, dists@.len() as int),
                forall|k: int| 0 <= k < cols@.len() ==> #[trigger] cols@[k] < dists@.len(),
                ri == rows@[i as int] && ri < dists@.len(),
                row@.len() == j,
                forall|k: int|
                    0 <= k < j ==> #[trigger] row@[k] == dists@[ri as int]@[cols@[k] as int],
            decreases n2 - j,
        {
            row.push(dists[ri][cols[j]]);
            j += 1;
        }
        out.push(row);
        i += 1;
    }
    out
}

} // verus!
