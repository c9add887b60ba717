//! A simple binner based on percentiles: values below the lower percentile
//! boundary form bin 0, values above the upper boundary bin 2, and the middle
//! values bin 1 — always exactly three bins.
//!
//! Percentiles are computed by linear interpolation between order statistics,
//! and the boundaries are kept exact as integers scaled by 100.

use vstd::arithmetic::div_mod::lemma_fundamental_div_mod;
use vstd::multiset::Multiset;
use vstd::prelude::*;

use crate::binning::Binner;
use crate::language::sort_by_key;
use crate::order::seq_keys;

verus! {

broadcast use vstd::seq_lib::group_to_multiset_ensures;

/// The sequence is sorted in non-decreasing order.
pub open spec fn ascending(s: Seq<u64>) -> bool {
    forall|i: int, j: int| #![trigger s[i], s[j]] 0 <= i < j < s.len() ==> s[i] <= s[j]
}

/// The unique sorted arrangement of a population of values.
pub open spec fn sorted_of(values: Multiset<u64>) -> Seq<u64> {
    choose|t: Seq<u64>| ascending(t) && (#[trigger] t.to_multiset()) == values
}

/// Two ascending sequences over the same population are equal.
pub proof fn lemma_ascending_unique(a: Seq<u64>, b: Seq<u64>)
    requires
        ascending(a),
        ascending(b),
        a.to_multiset() == b.to_multiset(),
    ensures
        a == b,
    decreases a.len(),
{
    assert(a.len() == a.to_multiset().len());
    assert(b.len() == b.to_multiset().len());
    if a.len() == 0 {
        assert(a =~= b);
    } else {
        // both last elements are the largest value of the population
        assert(a.last() == b.last()) by {
            assert(a.contains(a.last()));
            assert(a.to_multiset().count(a.last()) > 0);
            assert(b.contains(a.last()));
            let i = choose|i: int| 0 <= i < b.len() && b[i] == a.last();
            assert(b[i] <= b.last());
            assert(b.contains(b.last()));
            assert(b.to_multiset().count(b.last()) > 0);
            assert(a.contains(b.last()));
            let j = choose|j: int| 0 <= j < a.len() && a[j] == b.last();
            assert(a[j] <= a.last());
        }
        assert(a.drop_last() =~= a.remove(a.len() - 1));
        assert(b.drop_last() =~= b.remove(b.len() - 1));
        assert(a.drop_last().to_multiset() =~= a.to_multiset().remove(a.last()));
        assert(b.drop_last().to_multiset() =~= b.to_multiset().remove(b.last()));
        assert(ascending(a.drop_last()));
        assert(ascending(b.drop_last()));
        lemma_ascending_unique(a.drop_last(), b.drop_last());
        assert forall|i: int| 0 <= i < a.len() implies a[i] == b[i] by {
            if i < a.len() - 1 {
                assert(a.drop_last()[i] == a[i]);
                assert(b.drop_last()[i] == b[i]);
                assert(a.drop_last() == b.drop_last());
            }
        }
        assert(a =~= b);
    }
}

/// An ascending arrangement of a population is the sorted arrangement.
pub proof fn lemma_sorted_of_is(values: Multiset<u64>, t: Seq<u64>)
    requires
        ascending(t),
        t.to_multiset() == values,
    ensures
        sorted_of(values) == t,
{
    let s = sorted_of(values);
    assert(ascending(s) && s.to_multiset() == values) by {
        assert(ascending(t) && (#[trigger] t.to_multiset()) == values);
    }
    lemma_ascending_unique(s, t);
}

/// The p-th percentile of a sorted population, scaled by 100: the rank
/// `p * (len - 1) / 100` interpolates linearly between the two adjacent order
/// statistics.
pub open spec fn spec_percentile_scaled(sorted: Seq<u64>, p: int) -> int {
    let rank = p * (sorted.len() - 1);
    let lo = rank / 100;
    let rem = rank % 100;
    if rem == 0 {
        sorted[lo] * 100
    } else {
        sorted[lo] * (100 - rem) + sorted[lo + 1] * rem
    }
}

/// Computes the p-th percentile (as an integer percent) of sorted data, as an
/// exact boundary scaled by 100. A percentile outside [0, 100] is an invalid
/// configuration and is excluded by precondition.
pub fn percentile(data: &Vec<u64>, p: u64) -> (r: u128)
    requires
        ascending(data@),
        data@.len() >= 1,
        p <= 100,
    ensures
        r == spec_percentile_scaled(data@, p as int),
{
    let n = data.len();
    let p128 = p as u128;
    let n1 = (n - 1) as u128;
    proof {
        assert(p128 * n1 <= 100 * n1 <= u128::MAX) by (nonlinear_arith)
            requires
                p128 <= 100,
                n1 <= u64::MAX,
        ;
    }
    let rank: u128 = p128 * n1;
    let lo128 = rank / 100;
    let rem = rank % 100;
    proof {
        lemma_fundamental_div_mod(rank as int, 100);
        assert(rank <= 100 * n1);
        assert(lo128 <= n1) by (nonlinear_arith)
            requires
                rank as int == 100 * (lo128 as int) + (rem as int),
                0 <= rem < 100,
                rank <= 100 * n1,
        ;
        if rem != 0 {
            assert(lo128 < n1) by (nonlinear_arith)
                requires
                    rank as int == 100 * (lo128 as int) + (rem as int),
                    1 <= rem < 100,
                    rank <= 100 * n1,
            ;
        }
    }
    let lo = lo128 as usize;
    if rem == 0 {
        let v = data[lo];
        proof {
            assert((v as u128) * 100 <= u128::MAX) by (nonlinear_arith)
                requires
                    v <= u64::MAX,
            ;
        }
        (v as u128) * 100
    } else {
        let v_lo = data[lo];
        let v_hi = data[lo + 1];
        proof {
            assert((v_lo as u128) * (100 - rem) + (v_hi as u128) * rem <= u128::MAX)
                by (nonlinear_arith)
                requires
                    v_lo <= u64::MAX,
                    v_hi <= u64::MAX,
                    0 < rem < 100,
            ;
        }
        (v_lo as u128) * ((100 - rem)) + (v_hi as u128) * rem
    }
}

/// Percentile-based binner: the lower and upper percentile boundaries (scaled
/// by 100) split the value line into three ordered bins.
#[derive(Debug)]
pub struct OuterPercentileBinner {
    pub lower_boundary: u128,
    pub upper_boundary: u128,
}

impl Binner for OuterPercentileBinner {
    type Args = u64;

    /// The percentile argument is an integer percent in [0, 100]; the binner
    /// uses the p-th and (100 - p)-th percentiles.
    open spec fn args_wf(args: u64) -> bool {
        args <= 100
    }

    open spec fn wf(&self) -> bool {
        true
    }

    open spec fn trained_on(&self, values: Multiset<u64>, args: u64) -> bool {
        &&& self.lower_boundary == spec_percentile_scaled(sorted_of(values), args as int)
        &&& self.upper_boundary == spec_percentile_scaled(sorted_of(values), 100 - args as int)
    }

    open spec fn spec_num_bins(&self) -> int {
        3
    }

    /// Bin 0 below the lower boundary, bin 2 at or above the upper boundary,
    /// bin 1 in between; comparisons are exact on the scaled boundaries.
    open spec fn spec_bin(&self, data: u64) -> int {
        if (data as int) * 100 < self.lower_boundary {
            0
        } else if (data as int) * 100 < self.upper_boundary {
            1
        } else {
            2
        }
    }

    /// A larger value can only move to a later bin: both tests compare the
    /// same scaled value against fixed boundaries.
    proof fn lemma_bin_monotone(&self, x: u64, y: u64) {
    }

    fn new(data: Vec<u64>, args: u64) -> (r: OuterPercentileBinner) {
        let ghost orig = data@;
        let ghost population = data@.to_multiset();
        let sorted = sort_by_key(data);
        proof {
            assert(seq_keys(sorted@) =~= sorted@);
            assert(seq_keys(orig) =~= orig);
            assert(sorted@.to_multiset() == population);
            assert forall|i: int, j: int|
                #![trigger sorted@[i], sorted@[j]]
                0 <= i < j < sorted@.len() implies sorted@[i] <= sorted@[j] by {
                assert(<u64 as crate::order::VariantOrd>::leq(
                    seq_keys(sorted@)[i],
                    seq_keys(sorted@)[j],
                ));
            }
            assert(ascending(sorted@));
            lemma_sorted_of_is(population, sorted@);
        }
        let lower_boundary = percentile(&sorted, args);
        let upper_boundary = percentile(&sorted, 100 - args);
        OuterPercentileBinner { lower_boundary, upper_boundary }
    }

    fn bin(&self, data: u64) -> (r: usize) {
        let scaled = (data as u128) * 100;
        proof {
            assert((data as u128) * 100 == (data as int) * 100 && (data as u128) * 100
                <= u128::MAX) by (nonlinear_arith)
                requires
                    data <= u64::MAX,
            ;
        }
        if scaled < self.lower_boundary {
            0
        } else if scaled < self.upper_boundary {
            1
        } else {
            2
        }
    }

    fn num_bins(&self) -> usize {
        3
    }
}

} // verus!
