//! Verified resampling primitives: frequency-weighted drawing with
//! replacement, and the partial shuffle behind permutation draws without
//! replacement.

use vstd::prelude::*;

use crate::language::sum_counts;
use crate::rng::gen_below;

verus! {

broadcast use vstd::seq_lib::group_to_multiset_ensures;

/// The sum of a prefix of counts never exceeds the sum of the whole.
pub proof fn lemma_sum_take_le(s: Seq<u64>, j: int)
    requires
        0 <= j <= s.len(),
    ensures
        0 <= sum_counts(s.take(j)) <= sum_counts(s),
    decreases s.len(),
{
    if s.len() == 0 {
        assert(s.take(j) =~= s);
    } else if j == s.len() {
        assert(s.take(j) =~= s);
        lemma_sum_take_le(s.drop_last(), s.len() - 1);
        assert(s.drop_last().take(s.len() - 1) =~= s.drop_last());
    } else {
        assert(s.take(j) =~= s.drop_last().take(j));
        lemma_sum_take_le(s.drop_last(), j);
    }
}

/// Extending a prefix by one element adds that element's count.
pub proof fn lemma_sum_take_step(s: Seq<u64>, j: int)
    requires
        0 <= j < s.len(),
    ensures
        sum_counts(s.take(j + 1)) == sum_counts(s.take(j)) + s[j],
{
    assert(s.take(j + 1).drop_last() =~= s.take(j));
    assert(s.take(j + 1).last() == s[j]);
}

/// Draws one variant index, weighted by the empirical counts: index `i` is
/// selected when the uniform draw falls inside `i`'s cumulative count range.
/// The result always points at a variant that occurs.
pub fn sample_index_weighted(counts: &Vec<u64>, total: u64, rng: &mut rand::rngs::StdRng) -> (idx:
    usize)
    requires
        sum_counts(counts@) == total,
        total > 0,
    ensures
        idx < counts@.len(),
        counts@[idx as int] > 0,
{
    proof {
        if counts@.len() == 0 {
            assert(sum_counts(counts@) == 0);
        }
    }
    let u = gen_below(rng, total);
    let n = counts.len();
    let mut i: usize = 0;
    let mut acc: u64 = 0;
    loop
        invariant
            counts@.len() == n,
            0 <= i < counts@.len(),
            sum_counts(counts@) == total,
            total > 0,
            u < total,
            acc == sum_counts(counts@.take(i as int)),
            acc <= u,
        decreases counts@.len() - i,
    {
        proof {
            lemma_sum_take_step(counts@, i as int);
            lemma_sum_take_le(counts@, i + 1);
        }
        let c = counts[i];
        if u - acc < c {
            return i;
        }
        proof {
            if i + 1 == counts@.len() {
                assert(counts@.take(i + 1) =~= counts@);
            }
        }
        acc = acc + c;
        i = i + 1;
    }
}

/// Fisher–Yates partial shuffle: permutes the vector in place so that its
/// first `k` entries are a uniformly drawn sample without replacement. The
/// vector afterwards holds exactly the same entries, reordered.
pub fn partial_shuffle(v: &mut Vec<usize>, k: usize, rng: &mut rand::rngs::StdRng)
    requires
        k <= old(v)@.len(),
        old(v)@.len() <= u64::MAX,
    ensures
        final(v)@.len() == old(v)@.len(),
        final(v)@.to_multiset() == old(v)@.to_multiset(),
{
    let n = v.len();
    let mut i: usize = 0;
    while i < k
        invariant
            0 <= i <= k <= n == v@.len(),
            n <= u64::MAX,
            v@.to_multiset() == old(v)@.to_multiset(),
        decreases k - i,
    {
        let j = i + (gen_below(rng, (n - i) as u64) as usize);
        let ghost before = v@;
        let a = v[i];
        let b = v[j];
        v.set(i, b);
        v.set(j, a);
        proof {
            assert(v@ =~= before.update(i as int, b).update(j as int, a));
            assert(v@.to_multiset() =~= before.to_multiset()) by {
                assert(before.update(i as int, b).update(j as int, a) =~= if i == j {
                    before.update(i as int, a)
                } else {
                    before.update(i as int, b).update(j as int, a)
                });
                lemma_swap_multiset(before, i as int, j as int);
            }
        }
        i += 1;
    }
}

/// Swapping two positions of a sequence preserves its multiset.
pub proof fn lemma_swap_multiset<A>(s: Seq<A>, i: int, j: int)
    requires
        0 <= i < s.len(),
        0 <= j < s.len(),
    ensures
        s.update(i, s[j]).update(j, s[i]).to_multiset() == s.to_multiset(),
{
    let t = s.update(i, s[j]).update(j, s[i]);
    assert(t.len() == s.len());
    if i == j {
        assert(t =~= s);
    } else {
        assert(t.remove(i).remove(if j < i {
            j
        } else {
            j - 1
        }) =~= s.remove(i).remove(if j < i {
            j
        } else {
            j - 1
        }));
        lemma_two_removes(s, t, i, j);
    }
}

/// Two sequences that agree except that entries `i` and `j` are exchanged
/// have the same multiset: remove both positions and the rests are equal.
proof fn lemma_two_removes<A>(s: Seq<A>, t: Seq<A>, i: int, j: int)
    requires
        0 <= i < s.len(),
        0 <= j < s.len(),
        i != j,
        t.len() == s.len(),
        t[i] == s[j],
        t[j] == s[i],
        forall|p: int| 0 <= p < s.len() && p != i && p != j ==> t[p] == s[p],
    ensures
        t.to_multiset() == s.to_multiset(),
{
    broadcast use vstd::seq_lib::group_to_multiset_ensures;

    let s1 = s.remove(i);
    let t1 = t.remove(i);
    assert(s.to_multiset() =~= s1.to_multiset().insert(s[i]));
    assert(t.to_multiset() =~= t1.to_multiset().insert(t[i]));
    let j1 = if j < i {
        j
    } else {
        j - 1
    };
    assert(s1[j1] == s[j]);
    assert(t1[j1] == t[j]);
    let s2 = s1.remove(j1);
    let t2 = t1.remove(j1);
    assert(s1.to_multiset() =~= s2.to_multiset().insert(s[j]));
    assert(t1.to_multiset() =~= t2.to_multiset().insert(t[j]));
    assert(s2 =~= t2);
    assert(s.to_multiset() =~= s2.to_multiset().insert(s[j]).insert(s[i]));
    assert(t.to_multiset() =~= s2.to_multiset().insert(s[i]).insert(s[j]));
    assert(s2.to_multiset().insert(s[j]).insert(s[i]) =~= s2.to_multiset().insert(s[i]).insert(
        s[j],
    ));
}

} // verus!
