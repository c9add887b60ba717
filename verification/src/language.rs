//! Stochastic languages: empirical distributions over behavioral variants.
//!
//! A language owns a canonically sorted list of distinct variants and, in
//! parallel, the occurrence count of each; the relative frequency of variant
//! `i` is the exact fraction `counts[i] / total`.

use vstd::multiset::Multiset;
use vstd::prelude::*;

use crate::fraction::Fraction;
use crate::order::{seq_keys, VariantOrd};

verus! {

broadcast use vstd::seq_lib::group_to_multiset_ensures, vstd::multiset::group_multiset_axioms;

/// The occurrences of a population, identified by their keys.
pub open spec fn key_multiset<T: VariantOrd>(s: Seq<T>) -> Multiset<T::Key> {
    seq_keys(s).to_multiset()
}

/// Strictly ascending keys: sorted with no duplicates.
pub open spec fn strictly_sorted_keys<T: VariantOrd>(ks: Seq<T::Key>) -> bool {
    forall|i: int, j: int|
        0 <= i < j < ks.len() ==> T::leq(#[trigger] ks[i], #[trigger] ks[j]) && ks[i] != ks[j]
}

/// Keys sorted ascending (duplicates allowed).
pub open spec fn sorted_keys<T: VariantOrd>(ks: Seq<T::Key>) -> bool {
    forall|i: int, j: int| 0 <= i < j < ks.len() ==> T::leq(#[trigger] ks[i], #[trigger] ks[j])
}

/// The sum of a sequence of counts.
pub open spec fn sum_counts(s: Seq<u64>) -> int
    decreases s.len(),
{
    if s.len() == 0 {
        0
    } else {
        sum_counts(s.drop_last()) + s.last()
    }
}

/// Tracks the relative frequency of each distinct variant of a population.
///
/// Invariant ([`StochasticLanguage::wf`]): `variants` is strictly ascending in
/// the canonical variant order (hence duplicate-free), `counts` runs parallel
/// to it with every count at least 1, and the counts sum to `total` — so the
/// relative frequencies `counts[i] / total` sum to exactly 1.
#[derive(Debug)]
pub struct StochasticLanguage<T: VariantOrd> {
    pub variants: Vec<T>,
    pub counts: Vec<u64>,
    pub total: u64,
}

impl<T: VariantOrd> StochasticLanguage<T> {
    /// Well-formedness: canonical order, parallel positive counts, exact
    /// total.
    pub open spec fn wf(&self) -> bool {
        &&& self.counts@.len() == self.variants@.len()
        &&& strictly_sorted_keys::<T>(seq_keys(self.variants@))
        &&& forall|i: int| 0 <= i < self.counts@.len() ==> 1 <= #[trigger] self.counts@[i]
        &&& sum_counts(self.counts@) == self.total
    }

    /// The language is the empirical distribution of `items`: the total is
    /// the population size, each variant's count is the number of occurrences
    /// of its key in `items`, and every item is represented by a variant.
    pub open spec fn describes(&self, items: Seq<T>) -> bool {
        &&& self.total == items.len()
        &&& forall|i: int|
            0 <= i < self.variants@.len() ==> (#[trigger] self.counts@[i]) as nat == key_multiset(
                items,
            ).count(seq_keys(self.variants@)[i])
        &&& forall|j: int|
            0 <= j < items.len() ==> seq_keys(self.variants@).contains(
                (#[trigger] items[j]).key(),
            )
    }

    /// The number of distinct variants.
    pub fn num_variants(&self) -> (n: usize)
        ensures
            n == self.variants@.len(),
    {
        self.variants.len()
    }

    /// The relative frequency of variant `i`, as an exact fraction.
    pub fn frequency(&self, i: usize) -> (r: Fraction)
        requires
            self.wf(),
            i < self.counts@.len(),
            self.total > 0,
        ensures
            r.num == self.counts@[i as int],
            r.den == self.total,
            r.wf(),
    {
        Fraction::new(self.counts[i], self.total)
    }
}

/// Sorts a population ascending by variant key, preserving the multiset of
/// keys (selection sort: repeatedly move the least remaining element).
pub(crate) fn sort_by_key<T: VariantOrd>(items: Vec<T>) -> (r: Vec<T>)
    ensures
        r@.len() == items@.len(),
        key_multiset(r@) == key_multiset(items@),
        sorted_keys::<T>(seq_keys(r@)),
{
    let ghost orig = items@;
    let mut rest = items;
    let mut out: Vec<T> = Vec::new();
    while rest.len() > 0
        invariant
            out@.len() + rest@.len() == orig.len(),
            key_multiset(out@).add(key_multiset(rest@)) == key_multiset(orig),
            sorted_keys::<T>(seq_keys(out@)),
            forall|i: int, j: int|
                0 <= i < out@.len() && 0 <= j < rest@.len() ==> T::leq(
                    #[trigger] seq_keys(out@)[i],
                    #[trigger] seq_keys(rest@)[j],
                ),
        decreases rest@.len(),
    {
        proof {
            T::lemma_order_laws();
        }
        // index of the least remaining element
        let mut m: usize = 0;
        let mut t: usize = 1;
        while t < rest.len()
            invariant
                0 <= m < rest@.len(),
                m < t <= rest@.len() || (t <= rest@.len() && m == 0),
                forall|k: int|
                    0 <= k < t ==> T::leq(seq_keys(rest@)[m as int], #[trigger] seq_keys(rest@)[k]),
            decreases rest@.len() - t,
        {
            proof {
                T::lemma_order_laws();
            }
            if rest[t].key_le(&rest[m]) {
                m = t;
            }
            t += 1;
        }
        let ghost old_out = out@;
        let ghost old_rest = rest@;
        let x = rest.remove(m);
        out.push(x);
        proof {
            T::lemma_order_laws();
            assert(seq_keys(old_rest.remove(m as int)) =~= seq_keys(old_rest).remove(m as int));
            assert(seq_keys(old_out.push(x)) =~= seq_keys(old_out).push(x.key()));
            assert(seq_keys(out@).to_multiset() =~= seq_keys(old_out).to_multiset().insert(
                x.key(),
            ));
            assert(seq_keys(rest@).to_multiset() =~= seq_keys(old_rest).to_multiset().remove(
                x.key(),
            )) by {
                assert(seq_keys(old_rest)[m as int] == x.key());
            }
            assert(key_multiset(old_rest).count(x.key()) > 0) by {
                assert(seq_keys(old_rest)[m as int] == x.key());
                assert(seq_keys(old_rest).contains(x.key()));
            }
            assert(key_multiset(out@).add(key_multiset(rest@)) =~= key_multiset(orig));
            // every remaining key sits at some shifted position of the old rest
            assert(forall|j: int|
                0 <= j < rest@.len() ==> #[trigger] seq_keys(rest@)[j] == if j < m {
                    seq_keys(old_rest)[j]
                } else {
                    seq_keys(old_rest)[j + 1]
                });
            assert(seq_keys(out@).len() == old_out.len() + 1);
            assert(forall|i: int|
                0 <= i < old_out.len() ==> #[trigger] seq_keys(out@)[i] == seq_keys(old_out)[i]);
            assert(seq_keys(out@)[old_out.len() as int] == x.key());
            assert(seq_keys(old_rest)[m as int] == x.key());
        }
    }
    out
}

/// Builds the empirical stochastic language of a population: occurrences are
/// counted per distinct variant key, and the variants are laid out in
/// canonical ascending order.
///
/// An empty population yields an empty language. The counts sum to the
/// population size, so the relative frequencies sum to exactly 1, and the
/// variants are strictly ascending, so no variant repeats.
impl<T: VariantOrd> StochasticLanguage<T> {
    pub fn from_items(items: Vec<T>) -> (r: StochasticLanguage<T>)
        ensures
            r.wf(),
            r.describes(items@),
    {
    let ghost orig = items@;
    let total: u64 = items.len() as u64;
    let sorted = sort_by_key(items);
    let ghost ss = sorted@;
    let mut rest = sorted;
    let bound = rest.len();
    let mut variants: Vec<T> = Vec::new();
    let mut counts: Vec<u64> = Vec::new();
    let mut processed: usize = 0;
    while rest.len() > 0
        invariant
            rest@ == ss.skip(processed as int),
            ss.len() == bound <= usize::MAX,
            0 <= processed <= ss.len(),
            processed + rest@.len() == ss.len(),
            sorted_keys::<T>(seq_keys(ss)),
            key_multiset(ss) == key_multiset(orig),
            ss.len() == orig.len(),
            counts@.len() == variants@.len(),
            strictly_sorted_keys::<T>(seq_keys(variants@)),
            processed == 0 ==> variants@.len() == 0,
            processed > 0 ==> variants@.len() > 0 && seq_keys(variants@).last() == ss[processed
                - 1].key(),
            forall|i: int|
                0 <= i < counts@.len() ==> (#[trigger] counts@[i]) as nat == key_multiset(
                    ss.take(processed as int),
                ).count(seq_keys(variants@)[i]),
            forall|i: int| 0 <= i < counts@.len() ==> 1 <= #[trigger] counts@[i] <= processed,
            sum_counts(counts@) == processed,
            forall|j: int|
                0 <= j < processed ==> seq_keys(variants@).contains((#[trigger] ss[j]).key()),
        decreases rest@.len(),
    {
        proof {
            T::lemma_order_laws();
        }
        let ghost old_variants = variants@;
        let ghost old_counts = counts@;
        let ghost k = ss[processed as int].key();
        let ghost prefix = ss.take(processed as int);
        let is_new = if variants.len() == 0 {
            true
        } else {
            !variants[variants.len() - 1].key_eq(&rest[0])
        };
        proof {
            assert(rest@[0] == ss[processed as int]);
            // a key unequal to the last variant's key has not occurred yet
            if processed > 0 && k != seq_keys(old_variants).last() {
                assert(key_multiset(prefix).count(k) == 0) by {
                    if key_multiset(prefix).count(k) > 0 {
                        assert(seq_keys(prefix).contains(k));
                        let j = choose|j: int|
                            0 <= j < seq_keys(prefix).len() && seq_keys(prefix)[j] == k;
                        assert(seq_keys(prefix)[j] == ss[j].key());
                        assert(T::leq(ss[j].key(), ss[processed - 1].key())) by {
                            if j < processed - 1 {
                                assert(T::leq(seq_keys(ss)[j], seq_keys(ss)[processed - 1]));
                            }
                        }
                        assert(T::leq(ss[processed - 1].key(), ss[processed as int].key())) by {
                            assert(T::leq(
                                seq_keys(ss)[processed - 1],
                                seq_keys(ss)[processed as int],
                            ));
                        }
                        assert(seq_keys(old_variants).last() == ss[processed - 1].key());
                        assert(T::leq(k, seq_keys(old_variants).last()));
                        assert(T::leq(seq_keys(old_variants).last(), k));
                        assert(k == seq_keys(old_variants).last());
                    }
                }
                // hence it differs from every recorded variant key
                assert forall|i: int|
                    0 <= i < old_variants.len() implies #[trigger] seq_keys(old_variants)[i]
                    != k by {
                    if seq_keys(old_variants)[i] == k {
                        assert(old_counts[i] as nat == key_multiset(prefix).count(k));
                        assert(old_counts[i] >= 1);
                    }
                }
            }
        }
        let x = rest.remove(0);
        proof {
            assert(rest@ =~= ss.skip(processed + 1));
        }
        if is_new {
            variants.push(x);
            counts.push(1);
            proof {
                assert(seq_keys(variants@) =~= seq_keys(old_variants).push(k));
                assert(counts@ =~= old_counts.push(1));
                assert(sum_counts(counts@) == sum_counts(old_counts) + 1) by {
                    assert(counts@.drop_last() =~= old_counts);
                }
                // strict order extends: the new key is strictly above the last
                if processed > 0 {
                    assert(T::leq(seq_keys(ss)[processed - 1], seq_keys(ss)[processed as int]));
                    assert(forall|i: int|
                        0 <= i < old_variants.len() ==> T::leq(
                            #[trigger] seq_keys(old_variants)[i],
                            k,
                        ) && seq_keys(old_variants)[i] != k) by {
                        assert(forall|i: int|
                            0 <= i < old_variants.len() - 1 ==> T::leq(
                                #[trigger] seq_keys(old_variants)[i],
                                seq_keys(old_variants)[old_variants.len() - 1],
                            ));
                    }
                } else {
                    assert(key_multiset(prefix).count(k) == 0) by {
                        assert(prefix.len() == 0);
                        assert(seq_keys(prefix).len() == 0);
                        assert(seq_keys(prefix).to_multiset().len() == 0);
                    }
                }
                assert(key_multiset(prefix).count(k) == 0);
            }
        } else {
            let c = counts.pop().unwrap();
            counts.push(c + 1);
            proof {
                assert(k == seq_keys(old_variants).last());
                assert(counts@ =~= old_counts.drop_last().push((old_counts.last() + 1) as u64));
                assert(sum_counts(counts@) == sum_counts(old_counts) + 1) by {
                    assert(counts@.drop_last() =~= old_counts.drop_last());
                }
            }
        }
        processed += 1;
        proof {
            assert(ss.take(processed as int) =~= prefix.push(ss[processed - 1]));
            assert(seq_keys(ss.take(processed as int)) =~= seq_keys(prefix).push(k));
            assert(key_multiset(ss.take(processed as int)) =~= key_multiset(prefix).insert(k));
            assert(seq_keys(variants@).last() == k);
            assert(forall|j: int|
                0 <= j < processed - 1 ==> seq_keys(variants@).contains((#[trigger] ss[j]).key()))
                by {
                assert(forall|i: int|
                    0 <= i < old_variants.len() ==> seq_keys(variants@).contains(
                        #[trigger] seq_keys(old_variants)[i],
                    )) by {
                    assert(forall|i: int|
                        0 <= i < old_variants.len() ==> seq_keys(variants@)[i] == seq_keys(
                            old_variants,
                        )[i]);
                }
            }
            assert(seq_keys(variants@).contains(k)) by {
                assert(seq_keys(variants@).last() == k);
            }
        }
    }
    proof {
        assert(ss.take(processed as int) =~= ss);
        assert forall|j: int|
            0 <= j < orig.len() implies seq_keys(variants@).contains(
            (#[trigger] orig[j]).key(),
        ) by {
            let k0 = orig[j].key();
            assert(seq_keys(orig)[j] == k0);
            assert(seq_keys(orig).contains(k0));
            assert(key_multiset(orig).count(k0) > 0);
            assert(key_multiset(ss).count(k0) > 0);
            assert(seq_keys(ss).contains(k0));
            let jj = choose|jj: int| 0 <= jj < seq_keys(ss).len() && seq_keys(ss)[jj] == k0;
            assert(ss[jj].key() == k0);
            assert(seq_keys(variants@).contains(ss[jj].key()));
        }
    }
    StochasticLanguage { variants, counts, total }
}
}

} // verus!
