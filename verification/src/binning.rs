//! Discretization of a continuous attribute into a small number of ordered
//! bins, with one binner trained per key (activity), since bin boundaries are
//! not comparable across keys. Attribute values are integer-scaled
//! measurements (e.g. service times in milliseconds).

use vstd::multiset::Multiset;
use vstd::prelude::*;

use crate::order::VariantOrd;

verus! {

broadcast use vstd::seq_lib::group_to_multiset_ensures;

/// A trained discretizer of integer-scaled attribute values into ordered
/// bins: `bin` maps a value to a bin index below `num_bins`, monotonically in
/// the value, so a higher bin always means a larger value region.
pub trait Binner: Sized {
    type Args: Copy;

    /// The arguments the binner can be trained with.
    spec fn args_wf(args: Self::Args) -> bool;

    /// The trained binner's internal invariant.
    spec fn wf(&self) -> bool;

    /// The binner is the result of training on this population of values.
    spec fn trained_on(&self, values: Multiset<u64>, args: Self::Args) -> bool;

    spec fn spec_num_bins(&self) -> int;

    spec fn spec_bin(&self, data: u64) -> int;

    /// Bin indices carry ordered semantics: a larger value never falls into a
    /// smaller bin.
    proof fn lemma_bin_monotone(&self, x: u64, y: u64)
        requires
            self.wf(),
            x <= y,
        ensures
            self.spec_bin(x) <= self.spec_bin(y),
    ;

    fn new(data: Vec<u64>, args: Self::Args) -> (r: Self)
        requires
            data@.len() > 0,
            Self::args_wf(args),
        ensures
            r.wf(),
            r.trained_on(data@.to_multiset(), args),
    ;

    fn bin(&self, data: u64) -> (r: usize)
        requires
            self.wf(),
        ensures
            r == self.spec_bin(data),
            0 <= r < self.spec_num_bins(),
    ;

    fn num_bins(&self) -> (r: usize)
        requires
            self.wf(),
        ensures
            r == self.spec_num_bins(),
    ;
}

/// The population of values a key carries in a list of (key, value) pairs.
pub open spec fn values_for_key(data: Seq<(String, u64)>, k: Seq<char>) -> Multiset<u64>
    decreases data.len(),
{
    if data.len() == 0 {
        Multiset::empty()
    } else if data.last().0@ == k {
        values_for_key(data.drop_last(), k).insert(data.last().1)
    } else {
        values_for_key(data.drop_last(), k)
    }
}

/// Executable string-slice equality on character sequences.
fn str_equal(a: &str, b: &str) -> (r: bool)
    ensures
        r == (a@ == b@),
{
    let n1 = a.unicode_len();
    let n2 = b.unicode_len();
    if n1 != n2 {
        return false;
    }
    let mut i: usize = 0;
    while i < n1
        invariant
            0 <= i <= n1 == a@.len() == b@.len(),
            forall|k: int| 0 <= k < i ==> a@[k] == b@[k],
        decreases n1 - i,
    {
        if a.get_char(i) != b.get_char(i) {
            return false;
        }
        i += 1;
    }
    proof {
        assert(a@ =~= b@);
    }
    true
}

/// The key occurs among the first `upto` pairs of the list.
pub open spec fn key_occurs(data: Seq<(String, u64)>, upto: int, k: Seq<char>) -> bool {
    exists|j: int| 0 <= j < upto && (#[trigger] data[j]).0@ == k
}

/// The key stands in the list of distinct keys.
pub open spec fn key_listed(keys: Seq<String>, k: Seq<char>) -> bool {
    exists|g: int| 0 <= g < keys.len() && (#[trigger] keys[g])@ == k
}

/// A key that occurs in the list carries at least one value.
proof fn lemma_values_for_key_present(data: Seq<(String, u64)>, k: Seq<char>, j: int)
    requires
        0 <= j < data.len(),
        data[j].0@ == k,
    ensures
        values_for_key(data, k).len() > 0,
    decreases data.len(),
{
    if j == data.len() - 1 {
    } else {
        lemma_values_for_key_present(data.drop_last(), k, j);
    }
}

/// The values the given key carries in the data, in order.
fn collect_values_for_key(data: &Vec<(String, u64)>, k: &str) -> (values: Vec<u64>)
    ensures
        values@.to_multiset() == values_for_key(data@, k@),
{
    broadcast use vstd::seq_lib::group_to_multiset_ensures;

    let n = data.len();
    let mut values: Vec<u64> = Vec::new();
    let mut j: usize = 0;
    while j < n
        invariant
            0 <= j <= n == data@.len(),
            values@.to_multiset() == values_for_key(data@.take(j as int), k@),
        decreases n - j,
    {
        let ghost prefix = data@.take(j as int);
        proof {
            assert(data@.take(j + 1).drop_last() =~= prefix);
            assert(data@.take(j + 1).last() == data@[j as int]);
        }
        if str_equal(data[j].0.as_str(), k) {
            values.push(data[j].1);
        }
        j += 1;
    }
    proof {
        assert(data@.take(n as int) =~= data@);
    }
    values
}

/// Trains and manages a separate binner for each key (activity).
pub struct BinnerManager<T: Binner> {
    pub binners: Vec<(String, T)>,
}

impl<T: Binner> BinnerManager<T> {
    /// Distinct keys, each with a well-formed binner.
    pub open spec fn wf(&self) -> bool {
        &&& forall|g: int, h: int|
            0 <= g < h < self.binners@.len() ==> (#[trigger] self.binners@[g]).0@ != (
            #[trigger] self.binners@[h]).0@
        &&& forall|g: int| 0 <= g < self.binners@.len() ==> (#[trigger] self.binners@[g]).1.wf()
    }

    /// A binner was trained for this key.
    pub open spec fn has_binner(&self, k: Seq<char>) -> bool {
        exists|g: int| 0 <= g < self.binners@.len() && (#[trigger] self.binners@[g]).0@ == k
    }

    /// The position of the key's binner (unique when keys are distinct).
    pub open spec fn binner_index(&self, k: Seq<char>) -> int {
        choose|g: int| 0 <= g < self.binners@.len() && (#[trigger] self.binners@[g]).0@ == k
    }

    /// The manager is the result of training on this list of (key, value)
    /// pairs: it has exactly one binner per distinct key of the list, each
    /// trained on the values its key carries.
    pub open spec fn trained_on(&self, data: Seq<(String, u64)>, args: T::Args) -> bool {
        &&& forall|j: int| 0 <= j < data.len() ==> self.has_binner((#[trigger] data[j]).0@)
        &&& forall|g: int|
            0 <= g < self.binners@.len() ==> key_occurs(
                data,
                data.len() as int,
                (#[trigger] self.binners@[g]).0@,
            )
        &&& forall|g: int|
            0 <= g < self.binners@.len() ==> (#[trigger] self.binners@[g]).1.trained_on(
                values_for_key(data, self.binners@[g].0@),
                args,
            )
    }

    /// Creates a [`BinnerManager`] from (key, value) pairs: one binner is
    /// trained per distinct key, on the values that key carries.
    pub fn from_key_value_pairs(data: Vec<(String, u64)>, binner_args: T::Args) -> (r:
        BinnerManager<T>)
        requires
            T::args_wf(binner_args),
        ensures
            r.wf(),
            r.trained_on(data@, binner_args),
    {
        let ghost all = data@;
        let n = data.len();
        // first pass: the distinct keys, in order of first appearance
        let mut keys: Vec<String> = Vec::new();
        let mut i: usize = 0;
        while i < n
            invariant
                0 <= i <= n == all.len(),
                data@ == all,
                forall|g: int, h: int|
                    0 <= g < h < keys@.len() ==> (#[trigger] keys@[g])@ != (#[trigger] keys@[h])@,
                forall|j: int| 0 <= j < i ==> key_listed(keys@, (#[trigger] all[j]).0@),
                forall|g: int|
                    0 <= g < keys@.len() ==> key_occurs(all, i as int, (#[trigger] keys@[g])@),
            decreases n - i,
        {
            let mut found: bool = false;
            let mut g: usize = 0;
            while g < keys.len() && !found
                invariant
                    0 <= g <= keys@.len(),
                    0 <= i < all.len(),
                    data@ == all,
                    found ==> g < keys@.len() && keys@[g as int]@ == all[i as int].0@,
                    !found ==> forall|h: int|
                        0 <= h < g ==> (#[trigger] keys@[h])@ != all[i as int].0@,
                decreases keys@.len() - g, (if found {
                    0int
                } else {
                    1int
                }),
            {
                if str_equal(keys[g].as_str(), data[i].0.as_str()) {
                    found = true;
                } else {
                    g += 1;
                }
            }
            let ghost old_keys = keys@;
            if !found {
                keys.push(data[i].0.duplicate());
            }
            proof {
                if !found {
                    assert(keys@ =~= old_keys.push(keys@.last()));
                    assert(keys@.last()@ == all[i as int].0@);
                }
                assert forall|j: int|
                    0 <= j < i + 1 implies key_listed(keys@, (#[trigger] all[j]).0@) by {
                    if j == i {
                        if found {
                            assert((keys@[g as int])@ == all[j].0@);
                        } else {
                            assert((keys@[old_keys.len() as int])@ == all[j].0@);
                        }
                    } else {
                        let gg = choose|gg: int|
                            0 <= gg < old_keys.len() && (#[trigger] old_keys[gg])@ == all[j].0@;
                        assert((keys@[gg])@ == all[j].0@);
                    }
                }
                assert forall|g2: int|
                    0 <= g2 < keys@.len() implies key_occurs(
                    all,
                    i + 1,
                    (#[trigger] keys@[g2])@,
                ) by {
                    if g2 < old_keys.len() {
                        assert(key_occurs(all, i as int, old_keys[g2]@));
                        let jj = choose|jj: int|
                            0 <= jj < i && (#[trigger] all[jj]).0@ == old_keys[g2]@;
                        assert(all[jj].0@ == keys@[g2]@);
                    } else {
                        assert(all[i as int].0@ == keys@[g2]@);
                    }
                }
            }
            i += 1;
        }
        // second pass: collect each key's values and train its binner
        let ghost final_keys = keys@;
        let total_keys = keys.len();
        let mut binners: Vec<(String, T)> = Vec::new();
        let mut rest = keys;
        let mut g: usize = 0;
        while g < total_keys
            invariant
                0 <= g <= total_keys == final_keys.len(),
                data@ == all,
                T::args_wf(binner_args),
                rest@ =~= final_keys.skip(g as int),
                forall|g2: int, h: int|
                    0 <= g2 < h < final_keys.len() ==> (#[trigger] final_keys[g2])@ != (
                    #[trigger] final_keys[h])@,
                forall|g2: int|
                    0 <= g2 < final_keys.len() ==> key_occurs(
                        all,
                        all.len() as int,
                        (#[trigger] final_keys[g2])@,
                    ),
                binners@.len() == g,
                forall|h: int|
                    0 <= h < g ==> (#[trigger] binners@[h]).0@ == final_keys[h]@,
                forall|h: int| 0 <= h < g ==> (#[trigger] binners@[h]).1.wf(),
                forall|h: int|
                    0 <= h < g ==> (#[trigger] binners@[h]).1.trained_on(
                        values_for_key(all, final_keys[h]@),
                        binner_args,
                    ),
            decreases total_keys - g,
        {
            let key = rest.remove(0);
            proof {
                assert(final_keys.skip(g as int)[0] == final_keys[g as int]);
                assert(rest@ =~= final_keys.skip(g + 1));
            }
            let values = collect_values_for_key(&data, key.as_str());
            proof {
                assert(key_occurs(all, all.len() as int, key@));
                let jj = choose|jj: int| 0 <= jj < all.len() && (#[trigger] all[jj]).0@ == key@;
                lemma_values_for_key_present(all, key@, jj);
                assert(values@.to_multiset().len() == values@.len());
            }
            let binner = T::new(values, binner_args);
            binners.push((key, binner));
            g += 1;
        }
        let result = BinnerManager { binners };
        proof {
            assert forall|j: int|
                0 <= j < all.len() implies result.has_binner((#[trigger] all[j]).0@) by {
                assert(key_listed(final_keys, all[j].0@));
                let gg = choose|gg: int|
                    0 <= gg < final_keys.len() && (#[trigger] final_keys[gg])@ == all[j].0@;
                assert(result.binners@[gg].0@ == all[j].0@);
            }
            assert forall|h: int|
                0 <= h < result.binners@.len() implies key_occurs(
                all,
                all.len() as int,
                (#[trigger] result.binners@[h]).0@,
            ) by {
                assert(key_occurs(all, all.len() as int, final_keys[h]@));
                assert(result.binners@[h].0@ == final_keys[h]@);
            }
            assert forall|g2: int, h: int|
                0 <= g2 < h < result.binners@.len() implies (#[trigger] result.binners@[g2]).0@
                != (#[trigger] result.binners@[h]).0@ by {
                assert(result.binners@[g2].0@ == final_keys[g2]@);
                assert(result.binners@[h].0@ == final_keys[h]@);
            }
            assert forall|g2: int|
                0 <= g2 < result.binners@.len() implies (
            #[trigger] result.binners@[g2]).1.trained_on(
                values_for_key(all, result.binners@[g2].0@),
                binner_args,
            ) by {
                assert(result.binners@[g2].0@ == final_keys[g2]@);
                assert(result.binners@[g2].1.trained_on(
                    values_for_key(all, final_keys[g2]@),
                    binner_args,
                ));
            }
        }
        result
    }

    /// Bins a value with the binner trained for the given key.
    ///
    /// Asking for a key that was never trained on is a programmer-contract
    /// violation, excluded by precondition: it can only happen when the
    /// resampling logic references a key absent from the training population.
    pub fn bin(&self, label: &str, data: u64) -> (r: usize)
        requires
            self.wf(),
            self.has_binner(label@),
        ensures
            r == self.binners@[self.binner_index(label@)].1.spec_bin(data),
            0 <= r < self.binners@[self.binner_index(label@)].1.spec_num_bins(),
    {
        let n = self.binners.len();
        let mut g: usize = 0;
        while g < n
            invariant
                0 <= g <= n == self.binners@.len(),
                self.wf(),
                self.has_binner(label@),
                forall|h: int| 0 <= h < g ==> (#[trigger] self.binners@[h]).0@ != label@,
            decreases n - g,
        {
            if str_equal(self.binners[g].0.as_str(), label) {
                proof {
                    let q = self.binner_index(label@);
                    assert(0 <= q < self.binners@.len() && self.binners@[q].0@ == label@);
                }
                return self.binners[g].1.bin(data);
            }
            g += 1;
        }
        proof {
            let w = choose|w: int|
                0 <= w < self.binners@.len() && (#[trigger] self.binners@[w]).0@ == label@;
            assert(self.binners@[w].0@ != label@);
        }
        vstd::pervasive::unreached()
    }
}

} // verus!
