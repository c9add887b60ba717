//! The canonical total order on variants.
//!
//! Stochastic languages sort their variants ascending so that matrix rows and
//! columns are stable and runs are reproducible. A variant type exposes an
//! abstract key and a total order on keys ([`VariantOrd`]); sequences of
//! ordered elements are ordered lexicographically.

use vstd::prelude::*;

verus! {

/// A variant type with a total order, used both for canonical sorting and as
/// the identity under which occurrences are counted.
pub trait VariantOrd: Sized {
    /// The abstract value of a variant; variants with equal keys are the same
    /// variant.
    type Key;

    spec fn key(&self) -> Self::Key;

    /// The total order on keys.
    spec fn leq(x: Self::Key, y: Self::Key) -> bool;

    /// The order laws: total, antisymmetric, transitive.
    proof fn lemma_order_laws()
        ensures
            forall|x: Self::Key, y: Self::Key|
                #![trigger Self::leq(x, y)]
                Self::leq(x, y) || Self::leq(y, x),
            forall|x: Self::Key, y: Self::Key|
                #![trigger Self::leq(x, y), Self::leq(y, x)]
                Self::leq(x, y) && Self::leq(y, x) ==> x == y,
            forall|x: Self::Key, y: Self::Key, z: Self::Key|
                #![trigger Self::leq(x, y), Self::leq(y, z)]
                Self::leq(x, y) && Self::leq(y, z) ==> Self::leq(x, z),
    ;

    fn key_le(&self, other: &Self) -> (b: bool)
        ensures
            b == Self::leq(self.key(), other.key()),
    ;

    fn key_eq(&self, other: &Self) -> (b: bool)
        ensures
            b == (self.key() == other.key()),
    ;

    /// A copy of the variant carrying the same key.
    fn duplicate(&self) -> (r: Self)
        ensures
            r.key() == self.key(),
    ;
}

/// Lexicographic order on key sequences of an ordered element type: the empty
/// sequence comes first, equal heads defer to the tails, and unequal heads
/// decide.
pub open spec fn lex_leq<T: VariantOrd>(x: Seq<T::Key>, y: Seq<T::Key>) -> bool
    decreases x.len(),
{
    if x.len() == 0 {
        true
    } else if y.len() == 0 {
        false
    } else if x[0] == y[0] {
        lex_leq::<T>(x.drop_first(), y.drop_first())
    } else {
        T::leq(x[0], y[0])
    }
}

/// The lexicographic order is total.
pub proof fn lemma_lex_total<T: VariantOrd>(x: Seq<T::Key>, y: Seq<T::Key>)
    ensures
        lex_leq::<T>(x, y) || lex_leq::<T>(y, x),
    decreases x.len(),
{
    T::lemma_order_laws();
    if x.len() == 0 || y.len() == 0 {
    } else if x[0] == y[0] {
        lemma_lex_total::<T>(x.drop_first(), y.drop_first());
    } else {
        assert(T::leq(x[0], y[0]) || T::leq(y[0], x[0]));
    }
}

/// The lexicographic order is antisymmetric: mutually ordered sequences are
/// equal.
pub proof fn lemma_lex_antisym<T: VariantOrd>(x: Seq<T::Key>, y: Seq<T::Key>)
    requires
        lex_leq::<T>(x, y),
        lex_leq::<T>(y, x),
    ensures
        x == y,
    decreases x.len(),
{
    T::lemma_order_laws();
    if x.len() == 0 {
        assert(y.len() == 0);
        assert(x =~= y);
    } else {
        assert(y.len() > 0);
        if x[0] == y[0] {
            lemma_lex_antisym::<T>(x.drop_first(), y.drop_first());
            assert(x =~= y) by {
                assert(x.drop_first() == y.drop_first());
                assert(forall|i: int|
                    1 <= i < x.len() ==> x[i] == x.drop_first()[i - 1] && y[i] == y.drop_first()[
                        i - 1
                    ]);
            }
        } else {
            assert(T::leq(x[0], y[0]) && T::leq(y[0], x[0]));
            assert(x[0] == y[0]);
        }
    }
}

/// The lexicographic order is transitive.
pub proof fn lemma_lex_trans<T: VariantOrd>(x: Seq<T::Key>, y: Seq<T::Key>, z: Seq<T::Key>)
    requires
        lex_leq::<T>(x, y),
        lex_leq::<T>(y, z),
    ensures
        lex_leq::<T>(x, z),
    decreases x.len() + y.len() + z.len(),
{
    T::lemma_order_laws();
    if x.len() == 0 {
    } else {
        assert(y.len() > 0);
        assert(z.len() > 0);
        if x[0] == y[0] && y[0] == z[0] {
            lemma_lex_trans::<T>(x.drop_first(), y.drop_first(), z.drop_first());
        } else if x[0] == y[0] {
            // heads of y and z differ, so heads of x and z differ the same way
            assert(T::leq(y[0], z[0]));
        } else if y[0] == z[0] {
            assert(T::leq(x[0], y[0]));
        } else {
            assert(T::leq(x[0], y[0]) && T::leq(y[0], z[0]));
            assert(T::leq(x[0], z[0]));
            if x[0] == z[0] {
                // then y's head would be squeezed into equality, contradiction
                assert(T::leq(y[0], x[0]));
                assert(x[0] == y[0]);
            }
        }
    }
}

/// Dropping a common prefix does not change the lexicographic comparison.
pub proof fn lemma_lex_skip<T: VariantOrd>(x: Seq<T::Key>, y: Seq<T::Key>, k: int)
    requires
        0 <= k <= x.len(),
        k <= y.len(),
        forall|i: int| 0 <= i < k ==> x[i] == y[i],
    ensures
        lex_leq::<T>(x, y) == lex_leq::<T>(x.skip(k), y.skip(k)),
    decreases k,
{
    if k == 0 {
        assert(x.skip(0) =~= x);
        assert(y.skip(0) =~= y);
    } else {
        assert(x.len() > 0 && y.len() > 0 && x[0] == y[0]);
        lemma_lex_skip::<T>(x.drop_first(), y.drop_first(), k - 1);
        assert(x.drop_first().skip(k - 1) =~= x.skip(k));
        assert(y.drop_first().skip(k - 1) =~= y.skip(k));
        assert(forall|i: int|
            0 <= i < k - 1 ==> x.drop_first()[i] == x[i + 1] && y.drop_first()[i] == y[i + 1]);
    }
}

impl VariantOrd for usize {
    type Key = usize;

    open spec fn key(&self) -> usize {
        *self
    }

    open spec fn leq(x: usize, y: usize) -> bool {
        x <= y
    }

    proof fn lemma_order_laws() {
    }

    fn key_le(&self, other: &usize) -> bool {
        *self <= *other
    }

    fn key_eq(&self, other: &usize) -> bool {
        *self == *other
    }

    fn duplicate(&self) -> usize {
        *self
    }
}

impl VariantOrd for u64 {
    type Key = u64;

    open spec fn key(&self) -> u64 {
        *self
    }

    open spec fn leq(x: u64, y: u64) -> bool {
        x <= y
    }

    proof fn lemma_order_laws() {
    }

    fn key_le(&self, other: &u64) -> bool {
        *self <= *other
    }

    fn key_eq(&self, other: &u64) -> bool {
        *self == *other
    }

    fn duplicate(&self) -> u64 {
        *self
    }
}

/// Characters are ordered by scalar value; antisymmetry holds because a
/// character is determined by its scalar value.
impl VariantOrd for char {
    type Key = char;

    open spec fn key(&self) -> char {
        *self
    }

    open spec fn leq(x: char, y: char) -> bool {
        (x as u32) <= (y as u32)
    }

    proof fn lemma_order_laws() {
        assert forall|x: char, y: char|
            #![trigger Self::leq(x, y), Self::leq(y, x)]
            Self::leq(x, y) && Self::leq(y, x) implies x == y by {
            vstd::utf8::char_u32_cast(x, x as u32);
            vstd::utf8::char_u32_cast(y, y as u32);
        }
    }

    fn key_le(&self, other: &char) -> bool {
        (*self as u32) <= (*other as u32)
    }

    fn key_eq(&self, other: &char) -> bool {
        *self == *other
    }

    fn duplicate(&self) -> char {
        *self
    }
}

impl VariantOrd for String {
    type Key = Seq<char>;

    open spec fn key(&self) -> Seq<char> {
        self@
    }

    open spec fn leq(x: Seq<char>, y: Seq<char>) -> bool {
        lex_leq::<char>(x, y)
    }

    proof fn lemma_order_laws() {
        assert forall|x: Seq<char>, y: Seq<char>| #![trigger Self::leq(x, y)]
            Self::leq(x, y) || Self::leq(y, x) by {
            lemma_lex_total::<char>(x, y);
        }
        assert forall|x: Seq<char>, y: Seq<char>|
            #![trigger Self::leq(x, y), Self::leq(y, x)]
            Self::leq(x, y) && Self::leq(y, x) implies x == y by {
            lemma_lex_antisym::<char>(x, y);
        }
        assert forall|x: Seq<char>, y: Seq<char>, z: Seq<char>|
            #![trigger Self::leq(x, y), Self::leq(y, z)]
            Self::leq(x, y) && Self::leq(y, z) implies Self::leq(x, z) by {
            lemma_lex_trans::<char>(x, y, z);
        }
    }

    fn key_le(&self, other: &String) -> (b: bool)
        ensures
            b == Self::leq(self@, other@),
    {
        let n1 = self.as_str().unicode_len();
        let n2 = other.as_str().unicode_len();
        let shorter = if n1 <= n2 {
            n1
        } else {
            n2
        };
        let mut i: usize = 0;
        while i < shorter
            invariant
                0 <= i <= shorter,
                shorter <= n1 == self@.len(),
                shorter <= n2 == other@.len(),
                forall|k: int| 0 <= k < i ==> self@[k] == other@[k],
            decreases shorter - i,
        {
            let c1 = self.as_str().get_char(i);
            let c2 = other.as_str().get_char(i);
            if c1 != c2 {
                proof {
                    lemma_lex_skip::<char>(self@, other@, i as int);
                    let xs = self@.skip(i as int);
                    let ys = other@.skip(i as int);
                    assert(xs.len() == self@.len() - i);
                    assert(ys.len() == other@.len() - i);
                    assert(xs[0] == self@[i as int] && ys[0] == other@[i as int]);
                    assert(lex_leq::<char>(xs, ys) == <char as VariantOrd>::leq(c1, c2));
                }
                return (c1 as u32) <= (c2 as u32);
            }
            i += 1;
        }
        proof {
            lemma_lex_skip::<char>(self@, other@, shorter as int);
            if n1 <= n2 {
                assert(self@.skip(shorter as int).len() == 0);
            } else {
                assert(other@.skip(shorter as int).len() == 0);
                assert(self@.skip(shorter as int).len() > 0);
            }
        }
        n1 <= n2
    }

    fn key_eq(&self, other: &String) -> bool {
        *self == *other
    }

    fn duplicate(&self) -> String {
        self.clone()
    }
}

/// The keys of a sequence of ordered variants, elementwise.
pub open spec fn seq_keys<T: VariantOrd>(s: Seq<T>) -> Seq<T::Key> {
    s.map_values(|t: T| t.key())
}

/// Sequences of ordered elements are themselves ordered, lexicographically by
/// their element keys.
impl<T: VariantOrd> VariantOrd for Vec<T> {
    type Key = Seq<T::Key>;

    open spec fn key(&self) -> Seq<T::Key> {
        seq_keys(self@)
    }

    open spec fn leq(x: Seq<T::Key>, y: Seq<T::Key>) -> bool {
        lex_leq::<T>(x, y)
    }

    proof fn lemma_order_laws() {
        assert forall|x: Seq<T::Key>, y: Seq<T::Key>| #![trigger Self::leq(x, y)]
            Self::leq(x, y) || Self::leq(y, x) by {
            lemma_lex_total::<T>(x, y);
        }
        assert forall|x: Seq<T::Key>, y: Seq<T::Key>|
            #![trigger Self::leq(x, y), Self::leq(y, x)]
            Self::leq(x, y) && Self::leq(y, x) implies x == y by {
            lemma_lex_antisym::<T>(x, y);
        }
        assert forall|x: Seq<T::Key>, y: Seq<T::Key>, z: Seq<T::Key>|
            #![trigger Self::leq(x, y), Self::leq(y, z)]
            Self::leq(x, y) && Self::leq(y, z) implies Self::leq(x, z) by {
            lemma_lex_trans::<T>(x, y, z);
        }
    }

    fn key_le(&self, other: &Vec<T>) -> (b: bool)
        ensures
            b == Self::leq(self.key(), other.key()),
    {
        let n1 = self.len();
        let n2 = other.len();
        let shorter = if n1 <= n2 {
            n1
        } else {
            n2
        };
        let ghost xs = seq_keys(self@);
        let ghost ys = seq_keys(other@);
        let mut i: usize = 0;
        while i < shorter
            invariant
                0 <= i <= shorter,
                xs == seq_keys(self@),
                ys == seq_keys(other@),
                shorter <= n1 == self@.len() == xs.len(),
                shorter <= n2 == other@.len() == ys.len(),
                forall|k: int| 0 <= k < i ==> xs[k] == ys[k],
            decreases shorter - i,
        {
            if !self[i].key_eq(&other[i]) {
                let b = self[i].key_le(&other[i]);
                proof {
                    lemma_lex_skip::<T>(xs, ys, i as int);
                    assert(xs.skip(i as int).len() == xs.len() - i);
                    assert(ys.skip(i as int).len() == ys.len() - i);
                    assert(xs.skip(i as int)[0] == xs[i as int] && xs[i as int] == self@[
                        i as int
                    ].key());
                    assert(ys.skip(i as int)[0] == ys[i as int] && ys[i as int] == other@[
                        i as int
                    ].key());
                    assert(lex_leq::<T>(xs.skip(i as int), ys.skip(i as int)) == T::leq(
                        self@[i as int].key(),
                        other@[i as int].key(),
                    ));
                }
                return b;
            }
            assert(xs[i as int] == ys[i as int]);
            i += 1;
        }
        proof {
            lemma_lex_skip::<T>(xs, ys, shorter as int);
            if n1 <= n2 {
                assert(xs.skip(shorter as int).len() == 0);
            } else {
                assert(ys.skip(shorter as int).len() == 0);
                assert(xs.skip(shorter as int).len() > 0);
            }
        }
        n1 <= n2
    }

    fn key_eq(&self, other: &Vec<T>) -> (b: bool)
        ensures
            b == (self.key() == other.key()),
    {
        let ghost xs = seq_keys(self@);
        let ghost ys = seq_keys(other@);
        if self.len() != other.len() {
            proof {
                assert(xs.len() != ys.len());
            }
            return false;
        }
        let mut i: usize = 0;
        while i < self.len()
            invariant
                0 <= i <= self@.len(),
                xs == seq_keys(self@),
                ys == seq_keys(other@),
                self@.len() == other@.len() == xs.len() == ys.len(),
                forall|k: int| 0 <= k < i ==> xs[k] == ys[k],
            decreases self@.len() - i,
        {
            if !self[i].key_eq(&other[i]) {
                proof {
                    assert(xs[i as int] != ys[i as int]);
                }
                return false;
            }
            assert(xs[i as int] == ys[i as int]);
            i += 1;
        }
        proof {
            assert(xs =~= ys);
        }
        true
    }

    fn duplicate(&self) -> (r: Vec<T>)
        ensures
            r.key() == self.key(),
    {
        let mut out: Vec<T> = Vec::new();
        let mut i: usize = 0;
        while i < self.len()
            invariant
                0 <= i <= self@.len(),
                out@.len() == i,
                forall|k: int| 0 <= k < i ==> (#[trigger] out@[k]).key() == self@[k].key(),
            decreases self@.len() - i,
        {
            out.push(self[i].duplicate());
            i += 1;
        }
        proof {
            assert(seq_keys(out@) =~= seq_keys(self@));
        }
        out
    }
}

/// `(activity, bin)` tokens are ordered by activity first, then by bin.
impl VariantOrd for (String, usize) {
    type Key = (Seq<char>, usize);

    open spec fn key(&self) -> (Seq<char>, usize) {
        (self.0@, self.1)
    }

    open spec fn leq(x: (Seq<char>, usize), y: (Seq<char>, usize)) -> bool {
        if x.0 == y.0 {
            x.1 <= y.1
        } else {
            lex_leq::<char>(x.0, y.0)
        }
    }

    proof fn lemma_order_laws() {
        assert forall|x: (Seq<char>, usize), y: (Seq<char>, usize)| #![trigger Self::leq(x, y)]
            Self::leq(x, y) || Self::leq(y, x) by {
            lemma_lex_total::<char>(x.0, y.0);
        }
        assert forall|x: (Seq<char>, usize), y: (Seq<char>, usize)|
            #![trigger Self::leq(x, y), Self::leq(y, x)]
            Self::leq(x, y) && Self::leq(y, x) implies x == y by {
            if x.0 == y.0 {
                assert(x.1 == y.1);
            } else {
                lemma_lex_antisym::<char>(x.0, y.0);
            }
        }
        assert forall|x: (Seq<char>, usize), y: (Seq<char>, usize), z: (Seq<char>, usize)|
            #![trigger Self::leq(x, y), Self::leq(y, z)]
            Self::leq(x, y) && Self::leq(y, z) implies Self::leq(x, z) by {
            if x.0 == y.0 && y.0 == z.0 {
            } else if x.0 == y.0 || y.0 == z.0 {
            } else {
                lemma_lex_trans::<char>(x.0, y.0, z.0);
                if x.0 == z.0 {
                    lemma_lex_antisym::<char>(x.0, y.0);
                }
            }
        }
    }

    fn key_le(&self, other: &(String, usize)) -> (b: bool)
        ensures
            b == Self::leq(self.key(), other.key()),
    {
        if self.0 == other.0 {
            self.1 <= other.1
        } else {
            self.0.key_le(&other.0)
        }
    }

    fn key_eq(&self, other: &(String, usize)) -> bool {
        self.0 == other.0 && self.1 == other.1
    }

    fn duplicate(&self) -> (String, usize) {
        (self.0.clone(), self.1)
    }
}

} // verus!
