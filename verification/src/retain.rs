//! `Vec::retain`, but the filter function can fail: on the first error the
//! error is propagated upwards and the vector remains untouched.

use vstd::prelude::*;

verus! {

/// The subsequence of `s` at the positions where `ds` is set.
pub open spec fn kept<T>(s: Seq<T>, ds: Seq<bool>) -> Seq<T>
    decreases s.len(),
{
    if s.len() == 0 {
        Seq::empty()
    } else if ds[0] {
        seq![s[0]] + kept(s.drop_first(), ds.drop_first())
    } else {
        kept(s.drop_first(), ds.drop_first())
    }
}

/// `ds` is a possible verdict of the filter on every element of `s`.
pub open spec fn decisions_of<T, E, F: Fn(&T) -> Result<bool, E>>(
    f: F,
    s: Seq<T>,
    ds: Seq<bool>,
) -> bool {
    &&& ds.len() == s.len()
    &&& forall|i: int|
        0 <= i < s.len() ==> #[trigger] call_ensures(f, (&s[i],), Result::<bool, E>::Ok(ds[i]))
}

/// The filter can answer some element of `s` with this error.
#[verifier::opaque]
pub open spec fn fails_on_some<T, E, F: Fn(&T) -> Result<bool, E>>(f: F, s: Seq<T>, e: E) -> bool {
    exists|i: int|
        0 <= i < s.len() && #[trigger] call_ensures(f, (&s[i],), Result::<bool, E>::Err(e))
}

/// Runs the filter over every element, collecting the verdicts; stops at the
/// first error.
fn collect_decisions<T, E, F: Fn(&T) -> Result<bool, E>>(vec: &Vec<T>, f: F) -> (r: Result<
    Vec<bool>,
    E,
>)
    requires
        forall|i: int| 0 <= i < vec@.len() ==> #[trigger] call_requires(f, (&vec@[i],)),
    ensures
        r matches Ok(flags) ==> decisions_of::<T, E, F>(f, vec@, flags@),
        r matches Err(e) ==> fails_on_some(f, vec@, e),
{
    let n = vec.len();
    let mut flags: Vec<bool> = Vec::new();
    let mut i: usize = 0;
    while i < n
        invariant
            0 <= i <= n == vec@.len(),
            forall|m: int| 0 <= m < vec@.len() ==> #[trigger] call_requires(f, (&vec@[m],)),
            flags@.len() == i,
            forall|m: int|
                0 <= m < i ==> #[trigger] call_ensures(
                    f,
                    (&vec@[m],),
                    Result::<bool, E>::Ok(flags@[m]),
                ),
        decreases n - i,
    {
        match f(&vec[i]) {
            Ok(b) => {
                flags.push(b);
            },
            Err(e) => {
                proof {
                    reveal(fails_on_some);
                    assert(call_ensures(f, (&vec@[i as int],), Result::<bool, E>::Err(e)));
                }
                return Err(e);
            },
        }
        i += 1;
    }
    Ok(flags)
}

/// Retains the elements the filter accepts, in order. If the filter fails on
/// any element, the first error is returned and the vector is left untouched.
pub fn retain_err<T, E, F: Fn(&T) -> Result<bool, E>>(vec: &mut Vec<T>, f: F) -> (r: Result<
    (),
    E,
>)
    requires
        forall|i: int|
            0 <= i < old(vec)@.len() ==> #[trigger] call_requires(f, (&old(vec)@[i],)),
    ensures
        r is Ok ==> exists|ds: Seq<bool>|
            #[trigger] decisions_of::<T, E, F>(f, old(vec)@, ds) && final(vec)@ == kept(
                old(vec)@,
                ds,
            ),
        r matches Err(e) ==> final(vec)@ == old(vec)@ && fails_on_some(f, old(vec)@, e),
{
    let ghost orig = vec@;
    let n = vec.len();
    let flags = match collect_decisions(&*vec, f) {
        Ok(flags) => flags,
        Err(e) => {
            return Err(e);
        },
    };
    // drop the rejected elements, from the back so the remaining indices stay
    // valid
    let mut i: usize = n;
    while i > 0
        invariant
            0 <= i <= n == orig.len(),
            flags@.len() == n,
            vec@ == orig.take(i as int) + kept(orig.skip(i as int), flags@.skip(i as int)),
        decreases i,
    {
        i -= 1;
        let ghost before = vec@;
        proof {
            assert(orig.skip(i as int).drop_first() =~= orig.skip(i + 1));
            assert(flags@.skip(i as int).drop_first() =~= flags@.skip(i + 1));
            assert(orig.skip(i as int)[0] == orig[i as int]);
            assert(flags@.skip(i as int)[0] == flags@[i as int]);
        }
        if !flags[i] {
            vec.remove(i);
            proof {
                assert(vec@ =~= orig.take(i as int) + kept(
                    orig.skip(i as int),
                    flags@.skip(i as int),
                )) by {
                    assert(before == orig.take(i + 1) + kept(orig.skip(i + 1), flags@.skip(i + 1)));
                    assert(kept(orig.skip(i as int), flags@.skip(i as int)) == kept(
                        orig.skip(i + 1),
                        flags@.skip(i + 1),
                    ));
                    assert(forall|m: int|
                        0 <= m < i ==> #[trigger] before.remove(i as int)[m] == orig.take(
                            i as int,
                        )[m]);
                }
            }
        } else {
            proof {
                assert(vec@ =~= orig.take(i as int) + kept(
                    orig.skip(i as int),
                    flags@.skip(i as int),
                )) by {
                    assert(kept(orig.skip(i as int), flags@.skip(i as int)) == seq![
                        orig[i as int],
                    ] + kept(orig.skip(i + 1), flags@.skip(i + 1)));
                    assert(orig.take(i + 1) =~= orig.take(i as int) + seq![orig[i as int]]);
                }
            }
        }
    }
    proof {
        assert(orig.skip(0) =~= orig);
        assert(flags@.skip(0) =~= flags@);
        assert(orig.take(0) =~= Seq::<T>::empty());
        assert(vec@ =~= kept(orig, flags@));
    }
    Ok(())
}

} // verus!
