//! Sorting by a total preorder that the items bring along.

use vstd::prelude::*;

verus! {

/// Items that can be put in order. `precedes` is total and transitive, so
/// any two items can be compared and a sorted sequence exists.
pub trait Ranked: Sized {
    /// `self` may stand before `other`.
    spec fn precedes(&self, other: &Self) -> bool;

    /// Decides whether `self` may stand before `other`.
    fn goes_before(&self, other: &Self) -> (b: bool)
        ensures
            b == self.precedes(other),
    ;

    /// Of two items, one may stand before the other.
    proof fn precedes_total(a: &Self, b: &Self)
        ensures
            a.precedes(b) || b.precedes(a),
    ;

    /// What may stand before an item may stand before all that the item
    /// may stand before.
    proof fn precedes_transitive(a: &Self, b: &Self, c: &Self)
        requires
            a.precedes(b),
            b.precedes(c),
        ensures
            a.precedes(c),
    ;
}

/// Every item may stand before all the items that follow it.
pub open spec fn sorted<T: Ranked>(s: Seq<T>) -> bool {
    forall|i: int, j: int| 0 <= i < j < s.len() ==> (#[trigger] s[i]).precedes(#[trigger] &s[j])
}

/// Puts `item` into the sorted `out`, behind the items that may stand
/// before it.
pub fn insert_sorted<T: Ranked>(out: &mut Vec<T>, item: T)
    requires
        sorted(old(out)@),
    ensures
        sorted(final(out)@),
        final(out)@.to_multiset() == old(out)@.to_multiset().insert(item),
        final(out)@.len() == old(out)@.len() + 1,
{
    let mut k: usize = 0;
    while k < out.len() && out[k].goes_before(&item)
        invariant
            k <= out.len(),
            out@ == old(out)@,
            forall|i: int| 0 <= i < k ==> (#[trigger] out@[i]).precedes(&item),
        decreases out.len() - k,
    {
        k += 1;
    }
    let ghost before = out@;
    proof {
        if k < before.len() {
            T::precedes_total(&before[k as int], &item);
            assert forall|j: int| k <= j < before.len() implies item.precedes(
                #[trigger] &before[j],
            ) by {
                if j > k {
                    T::precedes_transitive(&item, &before[k as int], &before[j]);
                }
            }
        }
        vstd::seq_lib::to_multiset_insert(before, k as int, item);
    }
    out.insert(k, item);
    proof {
        let after = out@;
        assert forall|i: int, j: int| 0 <= i < j < after.len() implies (#[trigger] after[i]).precedes(
            #[trigger] &after[j],
        ) by {
            if j < k {
                assert(after[i] == before[i] && after[j] == before[j]);
            } else if j == k {
                assert(after[i] == before[i]);
            } else if i < k {
                assert(after[i] == before[i] && after[j] == before[j - 1]);
                if j - 1 == i {
                } else {
                    assert(before[i].precedes(&before[j - 1]));
                }
            } else if i == k {
                assert(after[j] == before[j - 1]);
            } else {
                assert(after[i] == before[i - 1] && after[j] == before[j - 1]);
            }
        }
    }
}

/// Sorts the items: the result holds the same items, each as often as
/// before, and every item may stand before all that follow it.
pub fn sort<T: Ranked>(items: Vec<T>) -> (out: Vec<T>)
    ensures
        sorted(out@),
        out@.to_multiset() == items@.to_multiset(),
        out@.len() == items@.len(),
{
    let mut rest = items;
    let mut out: Vec<T> = Vec::new();
    proof {
        assert(out@.to_multiset() =~= vstd::multiset::Multiset::<T>::empty()) by {
            broadcast use vstd::seq_lib::group_to_multiset_ensures;

            assert(out@.to_multiset().len() == 0);
        }
        assert(out@.to_multiset().add(rest@.to_multiset()) =~= items@.to_multiset());
    }
    while rest.len() > 0
        invariant
            sorted(out@),
            out@.to_multiset().add(rest@.to_multiset()) == items@.to_multiset(),
            out@.len() + rest@.len() == items@.len(),
        decreases rest.len(),
    {
        let ghost rest_before = rest@;
        let ghost out_before = out@;
        let item = rest.pop().unwrap();
        proof {
            assert(rest_before =~= rest@.push(item));
            vstd::seq_lib::to_multiset_build(rest@, item);
        }
        insert_sorted(&mut out, item);
        proof {
            assert(out@.to_multiset().add(rest@.to_multiset()) =~= out_before.to_multiset().add(
                rest_before.to_multiset(),
            ));
        }
    }
    proof {
        assert(rest@.to_multiset() =~= vstd::multiset::Multiset::<T>::empty()) by {
            broadcast use vstd::seq_lib::group_to_multiset_ensures;

            assert(rest@.to_multiset().len() == 0);
        }
        assert(out@.to_multiset() =~= items@.to_multiset());
    }
    out
}

} // verus!
