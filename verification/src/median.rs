//! Sorting bytes for the median filter: a verified insertion sort whose
//! result is the unique ascending rearrangement, so the median of a
//! neighborhood is exactly the middle element of its sorted sample sequence.

use vstd::prelude::*;

use vstd::relations::sorted_by;
use vstd::relations::total_ordering;
use vstd::seq_lib::lemma_sorted_unique;
use vstd::seq_lib::group_to_multiset_ensures;
use vstd::multiset::group_multiset_axioms;
use vstd::multiset::group_multiset_properties;

verus! {

/// The ascending order on bytes, the order the median is taken in.
pub open spec fn u8_leq() -> spec_fn(u8, u8) -> bool {
    |a: u8, b: u8| a <= b
}

/// Ascending byte order is a total order.
pub proof fn lemma_u8_leq_total()
    ensures
        total_ordering(u8_leq()),
{
}

/// The middle element (index 4) of the ascending rearrangement of a
/// nine-element byte sequence.
pub open spec fn median9(s: Seq<u8>) -> u8
    recommends
        s.len() == 9,
{
    s.sort_by(u8_leq())[4]
}

/// Swapping two positions of a sequence leaves its multiset of elements
/// unchanged.
proof fn lemma_swap_multiset(s: Seq<u8>, i: int, j: int)
    requires
        0 <= i < s.len(),
        0 <= j < s.len(),
    ensures
        s.update(i, s[j]).update(j, s[i]).to_multiset() == s.to_multiset(),
{
    broadcast use group_to_multiset_ensures;
    broadcast use group_multiset_axioms;
    broadcast use group_multiset_properties;

    let s1 = s.update(i, s[j]);
    assert(s1.update(j, s[i]).to_multiset() =~= s.to_multiset());
}

/// Sorts a byte vector ascending in place, keeping exactly the same
/// elements: the result is sorted by `u8_leq` and has the same multiset as
/// the input.
pub fn sort_bytes(v: &mut Vec<u8>)
    ensures
        final(v)@.len() == old(v)@.len(),
        sorted_by(final(v)@, u8_leq()),
        final(v)@.to_multiset() == old(v)@.to_multiset(),
{
    let ghost orig = v@;
    let n: usize = v.len();
    if n <= 1 {
        return;
    }
    let mut i: usize = 1;
    while i < n
        invariant
            v@.len() == n,
            v@.to_multiset() == orig.to_multiset(),
            1 <= i <= n,
            forall|k: int, l: int| 0 <= k < l < i ==> v@[k] <= v@[l],
        decreases n - i,
    {
        let mut j: usize = i;
        while j > 0 && v[j - 1] > v[j]
            invariant
                v@.len() == n,
                v@.to_multiset() == orig.to_multiset(),
                0 <= j <= i < n,
                forall|k: int, l: int| 0 <= k < l <= i && l != j ==> v@[k] <= v@[l],
            decreases j,
        {
            let a: u8 = v[j - 1];
            let b: u8 = v[j];
            let ghost prev = v@;
            v[j - 1] = b;
            v[j] = a;
            proof {
                lemma_swap_multiset(prev, j - 1, j as int);
                assert(v@ == prev.update(j - 1, prev[j as int]).update(j as int, prev[j - 1]));
                assert forall|k: int, l: int|
                    0 <= k < l <= i && l != j - 1 implies v@[k] <= v@[l] by {
                    if l == j {
                        if k == j - 1 {
                        } else {
                            assert(prev[k] <= prev[j - 1]);
                        }
                    } else {
                        if k == j - 1 {
                            assert(prev[j as int] <= prev[l]);
                        } else if k == j {
                            assert(prev[j - 1] <= prev[l]);
                        } else {
                            assert(prev[k] <= prev[l]);
                        }
                    }
                }
            }
            j -= 1;
        }
        proof {
            assert forall|k: int, l: int| 0 <= k < l <= i implies v@[k] <= v@[l] by {
                if l == j {
                    if j > 0 {
                        if k < j - 1 {
                            assert(v@[k] <= v@[j - 1]);
                        }
                    }
                }
            }
        }
        i += 1;
    }
}

} // verus!
