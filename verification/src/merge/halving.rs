//! Merging two already sorted slices by comparing their current heads,
//! and a merge sort that splits into a larger first half.

use vstd::prelude::*;
use vstd::seq_lib::lemma_multiset_commutative;
use vstd::slice::{slice_subrange, slice_to_vec};
use crate::merge::{lemma_merge_multiset, lemma_merge_sorted, merge_lt, sorted};

verus! {

/// Merges two slices by repeatedly taking the smaller head, a tie from
/// the second slice; on sorted inputs the result is sorted, and it is a
/// permutation of the two inputs always.
pub fn merge_slices(s1: &[u32], s2: &[u32]) -> (r: Vec<u32>)
    ensures
        r@ == merge_lt(s1@, s2@),
        r@.to_multiset() == s1@.to_multiset().add(s2@.to_multiset()),
        sorted(s1@) && sorted(s2@) ==> sorted(r@),
{
    let n1 = s1.len();
    let n2 = s2.len();
    let mut merged: Vec<u32> = Vec::new();
    let mut i: usize = 0;
    let mut j: usize = 0;

    proof {
        assert(s1@.subrange(0, n1 as int) =~= s1@);
        assert(s2@.subrange(0, n2 as int) =~= s2@);
        assert(merged@ + merge_lt(s1@, s2@) =~= merge_lt(s1@, s2@));
    }

    while i < n1 || j < n2
        invariant
            i <= n1 == s1@.len(),
            j <= n2 == s2@.len(),
            merged@ + merge_lt(
                s1@.subrange(i as int, n1 as int),
                s2@.subrange(j as int, n2 as int),
            ) == merge_lt(s1@, s2@),
        decreases n1 - i + n2 - j,
    {
        proof {
            let ra = s1@.subrange(i as int, n1 as int);
            let rb = s2@.subrange(j as int, n2 as int);
            if i < n1 {
                assert(ra[0] == s1@[i as int]);
                assert(ra =~= seq![ra[0]] + s1@.subrange(i + 1, n1 as int));
                assert(ra.drop_first() =~= s1@.subrange(i + 1, n1 as int));
            } else {
                assert(ra =~= Seq::<u32>::empty());
            }
            if j < n2 {
                assert(rb[0] == s2@[j as int]);
                assert(rb =~= seq![rb[0]] + s2@.subrange(j + 1, n2 as int));
                assert(rb.drop_first() =~= s2@.subrange(j + 1, n2 as int));
            } else {
                assert(rb =~= Seq::<u32>::empty());
            }
        }
        if j >= n2 {
            merged.push(s1[i]);
            i = i + 1;
        } else if i >= n1 {
            merged.push(s2[j]);
            j = j + 1;
        } else if s1[i] < s2[j] {
            merged.push(s1[i]);
            i = i + 1;
        } else {
            merged.push(s2[j]);
            j = j + 1;
        }
        proof {
            assert(merged@ + merge_lt(
                s1@.subrange(i as int, n1 as int),
                s2@.subrange(j as int, n2 as int),
            ) =~= merge_lt(s1@, s2@));
        }
    }

    proof {
        assert(s1@.subrange(i as int, n1 as int) =~= Seq::<u32>::empty());
        assert(s2@.subrange(j as int, n2 as int) =~= Seq::<u32>::empty());
        assert(merged@ =~= merge_lt(s1@, s2@));
        lemma_merge_multiset(s1@, s2@, false);
        if sorted(s1@) && sorted(s2@) {
            lemma_merge_sorted(s1@, s2@, false);
        }
    }
    merged
}

/// Sorts by splitting into a larger and a smaller half, sorting both,
/// and merging them: the result is sorted and a permutation of the
/// input.
pub fn merge_sort(s: &[u32]) -> (r: Vec<u32>)
    ensures
        sorted(r@),
        r@.to_multiset() == s@.to_multiset(),
    decreases s@.len(),
{
    let len = s.len();

    if len <= 1 {
        return slice_to_vec(s);
    }

    let half = len / 2 + len % 2;
    let l1 = merge_sort(slice_subrange(s, 0, half));
    let l2 = merge_sort(slice_subrange(s, half, len));

    let r = merge_slices(l1.as_slice(), l2.as_slice());
    proof {
        assert(s@ =~= s@.subrange(0, half as int) + s@.subrange(half as int, len as int));
        lemma_multiset_commutative(s@.subrange(0, half as int), s@.subrange(half as int, len as int));
    }
    r
}

} // verus!
