//! Merging with direct indexing, and a merge sort that takes its vector
//! by value and splits it at the midpoint.

use vstd::prelude::*;
use vstd::seq_lib::lemma_multiset_commutative;
use vstd::slice::{slice_subrange, slice_to_vec};
use crate::merge::{lemma_merge_multiset, lemma_merge_sorted, merge_lt, sorted};

verus! {

/// Merges two slices by repeatedly taking the smaller head, a tie from
/// the second slice; on sorted inputs the result is sorted, and it is a
/// permutation of the two inputs always.
pub fn merge_slices(slice1: &[u32], slice2: &[u32]) -> (r: Vec<u32>)
    ensures
        r@ == merge_lt(slice1@, slice2@),
        r@.to_multiset() == slice1@.to_multiset().add(slice2@.to_multiset()),
        sorted(slice1@) && sorted(slice2@) ==> sorted(r@),
{
    let n1 = slice1.len();
    let n2 = slice2.len();
    let mut result: Vec<u32> = Vec::new();
    let mut i: usize = 0;
    let mut j: usize = 0;

    proof {
        assert(slice1@.subrange(0, n1 as int) =~= slice1@);
        assert(slice2@.subrange(0, n2 as int) =~= slice2@);
        assert(result@ + merge_lt(slice1@, slice2@) =~= merge_lt(slice1@, slice2@));
    }

    while i < n1 && j < n2
        invariant
            i <= n1 == slice1@.len(),
            j <= n2 == slice2@.len(),
            result@ + merge_lt(
                slice1@.subrange(i as int, n1 as int),
                slice2@.subrange(j as int, n2 as int),
            ) == merge_lt(slice1@, slice2@),
        decreases n1 - i + n2 - j,
    {
        proof {
            let ra = slice1@.subrange(i as int, n1 as int);
            let rb = slice2@.subrange(j as int, n2 as int);
            assert(ra[0] == slice1@[i as int]);
            assert(rb[0] == slice2@[j as int]);
            assert(ra.drop_first() =~= slice1@.subrange(i + 1, n1 as int));
            assert(rb.drop_first() =~= slice2@.subrange(j + 1, n2 as int));
        }
        if slice1[i] < slice2[j] {
            result.push(slice1[i]);
            i = i + 1;
        } else {
            result.push(slice2[j]);
            j = j + 1;
        }
        proof {
            assert(result@ + merge_lt(
                slice1@.subrange(i as int, n1 as int),
                slice2@.subrange(j as int, n2 as int),
            ) =~= merge_lt(slice1@, slice2@));
        }
    }
    while i < n1
        invariant
            i <= n1 == slice1@.len(),
            j == n2 == slice2@.len() || i == n1,
            result@ + merge_lt(
                slice1@.subrange(i as int, n1 as int),
                slice2@.subrange(j as int, n2 as int),
            ) == merge_lt(slice1@, slice2@),
        decreases n1 - i,
    {
        proof {
            let ra = slice1@.subrange(i as int, n1 as int);
            assert(slice2@.subrange(j as int, n2 as int) =~= Seq::<u32>::empty());
            assert(ra =~= seq![ra[0]] + slice1@.subrange(i + 1, n1 as int));
            assert(ra[0] == slice1@[i as int]);
        }
        result.push(slice1[i]);
        i = i + 1;
        proof {
            assert(result@ + merge_lt(
                slice1@.subrange(i as int, n1 as int),
                slice2@.subrange(j as int, n2 as int),
            ) =~= merge_lt(slice1@, slice2@));
        }
    }
    while j < n2
        invariant
            i == n1 == slice1@.len() || j == n2,
            j <= n2 == slice2@.len(),
            result@ + merge_lt(
                slice1@.subrange(i as int, n1 as int),
                slice2@.subrange(j as int, n2 as int),
            ) == merge_lt(slice1@, slice2@),
        decreases n2 - j,
    {
        proof {
            let rb = slice2@.subrange(j as int, n2 as int);
            assert(slice1@.subrange(i as int, n1 as int) =~= Seq::<u32>::empty());
            assert(rb =~= seq![rb[0]] + slice2@.subrange(j + 1, n2 as int));
            assert(rb[0] == slice2@[j as int]);
        }
        result.push(slice2[j]);
        j = j + 1;
        proof {
            assert(result@ + merge_lt(
                slice1@.subrange(i as int, n1 as int),
                slice2@.subrange(j as int, n2 as int),
            ) =~= merge_lt(slice1@, slice2@));
        }
    }

    proof {
        assert(slice1@.subrange(i as int, n1 as int) =~= Seq::<u32>::empty());
        assert(slice2@.subrange(j as int, n2 as int) =~= Seq::<u32>::empty());
        assert(result@ =~= merge_lt(slice1@, slice2@));
        lemma_merge_multiset(slice1@, slice2@, false);
        if sorted(slice1@) && sorted(slice2@) {
            lemma_merge_sorted(slice1@, slice2@, false);
        }
    }
    result
}

/// Sorts by splitting at the midpoint, sorting both halves, and merging
/// them: the result is sorted and a permutation of the input.
pub fn merge_sort(vec: Vec<u32>) -> (r: Vec<u32>)
    ensures
        sorted(r@),
        r@.to_multiset() == vec@.to_multiset(),
    decreases vec@.len(),
{
    if vec.len() <= 1 {
        return vec;
    }

    let mid = vec.len() / 2;
    let n = vec.len();
    let left = merge_sort(slice_to_vec(slice_subrange(vec.as_slice(), 0, mid)));
    let right = merge_sort(slice_to_vec(slice_subrange(vec.as_slice(), mid, n)));

    let r = merge_slices(left.as_slice(), right.as_slice());
    proof {
        assert(vec@ =~= vec@.subrange(0, mid as int) + vec@.subrange(mid as int, n as int));
        lemma_multiset_commutative(vec@.subrange(0, mid as int), vec@.subrange(mid as int, n as int));
    }
    r
}

} // verus!
