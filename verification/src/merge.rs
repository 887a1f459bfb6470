//! Merging sorted slices and merge sorting, in several variants.
//!
//! The merge of two sequences is pinned down exactly: repeatedly take the
//! smaller head. Two variants differ only in which side a tie is taken
//! from — on sorted inputs the output is the same sorted sequence either
//! way, and on any inputs the output is a permutation of the two.

use vstd::prelude::*;
use vstd::seq_lib::lemma_multiset_commutative;
use vstd::seq_lib::group_to_multiset_ensures;
use vstd::multiset::Multiset;

pub mod halving;
pub mod owned;
pub mod stepped;

verus! {

/// The sequence is sorted in increasing order.
pub open spec fn sorted(s: Seq<u32>) -> bool {
    forall|i: int, j: int| 0 <= i <= j < s.len() ==> s[i] <= s[j]
}

/// Merge that takes a tie from the first sequence.
pub open spec fn merge_le(a: Seq<u32>, b: Seq<u32>) -> Seq<u32>
    decreases a.len() + b.len(),
{
    if a.len() == 0 {
        b
    } else if b.len() == 0 {
        a
    } else if a[0] <= b[0] {
        seq![a[0]] + merge_le(a.drop_first(), b)
    } else {
        seq![b[0]] + merge_le(a, b.drop_first())
    }
}

/// Merge that takes a tie from the second sequence.
pub open spec fn merge_lt(a: Seq<u32>, b: Seq<u32>) -> Seq<u32>
    decreases a.len() + b.len(),
{
    if a.len() == 0 {
        b
    } else if b.len() == 0 {
        a
    } else if a[0] < b[0] {
        seq![a[0]] + merge_lt(a.drop_first(), b)
    } else {
        seq![b[0]] + merge_lt(a, b.drop_first())
    }
}

/// A merge permutes its inputs, whether or not they are sorted.
pub proof fn lemma_merge_multiset(a: Seq<u32>, b: Seq<u32>, le: bool)
    ensures
        (if le {
            merge_le(a, b)
        } else {
            merge_lt(a, b)
        }).to_multiset() == a.to_multiset().add(b.to_multiset()),
    decreases a.len() + b.len(),
{
    broadcast use group_to_multiset_ensures;

    let m = if le {
        merge_le(a, b)
    } else {
        merge_lt(a, b)
    };
    if a.len() == 0 {
        assert(a.to_multiset() =~= Multiset::<u32>::empty());
        assert(m.to_multiset() =~= a.to_multiset().add(b.to_multiset()));
    } else if b.len() == 0 {
        assert(b.to_multiset() =~= Multiset::<u32>::empty());
        assert(m.to_multiset() =~= a.to_multiset().add(b.to_multiset()));
    } else if (le && a[0] <= b[0]) || (!le && a[0] < b[0]) {
        lemma_merge_multiset(a.drop_first(), b, le);
        let rest = if le {
            merge_le(a.drop_first(), b)
        } else {
            merge_lt(a.drop_first(), b)
        };
        lemma_multiset_commutative(seq![a[0]], rest);
        assert(seq![a[0]] =~= Seq::<u32>::empty().push(a[0]));
        assert(seq![a[0]].to_multiset() =~= Multiset::<u32>::empty().insert(a[0]));
        assert(a =~= Seq::<u32>::empty().push(a[0]) + a.drop_first());
        lemma_multiset_commutative(Seq::<u32>::empty().push(a[0]), a.drop_first());
        assert(m.to_multiset() =~= a.to_multiset().add(b.to_multiset()));
    } else {
        lemma_merge_multiset(a, b.drop_first(), le);
        let rest = if le {
            merge_le(a, b.drop_first())
        } else {
            merge_lt(a, b.drop_first())
        };
        lemma_multiset_commutative(seq![b[0]], rest);
        assert(seq![b[0]] =~= Seq::<u32>::empty().push(b[0]));
        assert(seq![b[0]].to_multiset() =~= Multiset::<u32>::empty().insert(b[0]));
        assert(b =~= Seq::<u32>::empty().push(b[0]) + b.drop_first());
        lemma_multiset_commutative(Seq::<u32>::empty().push(b[0]), b.drop_first());
        assert(m.to_multiset() =~= a.to_multiset().add(b.to_multiset()));
    }
}

/// On sorted inputs a merge is sorted, and its head is one of the two
/// input heads.
pub proof fn lemma_merge_sorted(a: Seq<u32>, b: Seq<u32>, le: bool)
    requires
        sorted(a),
        sorted(b),
    ensures
        ({
            let m = if le {
                merge_le(a, b)
            } else {
                merge_lt(a, b)
            };
            &&& sorted(m)
            &&& m.len() == a.len() + b.len()
            &&& m.len() > 0 ==> ((a.len() > 0 && m[0] == a[0]) || (b.len() > 0 && m[0] == b[0]))
        }),
    decreases a.len() + b.len(),
{
    let m = if le {
        merge_le(a, b)
    } else {
        merge_lt(a, b)
    };
    if a.len() == 0 || b.len() == 0 {
    } else if (le && a[0] <= b[0]) || (!le && a[0] < b[0]) {
        assert(sorted(a.drop_first()));
        lemma_merge_sorted(a.drop_first(), b, le);
        let rest = if le {
            merge_le(a.drop_first(), b)
        } else {
            merge_lt(a.drop_first(), b)
        };
        assert(m == seq![a[0]] + rest);
        assert forall|i: int, j: int| 0 <= i <= j < m.len() implies m[i] <= m[j] by {
            if i == 0 && j > 0 {
                assert(m[j] == rest[j - 1]);
                assert(rest[0] <= rest[j - 1]);
                assert(a[0] <= rest[0]);
            } else if i > 0 {
                assert(m[i] == rest[i - 1] && m[j] == rest[j - 1]);
            }
        }
    } else {
        assert(sorted(b.drop_first()));
        lemma_merge_sorted(a, b.drop_first(), le);
        let rest = if le {
            merge_le(a, b.drop_first())
        } else {
            merge_lt(a, b.drop_first())
        };
        assert(m == seq![b[0]] + rest);
        assert forall|i: int, j: int| 0 <= i <= j < m.len() implies m[i] <= m[j] by {
            if i == 0 && j > 0 {
                assert(m[j] == rest[j - 1]);
                assert(rest[0] <= rest[j - 1]);
                assert(b[0] <= rest[0]);
            } else if i > 0 {
                assert(m[i] == rest[i - 1] && m[j] == rest[j - 1]);
            }
        }
    }
}

} // verus!
