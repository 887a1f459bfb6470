//! Merging that carries the element peeked ahead from step to step, and
//! a merge sort over slice halves.

use vstd::prelude::*;
use vstd::arithmetic::div_mod::{lemma_basic_div, lemma_div_is_ordered,
    lemma_fundamental_div_mod, lemma_fundamental_div_mod_converse};
use vstd::seq_lib::lemma_multiset_commutative;
use vstd::slice::{slice_subrange, slice_to_vec};
use crate::merge::{lemma_merge_multiset, lemma_merge_sorted, merge_le, sorted};

verus! {

/// Merges two slices by repeatedly taking the smaller head, a tie from
/// the first slice; on sorted inputs the result is sorted, and it is a
/// permutation of the two inputs always.
pub fn merge_slices(s1: &[u32], s2: &[u32]) -> (r: Vec<u32>)
    ensures
        r@ == merge_le(s1@, s2@),
        r@.to_multiset() == s1@.to_multiset().add(s2@.to_multiset()),
        sorted(s1@) && sorted(s2@) ==> sorted(r@),
{
    let n1 = s1.len();
    let n2 = s2.len();
    let mut merged: Vec<u32> = Vec::new();
    let mut i: usize = 0;
    let mut j: usize = 0;

    proof {
        assert(s1@.subrange(0, n1 as int) =~= s1@);
        assert(s2@.subrange(0, n2 as int) =~= s2@);
        assert(merged@ + merge_le(s1@, s2@) =~= merge_le(s1@, s2@));
    }

    while i < n1 || j < n2
        invariant
            i <= n1 == s1@.len(),
            j <= n2 == s2@.len(),
            merged@ + merge_le(
                s1@.subrange(i as int, n1 as int),
                s2@.subrange(j as int, n2 as int),
            ) == merge_le(s1@, s2@),
        decreases n1 - i + n2 - j,
    {
        proof {
            let ra = s1@.subrange(i as int, n1 as int);
            let rb = s2@.subrange(j as int, n2 as int);
            if i < n1 {
                assert(ra[0] == s1@[i as int]);
                assert(ra =~= seq![ra[0]] + s1@.subrange(i + 1, n1 as int));
                assert(ra.drop_first() =~= s1@.subrange(i + 1, n1 as int));
            } else {
                assert(ra =~= Seq::<u32>::empty());
            }
            if j < n2 {
                assert(rb[0] == s2@[j as int]);
                assert(rb =~= seq![rb[0]] + s2@.subrange(j + 1, n2 as int));
                assert(rb.drop_first() =~= s2@.subrange(j + 1, n2 as int));
            } else {
                assert(rb =~= Seq::<u32>::empty());
            }
        }
        if j >= n2 {
            merged.push(s1[i]);
            i = i + 1;
        } else if i >= n1 {
            merged.push(s2[j]);
            j = j + 1;
        } else if s1[i] <= s2[j] {
            merged.push(s1[i]);
            i = i + 1;
        } else {
            merged.push(s2[j]);
            j = j + 1;
        }
        proof {
            assert(merged@ + merge_le(
                s1@.subrange(i as int, n1 as int),
                s2@.subrange(j as int, n2 as int),
            ) =~= merge_le(s1@, s2@));
        }
    }

    proof {
        assert(s1@.subrange(i as int, n1 as int) =~= Seq::<u32>::empty());
        assert(s2@.subrange(j as int, n2 as int) =~= Seq::<u32>::empty());
        assert(merged@ =~= merge_le(s1@, s2@));
        lemma_merge_multiset(s1@, s2@, true);
        if sorted(s1@) && sorted(s2@) {
            lemma_merge_sorted(s1@, s2@, true);
        }
    }
    merged
}

/// Sorts by splitting into a larger and a smaller half, sorting both,
/// and merging them: the result is sorted and a permutation of the
/// input.
pub fn merge_sort(s: &[u32]) -> (r: Vec<u32>)
    ensures
        sorted(r@),
        r@.to_multiset() == s@.to_multiset(),
    decreases s@.len(),
{
    let len = s.len();

    if len <= 1 {
        return slice_to_vec(s);
    }

    let half = len / 2 + len % 2;
    let l1 = merge_sort(slice_subrange(s, 0, half));
    let l2 = merge_sort(slice_subrange(s, half, len));

    let r = merge_slices(l1.as_slice(), l2.as_slice());
    proof {
        assert(s@ =~= s@.subrange(0, half as int) + s@.subrange(half as int, len as int));
        lemma_multiset_commutative(s@.subrange(0, half as int), s@.subrange(half as int, len as int));
    }
    r
}

/// Every block of `width` consecutive elements (the last block possibly
/// shorter) is sorted.
pub open spec fn blocks_sorted(s: Seq<u32>, width: int) -> bool {
    forall|i: int, j: int| 0 <= i <= j < s.len() && i / width == j / width ==> s[i] <= s[j]
}

/// Adding an in-range offset to a block-aligned base stays in the base's
/// block.
proof fn lemma_same_block(base: int, off: int, width: int)
    requires
        width >= 1,
        base >= 0,
        base % width == 0,
        0 <= off < width,
    ensures
        (base + off) / width == base / width,
{
    lemma_fundamental_div_mod(base, width);
    assert(base + off == (base / width) * width + off) by (nonlinear_arith)
        requires
            base == width * (base / width),
    ;
    lemma_fundamental_div_mod_converse(base + off, width, base / width, off);
}

/// A nonnegative multiple of a doubled width is a multiple of the width.
proof fn lemma_aligned_half(i: int, width: int)
    requires
        width >= 1,
        i >= 0,
        i % (2 * width) == 0,
    ensures
        i % width == 0,
{
    lemma_fundamental_div_mod(i, 2 * width);
    assert(i == (2 * (i / (2 * width))) * width + 0) by (nonlinear_arith)
        requires
            i == (2 * width) * (i / (2 * width)),
    ;
    lemma_fundamental_div_mod_converse(i, width, 2 * (i / (2 * width)), 0);
}

/// Positions on either side of a block-aligned boundary lie in distinct
/// blocks.
proof fn lemma_cross_block(p: int, q: int, i: int, width: int)
    requires
        width >= 1,
        0 <= p < i,
        i <= q,
        i % width == 0,
    ensures
        p / width < q / width,
{
    lemma_fundamental_div_mod(i, width);
    let m = i / width;
    assert(m >= 1) by (nonlinear_arith)
        requires
            i == width * m,
            i >= 1,
            width >= 1,
    ;
    assert(i - 1 == (m - 1) * width + (width - 1)) by (nonlinear_arith)
        requires
            i == width * m,
    ;
    lemma_fundamental_div_mod_converse(i - 1, width, m - 1, width - 1);
    lemma_div_is_ordered(p, i - 1, width);
    lemma_div_is_ordered(i, q, width);
}

/// Bottom-up merge sort: ever wider sorted blocks are merged in rounds
/// until one block covers the whole slice. The result is sorted and a
/// permutation of the input.
pub fn merge_sort_iterative(list: &[u32]) -> (r: Vec<u32>)
    ensures
        sorted(r@),
        r@.to_multiset() == list@.to_multiset(),
{
    broadcast use vstd::seq_lib::group_to_multiset_ensures;

    let n = list.len();
    let mut work: Vec<u32> = slice_to_vec(list);
    let mut half: usize = 1;

    while half < n
        invariant
            1 <= half,
            n == list@.len(),
            work@.len() == n,
            blocks_sorted(work@, half as int),
            work@.to_multiset() == list@.to_multiset(),
        decreases n - half,
    {
        let mut subsorted: Vec<u32> = Vec::new();
        let mut i: usize = 0;

        proof {
            assert(subsorted@ =~= work@.subrange(0, 0));
        }

        while i < n
            invariant
                1 <= half < n == list@.len(),
                work@.len() == n,
                blocks_sorted(work@, half as int),
                i <= n,
                (i as int) % (2 * (half as int)) == 0 || i == n,
                subsorted@.len() == i,
                blocks_sorted(subsorted@, 2 * (half as int)),
                subsorted@.to_multiset() == work@.subrange(0, i as int).to_multiset(),
            decreases n - i,
        {
            let lower = if n - i > half {
                i + half
            } else {
                n
            };
            let upper = if n - lower > half {
                lower + half
            } else {
                n
            };
            proof {
                lemma_aligned_half(i as int, half as int);
                let w = work@;
                let left = w.subrange(i as int, lower as int);
                let right = w.subrange(lower as int, upper as int);
                assert forall|a: int, b: int| 0 <= a <= b < left.len() implies left[a] <= left[b] by {
                    lemma_same_block(i as int, a, half as int);
                    lemma_same_block(i as int, b, half as int);
                }
                assert(sorted(left));
                if lower < n {
                    assert(lower as int == i + half);
                    assert((i + half) % (half as int) == 0) by {
                        lemma_fundamental_div_mod(i as int, half as int);
                        assert(i + half == (i as int / half as int + 1) * half + 0)
                            by (nonlinear_arith)
                            requires
                                i as int == (half as int) * (i as int / half as int),
                        ;
                        lemma_fundamental_div_mod_converse(
                            i + half,
                            half as int,
                            i as int / half as int + 1,
                            0,
                        );
                    }
                    assert forall|a: int, b: int|
                        0 <= a <= b < right.len() implies right[a] <= right[b] by {
                        lemma_same_block(lower as int, a, half as int);
                        lemma_same_block(lower as int, b, half as int);
                    }
                }
                assert(sorted(right));
            }
            let left = slice_subrange(work.as_slice(), i, lower);
            let right = slice_subrange(work.as_slice(), lower, upper);
            let mut sorted_chunk = merge_slices(left, right);
            let ghost pre: Seq<u32> = subsorted@;
            let ghost chunk: Seq<u32> = sorted_chunk@;
            subsorted.append(&mut sorted_chunk);
            proof {
                lemma_merge_sorted(work@.subrange(i as int, lower as int), work@.subrange(lower as int, upper as int), true);
                assert(chunk.len() == upper - i);

                // The new tail is one sorted block of the doubled width.
                let all = subsorted@;
                assert forall|p: int, q: int|
                    0 <= p <= q < all.len() && p / (2 * (half as int)) == q / (2 * (half as int))
                    implies all[p] <= all[q] by {
                    if q < i {
                        assert(all[p] == pre[p] && all[q] == pre[q]);
                    } else if p >= i {
                        assert(all[p] == chunk[p - i] && all[q] == chunk[q - i]);
                    } else {
                        lemma_cross_block(p, q, i as int, 2 * (half as int));
                    }
                }

                // The prefix multisets add up block by block.
                lemma_multiset_commutative(pre, chunk);
                lemma_multiset_commutative(
                    work@.subrange(0, i as int) + work@.subrange(i as int, lower as int),
                    work@.subrange(lower as int, upper as int),
                );
                lemma_multiset_commutative(
                    work@.subrange(0, i as int),
                    work@.subrange(i as int, lower as int),
                );
                assert(work@.subrange(0, upper as int) =~= (work@.subrange(0, i as int)
                    + work@.subrange(i as int, lower as int)) + work@.subrange(
                    lower as int,
                    upper as int,
                ));
                assert(subsorted@.to_multiset() =~= work@.subrange(0, upper as int).to_multiset());

                // The next block starts aligned to the doubled width.
                if upper < n {
                    let w2 = 2 * (half as int);
                    lemma_fundamental_div_mod(i as int, w2);
                    assert(i + w2 == (i as int / w2 + 1) * w2 + 0) by (nonlinear_arith)
                        requires
                            i as int == w2 * (i as int / w2),
                    ;
                    lemma_fundamental_div_mod_converse(i + w2, w2, i as int / w2 + 1, 0);
                }
            }
            i = upper;
        }

        proof {
            assert(work@.subrange(0, n as int) =~= work@);
        }
        work = subsorted;
        let ghost old_half: int = half as int;
        half = if half <= n / 2 {
            2 * half
        } else {
            n
        };
        proof {
            if half as int != 2 * old_half {
                // The doubled width already covers the whole slice: every
                // position sits in block zero either way.
                assert forall|p: int, q: int|
                    0 <= p <= q < work@.len() && p / (half as int) == q / (half as int)
                    implies work@[p] <= work@[q] by {
                    lemma_basic_div(p, 2 * old_half);
                    lemma_basic_div(q, 2 * old_half);
                }
            }
        }
    }

    proof {
        assert forall|p: int, q: int| 0 <= p <= q < work@.len() implies work@[p] <= work@[q] by {
            lemma_basic_div(p, half as int);
            lemma_basic_div(q, half as int);
        }
    }
    work
}

} // verus!
