//! Interleaving by zipping: pairs first, then whatever the longer string
//! still has.

use vstd::prelude::*;
use vstd::string::StrSliceExecFns;
use crate::interleave::{interleave_spec, lemma_interleave_step, push_char};

verus! {

pub fn interleave(s1: &str, s2: &str) -> (r: String)
    ensures
        r@ == interleave_spec(s1@, s2@),
{
    let n1 = s1.unicode_len();
    let n2 = s2.unicode_len();
    let mut result = String::new();
    let short = if n1 <= n2 {
        n1
    } else {
        n2
    };

    proof {
        assert(s1@.subrange(0, n1 as int) =~= s1@);
        assert(s2@.subrange(0, n2 as int) =~= s2@);
        assert(result@ + interleave_spec(s1@, s2@) =~= interleave_spec(s1@, s2@));
    }
    let mut i: usize = 0;
    while i < short
        invariant
            i <= short,
            short == (if n1 <= n2 {
                n1
            } else {
                n2
            }),
            n1 == s1@.len(),
            n2 == s2@.len(),
            result@ + interleave_spec(
                s1@.subrange(i as int, n1 as int),
                s2@.subrange(i as int, n2 as int),
            ) == interleave_spec(s1@, s2@),
        decreases short - i,
    {
        proof {
            lemma_interleave_step(s1@, s2@, i as int);
        }
        let c1 = s1.get_char(i);
        let c2 = s2.get_char(i);
        push_char(&mut result, c1);
        push_char(&mut result, c2);
        proof {
            assert(result@ + interleave_spec(
                s1@.subrange(i + 1, n1 as int),
                s2@.subrange(i + 1, n2 as int),
            ) =~= interleave_spec(s1@, s2@));
        }
        i = i + 1;
    }

    // What the zip did not reach: the tail of the longer string.
    if n2 > n1 {
        let mut j: usize = n1;
        while j < n2
            invariant
                n1 <= j <= n2,
                n1 == s1@.len(),
                n2 == s2@.len(),
                result@ + s2@.subrange(j as int, n2 as int) == interleave_spec(s1@, s2@),
            decreases n2 - j,
        {
            push_char(&mut result, s2.get_char(j));
            proof {
                assert(result@ + s2@.subrange(j + 1, n2 as int) =~= interleave_spec(s1@, s2@));
            }
            j = j + 1;
        }
    } else {
        let mut j: usize = n2;
        while j < n1
            invariant
                n2 <= j <= n1,
                n1 == s1@.len(),
                n2 == s2@.len(),
                result@ + s1@.subrange(j as int, n1 as int) == interleave_spec(s1@, s2@),
            decreases n1 - j,
        {
            push_char(&mut result, s1.get_char(j));
            proof {
                assert(result@ + s1@.subrange(j + 1, n1 as int) =~= interleave_spec(s1@, s2@));
            }
            j = j + 1;
        }
    }

    proof {
        assert(result@ =~= interleave_spec(s1@, s2@));
    }
    result
}

} // verus!
