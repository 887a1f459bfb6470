//! Interleaving that hands back the other string whole as soon as one
//! runs out, appending the remainder in one piece.

use vstd::prelude::*;
use vstd::string::{StrSliceExecFns, StringExecFns};
use crate::interleave::{interleave_spec, lemma_interleave_step, push_char};

verus! {

pub fn interleave(s1: &str, s2: &str) -> (r: String)
    ensures
        r@ == interleave_spec(s1@, s2@),
{
    let n1 = s1.unicode_len();
    let n2 = s2.unicode_len();

    if n1 == 0 {
        return String::from_str(s2);
    }
    if n2 == 0 {
        return String::from_str(s1);
    }

    let mut interleaved = String::new();
    let short = if n1 <= n2 {
        n1
    } else {
        n2
    };

    proof {
        assert(s1@.subrange(0, n1 as int) =~= s1@);
        assert(s2@.subrange(0, n2 as int) =~= s2@);
        assert(interleaved@ + interleave_spec(s1@, s2@) =~= interleave_spec(s1@, s2@));
    }
    let mut i: usize = 0;
    while i < short
        invariant
            i <= short,
            short == (if n1 <= n2 {
                n1
            } else {
                n2
            }),
            n1 == s1@.len(),
            n2 == s2@.len(),
            interleaved@ + interleave_spec(
                s1@.subrange(i as int, n1 as int),
                s2@.subrange(i as int, n2 as int),
            ) == interleave_spec(s1@, s2@),
        decreases short - i,
    {
        proof {
            lemma_interleave_step(s1@, s2@, i as int);
        }
        push_char(&mut interleaved, s1.get_char(i));
        push_char(&mut interleaved, s2.get_char(i));
        proof {
            assert(interleaved@ + interleave_spec(
                s1@.subrange(i + 1, n1 as int),
                s2@.subrange(i + 1, n2 as int),
            ) =~= interleave_spec(s1@, s2@));
        }
        i = i + 1;
    }

    // One of the strings is used up: push the rest of the other in one
    // piece.
    if n1 <= n2 {
        let rest = s2.substring_char(short, n2);
        interleaved.append(rest);
        proof {
            assert(s1@.subrange(short as int, n1 as int) =~= Seq::<char>::empty());
            assert(interleaved@ =~= interleave_spec(s1@, s2@));
        }
    } else {
        let rest = s1.substring_char(short, n1);
        interleaved.append(rest);
        proof {
            assert(s2@.subrange(short as int, n2 as int) =~= Seq::<char>::empty());
            assert(interleaved@ =~= interleave_spec(s1@, s2@));
        }
    }

    interleaved
}

} // verus!
