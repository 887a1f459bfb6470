//! Interleaving with two end-of-string flags, taking one character from
//! each side per round while it lasts.

use vstd::prelude::*;
use vstd::string::StrSliceExecFns;
use crate::interleave::{interleave_spec, push_char};

verus! {

pub fn interleave(str1: &str, str2: &str) -> (r: String)
    ensures
        r@ == interleave_spec(str1@, str2@),
{
    let n1 = str1.unicode_len();
    let n2 = str2.unicode_len();
    let mut i1: usize = 0;
    let mut i2: usize = 0;
    let mut result = String::new();

    proof {
        assert(str1@.subrange(0, n1 as int) =~= str1@);
        assert(str2@.subrange(0, n2 as int) =~= str2@);
        assert(result@ + interleave_spec(str1@, str2@) =~= interleave_spec(str1@, str2@));
    }
    loop
        invariant
            i1 <= n1 == str1@.len(),
            i2 <= n2 == str2@.len(),
            i1 == i2 || (i1 == n1 && i1 <= i2) || (i2 == n2 && i2 <= i1),
            result@ + interleave_spec(
                str1@.subrange(i1 as int, n1 as int),
                str2@.subrange(i2 as int, n2 as int),
            ) == interleave_spec(str1@, str2@),
        ensures
            result@ == interleave_spec(str1@, str2@),
        decreases (n1 - i1) + (n2 - i2),
    {
        let ghost ra = str1@.subrange(i1 as int, n1 as int);
        let ghost rb = str2@.subrange(i2 as int, n2 as int);
        let eo_str1 = i1 >= n1;
        let eo_str2 = i2 >= n2;
        if !eo_str1 {
            push_char(&mut result, str1.get_char(i1));
            i1 = i1 + 1;
        }
        if !eo_str2 {
            push_char(&mut result, str2.get_char(i2));
            i2 = i2 + 1;
        }
        if eo_str1 && eo_str2 {
            break ;
        }
        proof {
            if !eo_str1 {
                assert(ra.drop_first() =~= str1@.subrange(i1 as int, n1 as int));
            }
            if !eo_str2 {
                assert(rb.drop_first() =~= str2@.subrange(i2 as int, n2 as int));
            }
            if !eo_str1 && !eo_str2 {
                assert(interleave_spec(ra, rb) == seq![ra[0], rb[0]] + interleave_spec(
                    ra.drop_first(),
                    rb.drop_first(),
                ));
            } else if !eo_str1 {
                assert(rb =~= Seq::<char>::empty());
                assert(interleave_spec(ra, rb) == ra);
                assert(ra =~= seq![ra[0]] + ra.drop_first());
            } else {
                assert(ra =~= Seq::<char>::empty());
                assert(interleave_spec(ra, rb) == rb);
                assert(rb =~= seq![rb[0]] + rb.drop_first());
            }
            assert(result@ + interleave_spec(
                str1@.subrange(i1 as int, n1 as int),
                str2@.subrange(i2 as int, n2 as int),
            ) =~= interleave_spec(str1@, str2@));
        }
    }

    result
}

} // verus!
