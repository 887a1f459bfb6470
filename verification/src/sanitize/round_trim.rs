//! Sanitizing by rounds: each round strips all trailing `x`, then all
//! trailing `o`, then all trailing `.exe`, until a round changes nothing.

use vstd::prelude::*;
use vstd::string::StrSliceExecFns;
use crate::sanitize::{ends_exe, sanitize_spec};

verus! {

pub fn sanitize<'a>(input: &'a str) -> (r: &'a str)
    ensures
        r@ == sanitize_spec(input@),
{
    let n = input.unicode_len();
    let mut k: usize = n;

    proof {
        assert(input@.subrange(0, n as int) =~= input@);
    }

    loop
        invariant
            k <= n == input@.len(),
            sanitize_spec(input@.subrange(0, k as int)) == sanitize_spec(input@),
        ensures
            k <= input@.len(),
            input@.subrange(0, k as int) == sanitize_spec(input@),
        decreases k,
    {
        let prev_len = k;

        // Remove all x from the end of the text.
        while k > 0 && input.get_char(k - 1) == 'x'
            invariant
                k <= prev_len <= n == input@.len(),
                sanitize_spec(input@.subrange(0, k as int)) == sanitize_spec(input@),
            decreases k,
        {
            proof {
                assert(input@.subrange(0, k - 1) =~= input@.subrange(0, k as int).drop_last());
            }
            k = k - 1;
        }
        let ghost k_after_x: usize = k;
        // Remove all o from the end.
        while k > 0 && input.get_char(k - 1) == 'o'
            invariant
                k <= k_after_x <= n == input@.len(),
                sanitize_spec(input@.subrange(0, k as int)) == sanitize_spec(input@),
            decreases k,
        {
            proof {
                assert(input@.subrange(0, k - 1) =~= input@.subrange(0, k as int).drop_last());
            }
            k = k - 1;
        }
        let ghost k_after_o: usize = k;
        // Remove all .exe from the end.
        while k >= 4 && input.get_char(k - 1) == 'e' && input.get_char(k - 2) == 'x'
            && input.get_char(k - 3) == 'e' && input.get_char(k - 4) == '.'
            invariant
                k <= k_after_o <= n == input@.len(),
                sanitize_spec(input@.subrange(0, k as int)) == sanitize_spec(input@),
            decreases k,
        {
            proof {
                let cur = input@.subrange(0, k as int);
                assert(ends_exe(cur));
                assert(!(cur.last() == 'x' || cur.last() == 'o'));
                assert(input@.subrange(0, k - 4) =~= cur.subrange(0, cur.len() - 4));
            }
            k = k - 4;
        }

        if prev_len == k {
            proof {
                let cur = input@.subrange(0, k as int);
                assert(cur == sanitize_spec(cur));
            }
            break ;
        }
    }

    input.substring_char(0, k)
}

} // verus!
