//! Sanitizing with a change flag: per round the text is stripped of
//! whichever of the three endings it has, and the flag drops once it has
//! none.

use vstd::prelude::*;
use vstd::string::StrSliceExecFns;
use crate::sanitize::{ends_exe, sanitize_spec};

verus! {

pub fn sanitize<'a>(input: &'a str) -> (r: &'a str)
    ensures
        r@ == sanitize_spec(input@),
{
    let n = input.unicode_len();
    let mut k: usize = n;
    let mut mark = true;

    proof {
        assert(input@.subrange(0, n as int) =~= input@);
    }

    while mark && k > 0
        invariant
            k <= n == input@.len(),
            sanitize_spec(input@.subrange(0, k as int)) == sanitize_spec(input@),
            !mark ==> input@.subrange(0, k as int) == sanitize_spec(input@),
        decreases k + (if mark {
            1int
        } else {
            0int
        }),
    {
        let ghost k_start: usize = k;
        if input.get_char(k - 1) == 'x' {
            mark = true;
            // Remove every x from the end of the text.
            while k > 0 && input.get_char(k - 1) == 'x'
                invariant
                    k <= k_start <= n == input@.len(),
                    sanitize_spec(input@.subrange(0, k as int)) == sanitize_spec(input@),
                decreases k,
            {
                proof {
                    assert(input@.subrange(0, k - 1) =~= input@.subrange(0, k as int).drop_last());
                }
                k = k - 1;
            }
        } else if input.get_char(k - 1) == 'o' {
            mark = true;
            // Remove every o from the end.
            while k > 0 && input.get_char(k - 1) == 'o'
                invariant
                    k <= k_start <= n == input@.len(),
                    sanitize_spec(input@.subrange(0, k as int)) == sanitize_spec(input@),
                decreases k,
            {
                proof {
                    assert(input@.subrange(0, k - 1) =~= input@.subrange(0, k as int).drop_last());
                }
                k = k - 1;
            }
        } else if k >= 4 && input.get_char(k - 1) == 'e' && input.get_char(k - 2) == 'x'
            && input.get_char(k - 3) == 'e' && input.get_char(k - 4) == '.' {
            mark = true;
            // Remove every .exe from the end.
            while k >= 4 && input.get_char(k - 1) == 'e' && input.get_char(k - 2) == 'x'
                && input.get_char(k - 3) == 'e' && input.get_char(k - 4) == '.'
                invariant
                    k <= k_start <= n == input@.len(),
                    sanitize_spec(input@.subrange(0, k as int)) == sanitize_spec(input@),
                decreases k,
            {
                proof {
                    let cur = input@.subrange(0, k as int);
                    assert(ends_exe(cur));
                    assert(!(cur.last() == 'x' || cur.last() == 'o'));
                    assert(input@.subrange(0, k - 4) =~= cur.subrange(0, cur.len() - 4));
                }
                k = k - 4;
            }
        } else {
            proof {
                let cur = input@.subrange(0, k as int);
                assert(cur == sanitize_spec(cur));
            }
            mark = false;
        }
    }

    proof {
        if k == 0 {
            assert(input@.subrange(0, 0) =~= sanitize_spec(input@.subrange(0, 0)));
        }
    }
    input.substring_char(0, k)
}

} // verus!
