//! Prefix stripping that checks each character against the prefix text
//! directly.

use vstd::prelude::*;
use vstd::string::StrSliceExecFns;
use crate::strip_prefix::{contains_char, strip_spec};

verus! {

/// Whether `c` occurs in `p`.
fn str_contains(p: &str, c: char) -> (r: bool)
    ensures
        r == contains_char(p@, c),
{
    let n = p.unicode_len();
    let mut k: usize = 0;
    while k < n
        invariant
            k <= n == p@.len(),
            forall|m: int| 0 <= m < k ==> p@[m] != c,
        decreases n - k,
    {
        if p.get_char(k) == c {
            return true;
        }
        k = k + 1;
    }
    false
}

pub fn strip_prefix<'a>(needle: &'a str, prefix: &str) -> (r: &'a str)
    ensures
        r@ == strip_spec(needle@, prefix@, 0),
{
    let n = needle.unicode_len();
    let mut i: usize = 0;
    while i < n
        invariant
            i <= n == needle@.len(),
            strip_spec(needle@, prefix@, 0) == strip_spec(needle@, prefix@, i as int),
        decreases n - i,
    {
        let c = needle.get_char(i);
        if !str_contains(prefix, c) {
            return needle.substring_char(i, n);
        }
        i = i + 1;
    }

    proof {
        reveal_strlit("");
    }
    ""
}

} // verus!
