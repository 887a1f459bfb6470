//! Prefix stripping that first collects the prefix characters into a
//! lookup table.

use vstd::prelude::*;
use vstd::string::StrSliceExecFns;
use crate::strip_prefix::{contains_char, strip_spec};

verus! {

/// Whether `c` occurs among the collected characters.
fn vec_contains(table: &Vec<char>, c: char) -> (r: bool)
    ensures
        r == contains_char(table@, c),
{
    let mut k: usize = 0;
    while k < table.len()
        invariant
            k <= table@.len(),
            forall|m: int| 0 <= m < k ==> table@[m] != c,
        decreases table@.len() - k,
    {
        if table[k] == c {
            return true;
        }
        k = k + 1;
    }
    false
}

pub fn strip_prefix<'a>(needle: &'a str, prefix: &str) -> (r: &'a str)
    ensures
        r@ == strip_spec(needle@, prefix@, 0),
{
    // Collect the prefix characters once, then look each needle
    // character up in the collection.
    let pn = prefix.unicode_len();
    let mut table: Vec<char> = Vec::new();
    let mut k: usize = 0;
    while k < pn
        invariant
            k <= pn == prefix@.len(),
            table@ == prefix@.subrange(0, k as int),
        decreases pn - k,
    {
        table.push(prefix.get_char(k));
        proof {
            assert(table@ =~= prefix@.subrange(0, k + 1));
        }
        k = k + 1;
    }
    proof {
        assert(table@ =~= prefix@);
    }

    let n = needle.unicode_len();
    let mut i: usize = 0;
    while i < n
        invariant
            i <= n == needle@.len(),
            table@ == prefix@,
            strip_spec(needle@, prefix@, 0) == strip_spec(needle@, prefix@, i as int),
        decreases n - i,
    {
        let c = needle.get_char(i);
        if !vec_contains(&table, c) {
            return needle.substring_char(i, n);
        }
        i = i + 1;
    }

    proof {
        reveal_strlit("");
    }
    ""
}

} // verus!
