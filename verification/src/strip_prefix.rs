//! Stripping a prefix alphabet: the result is the tail of `needle` that
//! starts at its first character not contained in `prefix`.

use vstd::prelude::*;

pub mod collected;
pub mod direct;

verus! {

/// `c` occurs in `p`.
pub open spec fn contains_char(p: Seq<char>, c: char) -> bool {
    exists|k: int| 0 <= k < p.len() && p[k] == c
}

/// The tail of `needle` from its first character at or after `i` that
/// does not occur in `prefix`; empty when every character does.
pub open spec fn strip_spec(needle: Seq<char>, prefix: Seq<char>, i: int) -> Seq<char>
    decreases needle.len() - i,
{
    if i < 0 || i >= needle.len() {
        Seq::empty()
    } else if !contains_char(prefix, needle[i]) {
        needle.subrange(i, needle.len() as int)
    } else {
        strip_spec(needle, prefix, i + 1)
    }
}

} // verus!
