//! String sanitizing: the result must not end with `x`, with `o`, or
//! with `.exe`, so those endings are peeled off the input until none is
//! left.
//!
//! The three endings are told apart by the last character alone, so the
//! order of peeling does not matter and the result is unique; the two
//! variants below reach the same fixed point by different routes.

use vstd::prelude::*;

pub mod flag_trim;
pub mod round_trim;

verus! {

/// `s` ends with `.exe`.
pub open spec fn ends_exe(s: Seq<char>) -> bool {
    &&& s.len() >= 4
    &&& s[s.len() - 4] == '.'
    &&& s[s.len() - 3] == 'e'
    &&& s[s.len() - 2] == 'x'
    &&& s[s.len() - 1] == 'e'
}

/// The sanitized form of `s`: trailing `x` and `o` characters and
/// trailing `.exe` are removed, over and over, until the text ends with
/// none of them.
pub open spec fn sanitize_spec(s: Seq<char>) -> Seq<char>
    decreases s.len(),
{
    if s.len() >= 1 && (s.last() == 'x' || s.last() == 'o') {
        sanitize_spec(s.drop_last())
    } else if ends_exe(s) {
        sanitize_spec(s.subrange(0, s.len() - 4))
    } else {
        s
    }
}

} // verus!
