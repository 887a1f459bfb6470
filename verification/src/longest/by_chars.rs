//! The longer string measured in characters.

use vstd::prelude::*;
use vstd::string::StrSliceExecFns;

verus! {

pub fn longest<'a>(first: &'a str, second: &'a str) -> (r: &'a str)
    ensures
        second@.len() > first@.len() ==> r@ == second@,
        second@.len() <= first@.len() ==> r@ == first@,
{
    if second.unicode_len() > first.unicode_len() {
        second
    } else {
        first
    }
}

} // verus!
