//! The longer string measured in bytes.

use vstd::prelude::*;
use vstd::string::StringSliceAdditionalSpecFns;

verus! {

pub fn longest<'a>(s1: &'a str, s2: &'a str) -> (r: &'a str)
    ensures
        s1.spec_bytes().len() as usize >= s2.spec_bytes().len() as usize ==> r@ == s1@,
        (s1.spec_bytes().len() as usize) < s2.spec_bytes().len() as usize ==> r@ == s2@,
{
    if s1.len() >= s2.len() {
        s1
    } else {
        s2
    }
}

} // verus!
