//! A validator for Simple Resource Locators of the form
//! `[<protocol>://]<address>`, where both parts consist of lowercase
//! English letters and the address must not be empty.
//!
//! Two variants share these definitions: [`split_all`] rejects a second
//! separator outright, [`split_once`] splits at the first separator only
//! and lets the character check reject what follows.

use vstd::prelude::*;

pub mod split_all;
pub mod split_once;

verus! {

/// A lowercase English letter.
pub open spec fn is_lower(c: char) -> bool {
    'a' as u32 <= c as u32 && c as u32 <= 'z' as u32
}

/// The separator `://` stands at position `i`.
pub open spec fn sep_at(s: Seq<char>, i: int) -> bool {
    &&& 0 <= i && i + 3 <= s.len()
    &&& s[i] == ':'
    &&& s[i + 1] == '/'
    &&& s[i + 2] == '/'
}

/// The first separator at or after `from`, if any.
pub open spec fn find_sep(s: Seq<char>, from: int) -> Option<int>
    decreases s.len() - from,
{
    if from < 0 || from + 3 > s.len() {
        None
    } else if sep_at(s, from) {
        Some(from)
    } else {
        find_sep(s, from + 1)
    }
}

/// The first character of `s[from..]` that is not a lowercase letter, if
/// any.
pub open spec fn first_non_lower(s: Seq<char>, from: int) -> Option<char>
    decreases s.len() - from,
{
    if from < 0 || from >= s.len() {
        None
    } else if !is_lower(s[from]) {
        Some(s[from])
    } else {
        first_non_lower(s, from + 1)
    }
}

/// What a validated locator holds: the optional protocol and the
/// address.
#[verifier::ext_equal]
pub struct SrlModel {
    pub protocol: Option<Seq<char>>,
    pub address: Seq<char>,
}

} // verus!
