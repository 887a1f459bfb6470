//! Bracket matching over text: `()`, `[]` and `{}` must close in the
//! right order; every other character is ignored.

use vstd::prelude::*;
use vstd::string::StrSliceExecFns;

verus! {

pub open spec fn is_opener(c: char) -> bool {
    c == '(' || c == '[' || c == '{'
}

pub open spec fn is_closer(c: char) -> bool {
    c == ')' || c == ']' || c == '}'
}

/// The closer that belongs to an opener.
pub open spec fn closer_of(c: char) -> char {
    if c == '(' {
        ')'
    } else if c == '[' {
        ']'
    } else {
        '}'
    }
}

/// Whether scanning `s[i..]` with the currently open brackets on `stack`
/// closes every bracket in the right order.
pub open spec fn matched_from(s: Seq<char>, i: int, stack: Seq<char>) -> bool
    decreases s.len() - i,
{
    if i < 0 || i >= s.len() {
        stack.len() == 0
    } else if is_opener(s[i]) {
        matched_from(s, i + 1, stack.push(s[i]))
    } else if is_closer(s[i]) {
        &&& stack.len() > 0
        &&& closer_of(stack.last()) == s[i]
        &&& matched_from(s, i + 1, stack.drop_last())
    } else {
        matched_from(s, i + 1, stack)
    }
}

/// Whether every bracket of `s` is matched, in the right order.
pub open spec fn spec_matched(s: Seq<char>) -> bool {
    matched_from(s, 0, Seq::empty())
}

pub fn match_parentheses(s: &str) -> (r: bool)
    ensures
        r == spec_matched(s@),
{
    let n = s.unicode_len();
    let mut stack: Vec<char> = Vec::new();
    let mut i: usize = 0;

    proof {
        assert(stack@ =~= Seq::<char>::empty());
    }

    while i < n
        invariant
            i <= n == s@.len(),
            forall|k: int| 0 <= k < stack@.len() ==> is_opener(#[trigger] stack@[k]),
            spec_matched(s@) == matched_from(s@, i as int, stack@),
        decreases n - i,
    {
        let c = s.get_char(i);
        if c == '(' || c == '[' || c == '{' {
            stack.push(c);
        } else if c == ')' || c == ']' || c == '}' {
            match stack.pop() {
                Some(open) => {
                    let correct = if open == '(' {
                        c == ')'
                    } else if open == '[' {
                        c == ']'
                    } else {
                        c == '}'
                    };
                    if !correct {
                        return false;
                    }
                },
                None => {
                    return false;
                },
            }
        }
        i = i + 1;
    }

    stack.len() == 0
}

} // verus!
