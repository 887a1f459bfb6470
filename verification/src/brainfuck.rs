//! A minimal byte-tape language of eight single-character instructions:
//! pointer moves (`>` `<`), cell arithmetic (`+` `-`), output (`.`),
//! input (`,`), and loops (`[` `]`).
//!
//! Two interpreters share this module: [`nested`] represents a program as
//! a tree in which every loop owns its body, [`flat`] keeps the source
//! characters and resolves loops while running. Both parsers report the
//! same faults, specified here by a single left-to-right scan.

use vstd::prelude::*;

pub mod flat;
pub mod nested;

verus! {

broadcast use vstd::seq::group_seq_axioms;

/// Execution stops with an abort once this many instructions (loop
/// re-entry checks included) have been dispatched.
pub const STEP_LIMIT: u32 = 10000;

/// Whether a character is one of the eight instructions.
pub open spec fn is_op(c: char) -> bool {
    c == '>' || c == '<' || c == '+' || c == '-' || c == '.' || c == ',' || c == '[' || c == ']'
}

/// The first fault a left-to-right scan of source text finds.
pub enum SourceFault {
    /// A character that is not an instruction.
    BadChar { at: int, c: char },
    /// A loop close with no loop open.
    StrayClose { at: int },
    /// A loop still open when the text ends; `at` is the innermost one.
    OpenLoop { at: int },
}

/// Scans `s` from position `i` on, with the positions of the loops that
/// are currently open on `stack`, and returns the first fault, if any.
pub open spec fn scan(s: Seq<char>, i: int, stack: Seq<int>) -> Option<SourceFault>
    decreases s.len() - i,
{
    if i < 0 || i >= s.len() {
        if stack.len() == 0 {
            None
        } else {
            Some(SourceFault::OpenLoop { at: stack.last() })
        }
    } else if s[i] == '[' {
        scan(s, i + 1, stack.push(i))
    } else if s[i] == ']' {
        if stack.len() == 0 {
            Some(SourceFault::StrayClose { at: i })
        } else {
            scan(s, i + 1, stack.drop_last())
        }
    } else if is_op(s[i]) {
        scan(s, i + 1, stack)
    } else {
        Some(SourceFault::BadChar { at: i, c: s[i] })
    }
}

/// The number of unmatched loop opens in `s[0..j]`.
pub open spec fn depth(s: Seq<char>, j: int) -> int
    decreases j,
{
    if j <= 0 {
        0
    } else {
        depth(s, j - 1) + if s[j - 1] == '[' {
            1
        } else if s[j - 1] == ']' {
            -1
        } else {
            0
        }
    }
}

/// Loop markers are balanced: no prefix closes more loops than it opens,
/// and the whole text closes every loop it opens.
pub open spec fn balanced(s: Seq<char>) -> bool {
    &&& depth(s, s.len() as int) == 0
    &&& forall|j: int| 0 <= j <= s.len() ==> depth(s, j) >= 0
}

/// All characters of `s` are instructions.
pub open spec fn all_ops(s: Seq<char>) -> bool {
    forall|j: int| 0 <= j < s.len() ==> is_op(s[j])
}

proof fn lemma_scan_characterization(s: Seq<char>, i: int, stack: Seq<int>)
    requires
        0 <= i <= s.len(),
        stack.len() == depth(s, i),
    ensures
        (scan(s, i, stack) is None) <==> {
            &&& forall|j: int| i <= j < s.len() ==> is_op(s[j])
            &&& forall|j: int| i <= j <= s.len() ==> depth(s, j) >= 0
            &&& depth(s, s.len() as int) == 0
        },
    decreases s.len() - i,
{
    if i == s.len() {
        assert(depth(s, i) >= 0);
    } else {
        assert(depth(s, i + 1) == depth(s, i) + if s[i] == '[' {
            1int
        } else if s[i] == ']' {
            -1int
        } else {
            0int
        });
        if s[i] == '[' {
            lemma_scan_characterization(s, i + 1, stack.push(i));
        } else if s[i] == ']' {
            if stack.len() == 0 {
                assert(depth(s, i + 1) < 0);
            } else {
                lemma_scan_characterization(s, i + 1, stack.drop_last());
            }
        } else if is_op(s[i]) {
            lemma_scan_characterization(s, i + 1, stack);
        } else {
            assert(!is_op(s[i]));
        }
    }
}

/// The loop depth at `j` reads only the first `j` characters.
pub proof fn lemma_depth_prefix(x: Seq<char>, y: Seq<char>, j: int)
    requires
        0 <= j <= x.len(),
    ensures
        depth(x + y, j) == depth(x, j),
    decreases j,
{
    if j > 0 {
        lemma_depth_prefix(x, y, j - 1);
        assert((x + y)[j - 1] == x[j - 1]);
    }
}

/// The loop depth across a concatenation adds up.
pub proof fn lemma_depth_concat(x: Seq<char>, y: Seq<char>, j: int)
    requires
        0 <= j <= y.len(),
    ensures
        depth(x + y, x.len() + j) == depth(x, x.len() as int) + depth(y, j),
    decreases j,
{
    if j == 0 {
        lemma_depth_prefix(x, y, x.len() as int);
    } else {
        lemma_depth_concat(x, y, j - 1);
        assert((x + y)[x.len() + j - 1] == y[j - 1]);
    }
}

/// The loop depth of a single character.
pub proof fn lemma_depth_one(c: char)
    ensures
        depth(seq![c], 1) == (if c == '[' {
            1int
        } else if c == ']' {
            -1int
        } else {
            0int
        }),
{
    assert(seq![c][0] == c);
    assert(depth(seq![c], 0) == 0);
}

/// Balanced text stays balanced under concatenation.
pub proof fn lemma_balanced_concat(x: Seq<char>, y: Seq<char>)
    requires
        balanced(x),
        balanced(y),
    ensures
        balanced(x + y),
{
    lemma_depth_concat(x, y, y.len() as int);
    assert forall|j: int| 0 <= j <= (x + y).len() implies depth(x + y, j) >= 0 by {
        if j <= x.len() {
            lemma_depth_prefix(x, y, j);
        } else {
            lemma_depth_concat(x, y, j - x.len());
        }
    }
}

/// Source text made of the eight instruction characters alone, with its
/// loop markers balanced, scans without fault — and only such text does.
pub proof fn lemma_scan_none_iff_well_formed(s: Seq<char>)
    ensures
        (scan(s, 0, Seq::empty()) is None) <==> all_ops(s) && balanced(s),
{
    lemma_scan_characterization(s, 0, Seq::empty());
}

/// Relies on `String::from_utf8`: it returns a string exactly when the
/// bytes are well-formed UTF-8, and then decodes those bytes.
#[verifier::external_body]
pub(crate) fn bytes_to_string(bytes: Vec<u8>) -> (r: Option<String>)
    ensures
        (r is Some) <==> vstd::utf8::valid_utf8(bytes@),
        r is Some ==> r.unwrap()@ == vstd::utf8::decode_utf8(bytes@),
{
    match String::from_utf8(bytes) {
        Ok(s) => Some(s),
        Err(_) => None,
    }
}

} // verus!
