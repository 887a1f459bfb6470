//! Interleaving two strings character by character, starting with the
//! first; once one string runs out, the rest of the other follows
//! unbroken.

use vstd::prelude::*;

pub mod flags;
pub mod remainder;
pub mod zipped;

verus! {

/// The interleaving of two character sequences: pairs while both last,
/// then the tail of the longer one.
pub open spec fn interleave_spec(a: Seq<char>, b: Seq<char>) -> Seq<char>
    decreases a.len() + b.len(),
{
    if a.len() == 0 {
        b
    } else if b.len() == 0 {
        a
    } else {
        seq![a[0], b[0]] + interleave_spec(a.drop_first(), b.drop_first())
    }
}

/// One interleaving step, seen from position `i` of both strings: the
/// remaining work starts with the two current characters.
pub proof fn lemma_interleave_step(a: Seq<char>, b: Seq<char>, i: int)
    requires
        0 <= i < a.len(),
        0 <= i < b.len(),
    ensures
        interleave_spec(a.subrange(i, a.len() as int), b.subrange(i, b.len() as int)) == seq![
            a[i],
            b[i],
        ] + interleave_spec(
            a.subrange(i + 1, a.len() as int),
            b.subrange(i + 1, b.len() as int),
        ),
{
    let ra = a.subrange(i, a.len() as int);
    let rb = b.subrange(i, b.len() as int);
    assert(ra.drop_first() =~= a.subrange(i + 1, a.len() as int));
    assert(rb.drop_first() =~= b.subrange(i + 1, b.len() as int));
}

/// Relies on `String::push`: it appends exactly the one character.
#[verifier::external_body]
pub(crate) fn push_char(s: &mut String, c: char)
    ensures
        final(s)@ == old(s)@.push(c),
{
    s.push(c);
}

} // verus!
