//! Factorial computed by a loop that multiplies the factors from the
//! largest down to 1.

use vstd::prelude::*;

verus! {

/// The factorial of `n`, defined by the usual recurrence.
pub open spec fn fact(n: nat) -> nat
    decreases n,
{
    if n == 0 {
        1
    } else {
        n * fact((n - 1) as nat)
    }
}

/// The factorial of any number is at least 1.
pub proof fn lemma_fact_pos(n: nat)
    ensures
        fact(n) >= 1,
    decreases n,
{
    if n > 0 {
        lemma_fact_pos((n - 1) as nat);
        assert(n * fact((n - 1) as nat) >= 1) by (nonlinear_arith)
            requires
                n >= 1,
                fact((n - 1) as nat) >= 1,
        ;
    }
}

/// Multiplying a partial product by the next factor stays within the
/// full factorial: `p * fact(n) == fact(num)` bounds `p * n`.
proof fn lemma_partial_product_bound(p: nat, n: nat, num: nat)
    requires
        n >= 1,
        p * fact(n) == fact(num),
    ensures
        p * n <= fact(num),
{
    lemma_fact_pos((n - 1) as nat);
    assert(fact(n) == n * fact((n - 1) as nat));
    assert(p * n <= p * (n * fact((n - 1) as nat))) by (nonlinear_arith)
        requires
            fact((n - 1) as nat) >= 1,
    ;
}

pub fn factorial(num: u64) -> (r: u64)
    requires
        fact(num as nat) <= u64::MAX,
    ensures
        r == fact(num as nat),
{
    let mut fact_acc: u64 = 1;
    let mut n: u64 = num;
    while n >= 1
        invariant
            n <= num,
            fact(num as nat) <= u64::MAX,
            fact_acc * fact(n as nat) == fact(num as nat),
        decreases n,
    {
        proof {
            lemma_partial_product_bound(fact_acc as nat, n as nat, num as nat);
            assert(fact_acc * fact(n as nat) == (fact_acc * n) * fact((n - 1) as nat))
                by (nonlinear_arith)
                requires
                    n >= 1,
                    fact(n as nat) == n * fact((n - 1) as nat),
            ;
        }
        fact_acc = fact_acc * n;
        n = n - 1;
    }
    assert(fact_acc == fact(num as nat)) by (nonlinear_arith)
        requires
            fact_acc * fact(n as nat) == fact(num as nat),
            fact(n as nat) == 1,
    ;
    fact_acc
}

} // verus!
