//! Luhn check that reduces a doubled two-digit value by adding its own
//! decimal digits instead of subtracting 9.

use vstd::prelude::*;
use crate::luhn::{lemma_luhn_sum_bound, luhn_digit, luhn_sum, luhn_valid};

verus! {

pub fn luhn_algorithm(number: u64) -> (r: bool)
    ensures
        r == luhn_valid(number as nat),
{
    let mut sum: u64 = 0;
    let mut double = false;
    let mut n: u64 = number;

    // Process each digit from right to left.
    while n > 0
        invariant
            sum + luhn_sum(n as nat, double) == luhn_sum(number as nat, false),
        decreases n,
    {
        let ghost n0: nat = n as nat;
        let mut digit: u64 = n % 10;

        if double {
            digit = digit * 2;
            if digit > 9 {
                // For a value between 10 and 18 this equals taking off 9.
                digit = digit / 10 + digit % 10;
            }
        }

        proof {
            assert(digit == luhn_digit(n0 % 10, double));
            assert(luhn_sum(n0, double) == luhn_digit(n0 % 10, double) + luhn_sum(
                n0 / 10,
                !double,
            ));
            lemma_luhn_sum_bound(number as nat, false);
        }

        sum = sum + digit;
        double = !double;
        n = n / 10;
    }

    sum % 10 == 0
}

} // verus!
