//! Luhn check in the textbook form: the last digit is treated as a check
//! digit and compared against the sum computed from the payload digits.

use vstd::prelude::*;
use crate::luhn::{lemma_luhn_sum_bound, luhn_digit, luhn_sum, luhn_valid};

verus! {

pub fn luhn_algorithm(num: u64) -> (r: bool)
    ensures
        r == luhn_valid(num as nat),
{
    let check_digit: u64 = num % 10;
    let mut n: u64 = num / 10;

    // In the payload (the number without its check digit) the first
    // digit from the right is a doubled one.
    let mut calculation: u64 = 0;
    let mut double = true;

    proof {
        if num != 0 {
            assert(luhn_sum(num as nat, false) == luhn_digit(num as nat % 10, false) + luhn_sum(
                num as nat / 10,
                true,
            ));
        }
    }

    while n != 0
        invariant
            calculation + luhn_sum(n as nat, double) == luhn_sum(num as nat / 10, true),
        decreases n,
    {
        let ghost n0: nat = n as nat;
        let mut v: u64 = n % 10;
        n = n / 10;

        if double {
            v = v * 2;
            if v > 9 {
                v = v - 9;
            }
        }

        proof {
            assert(v == luhn_digit(n0 % 10, double));
            assert(luhn_sum(n0, double) == luhn_digit(n0 % 10, double) + luhn_sum(
                n0 / 10,
                !double,
            ));
            lemma_luhn_sum_bound(num as nat / 10, true);
        }

        calculation = calculation + v;
        double = !double;
    }

    (10 - (calculation % 10)) % 10 == check_digit
}

} // verus!
