//! Luhn check with an alternation flag that is flipped after every digit.

use vstd::prelude::*;
use crate::luhn::{lemma_luhn_sum_bound, luhn_digit, luhn_sum, luhn_valid};

verus! {

pub fn luhn_algorithm(num: u64) -> (r: bool)
    ensures
        r == luhn_valid(num as nat),
{
    let mut n: u64 = num;
    let mut sum: u64 = 0;
    let mut alternate = false;

    while n != 0
        invariant
            sum + luhn_sum(n as nat, alternate) == luhn_sum(num as nat, false),
        decreases n,
    {
        let ghost n0: nat = n as nat;
        let mut digit: u64 = n % 10;
        n = n / 10;

        if alternate {
            digit = digit * 2;
            if digit > 9 {
                digit = digit - 9;
            }
        }

        proof {
            assert(digit == luhn_digit(n0 % 10, alternate));
            assert(luhn_sum(n0, alternate) == luhn_digit(n0 % 10, alternate) + luhn_sum(
                n0 / 10,
                !alternate,
            ));
            lemma_luhn_sum_bound(num as nat, false);
        }

        alternate = !alternate;
        sum = sum + digit;
    }

    sum % 10 == 0
}

} // verus!
