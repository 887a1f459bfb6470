//! Luhn check driven by a digit index: digits at odd indices (counted
//! from the least significant digit) are the doubled ones.

use vstd::prelude::*;
use vstd::arithmetic::power::{pow, lemma_pow_increases};
use crate::luhn::{lemma_luhn_sum_bound, lemma_pow10_20_exceeds_u64, luhn_digit, luhn_sum,
    luhn_valid};

verus! {

pub fn luhn_algorithm(num: u64) -> (r: bool)
    ensures
        r == luhn_valid(num as nat),
{
    let mut n: u64 = num;
    let mut sum: u64 = 0;
    let mut i: u64 = 0;
    // The digits already consumed, as the low part of the decimal
    // decomposition `num == n * 10^i + low`; it bounds the index `i`.
    let ghost mut low: nat = 0;

    proof {
        vstd::arithmetic::power::lemma_pow0(10);
        assert(num as nat * pow(10, 0) == num as nat) by (nonlinear_arith)
            requires
                pow(10, 0) == 1,
        ;
    }

    while n != 0
        invariant
            sum + luhn_sum(n as nat, i % 2 != 0) == luhn_sum(num as nat, false),
            n as nat * pow(10, i as nat) + low == num as nat,
            low < pow(10, i as nat),
            i <= 20,
        decreases n,
    {
        let ghost n0: nat = n as nat;
        let ghost dbl: bool = i % 2 != 0;
        let mut digit: u64 = n % 10;

        n = n / 10;

        if (i % 2) != 0 {
            digit = digit * 2;
            if digit > 9 {
                digit = digit - 9;
            }
        }

        proof {
            assert(digit == luhn_digit(n0 % 10, dbl));
            assert(luhn_sum(n0, dbl) == luhn_digit(n0 % 10, dbl) + luhn_sum(n0 / 10, !dbl));
            lemma_luhn_sum_bound(num as nat, false);

            // The index stays below 20: otherwise 10^i alone would
            // exceed every 64-bit value, contradicting the decomposition.
            assert(pow(10, i as nat) <= num) by (nonlinear_arith)
                requires
                    n0 >= 1,
                    n0 * pow(10, i as nat) + low == num as nat,
                    low >= 0,
                    pow(10, i as nat) >= 0,
            ;
            if i >= 20 {
                lemma_pow10_20_exceeds_u64();
                lemma_pow_increases(10, 20, i as nat);
                assert(false);
            }

            // Push this digit into the low part of the decomposition.
            assert(pow(10, (i + 1) as nat) == 10 * pow(10, i as nat)) by {
                reveal_with_fuel(pow, 2);
            };
            assert((n0 / 10) * pow(10, (i + 1) as nat) + ((n0 % 10) * pow(10, i as nat) + low)
                == num as nat) by (nonlinear_arith)
                requires
                    n0 == 10 * (n0 / 10) + n0 % 10,
                    pow(10, (i + 1) as nat) == 10 * pow(10, i as nat),
                    n0 * pow(10, i as nat) + low == num as nat,
            ;
            assert((n0 % 10) * pow(10, i as nat) + low < pow(10, (i + 1) as nat))
                by (nonlinear_arith)
                requires
                    n0 % 10 <= 9,
                    low < pow(10, i as nat),
                    pow(10, (i + 1) as nat) == 10 * pow(10, i as nat),
            ;
            low = (low + (n0 % 10) * pow(10, i as nat)) as nat;
        }

        sum = sum + digit;
        i = i + 1;
    }

    sum % 10 == 0
}

} // verus!
