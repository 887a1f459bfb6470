//! The Luhn checksum on decimal numbers, with several implementations
//! proved against one specification.
//!
//! Digits are weighed from the least significant one: every second digit
//! (the 2nd, 4th, ... from the right) is doubled, and 9 is subtracted
//! from a doubled digit larger than 9. The number passes the check when
//! the weighed digit sum is divisible by 10.

use vstd::prelude::*;

pub mod check_digit;
pub mod digit_vec;
pub mod for_loop;
pub mod split_sum;
pub mod while_loop;

verus! {

/// The contribution of a single digit `d`, doubled or not.
pub open spec fn luhn_digit(d: nat, double: bool) -> nat {
    if double {
        if 2 * d > 9 {
            (2 * d - 9) as nat
        } else {
            2 * d
        }
    } else {
        d
    }
}

/// The weighed digit sum of `n`, where `double` says whether the least
/// significant digit of `n` is one of the doubled ones.
pub open spec fn luhn_sum(n: nat, double: bool) -> nat
    decreases n,
{
    if n == 0 {
        0
    } else {
        luhn_digit(n % 10, double) + luhn_sum(n / 10, !double)
    }
}

/// A number passes the Luhn check when its weighed digit sum is a
/// multiple of 10.
pub open spec fn luhn_valid(n: nat) -> bool {
    luhn_sum(n, false) % 10 == 0
}

/// The weighed digit sum never exceeds the number itself (for numbers of
/// two or more digits), and exceeds a single digit by at most 4; in
/// particular it fits any integer type that holds `n`.
pub proof fn lemma_luhn_sum_bound(n: nat, double: bool)
    ensures
        n >= 10 ==> luhn_sum(n, double) <= n,
        n < 10 ==> luhn_sum(n, double) <= n + 4,
    decreases n,
{
    if n > 0 {
        assert(luhn_digit(n % 10, double) <= n % 10 + 4);
        lemma_luhn_sum_bound(n / 10, !double);
    }
}

/// Twenty decimal digits already exceed the range of `u64`.
pub proof fn lemma_pow10_20_exceeds_u64()
    ensures
        vstd::arithmetic::power::pow(10, 20) > u64::MAX,
{
    reveal_with_fuel(vstd::arithmetic::power::pow, 21);
}

} // verus!
