//! Luhn check that first materializes the decimal digits (least
//! significant first) and then folds over them by position.

use vstd::prelude::*;
use crate::luhn::{lemma_luhn_sum_bound, luhn_digit, luhn_sum, luhn_valid};

verus! {

/// The weighed sum of the first `upto` digits of `ds`, where `ds[k]` is
/// the digit at position `k` from the right and odd positions double.
pub open spec fn luhn_partial(ds: Seq<u8>, upto: int) -> nat
    decreases upto,
{
    if upto <= 0 {
        0
    } else {
        luhn_partial(ds, upto - 1) + luhn_digit(ds[upto - 1] as nat, (upto - 1) % 2 != 0)
    }
}

/// `luhn_partial` reads only the first `upto` digits, so appending one
/// more digit does not change it.
proof fn lemma_luhn_partial_push(ds: Seq<u8>, d: u8, upto: int)
    requires
        upto <= ds.len(),
    ensures
        luhn_partial(ds.push(d), upto) == luhn_partial(ds, upto),
    decreases upto,
{
    if upto > 0 {
        lemma_luhn_partial_push(ds, d, upto - 1);
    }
}

/// Partial weighed sums grow with the number of digits taken.
proof fn lemma_luhn_partial_mono(ds: Seq<u8>, a: int, b: int)
    requires
        0 <= a <= b,
    ensures
        luhn_partial(ds, a) <= luhn_partial(ds, b),
    decreases b,
{
    if a < b {
        lemma_luhn_partial_mono(ds, a, b - 1);
    }
}

pub fn luhn_algorithm(num: u64) -> (r: bool)
    ensures
        r == luhn_valid(num as nat),
{
    // First phase: split the number into its digits, least significant
    // digit first, so that positions count from the right.
    let mut digits: Vec<u8> = Vec::new();
    let mut n: u64 = num;
    while n != 0
        invariant
            luhn_partial(digits@, digits@.len() as int) + luhn_sum(
                n as nat,
                digits@.len() % 2 != 0,
            ) == luhn_sum(num as nat, false),
        decreases n,
    {
        let ghost n0: nat = n as nat;
        let ghost ds0: Seq<u8> = digits@;
        let d: u8 = (n % 10) as u8;
        n = n / 10;
        digits.push(d);
        proof {
            lemma_luhn_partial_push(ds0, d, ds0.len() as int);
            assert(luhn_sum(n0, ds0.len() % 2 != 0) == luhn_digit(n0 % 10, ds0.len() % 2 != 0)
                + luhn_sum(n0 / 10, !(ds0.len() % 2 != 0)));
        }
    }

    // Second phase: fold the digits with their position parity.
    let mut sum: u64 = 0;
    let mut idx: usize = 0;
    while idx < digits.len()
        invariant
            idx <= digits@.len(),
            sum == luhn_partial(digits@, idx as int),
            luhn_partial(digits@, digits@.len() as int) == luhn_sum(num as nat, false),
        decreases digits@.len() - idx,
    {
        let mut v: u64 = digits[idx] as u64;

        if (idx % 2) != 0 {
            v = v * 2;
            if v > 9 {
                v = v - 9;
            }
        }

        proof {
            assert(v == luhn_digit(digits@[idx as int] as nat, idx % 2 != 0));
            assert(luhn_partial(digits@, idx + 1) == luhn_partial(digits@, idx as int)
                + luhn_digit(digits@[idx as int] as nat, idx % 2 != 0));
            lemma_luhn_partial_mono(digits@, idx + 1, digits@.len() as int);
            lemma_luhn_sum_bound(num as nat, false);
        }

        sum = sum + v;
        idx = idx + 1;
    }

    sum % 10 == 0
}

} // verus!
