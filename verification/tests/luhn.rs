use katas::luhn::check_digit;
use katas::luhn::digit_vec;
use katas::luhn::for_loop;
use katas::luhn::split_sum;
use katas::luhn::while_loop;

#[test]
fn for_loop_simpler_luhn_zero() {
    assert!(for_loop::luhn_algorithm(0));
}

#[test]
fn for_loop_simpler_luhn_small_correct() {
    assert!(for_loop::luhn_algorithm(18));
}

#[test]
fn for_loop_simpler_luhn_small_incorrect() {
    assert!(!for_loop::luhn_algorithm(10));
}

#[test]
fn for_loop_simpler_luhn_correct() {
    assert!(for_loop::luhn_algorithm(17893729974));
    assert!(for_loop::luhn_algorithm(79927398713));
}

#[test]
fn for_loop_simpler_luhn_incorrect() {
    assert!(!for_loop::luhn_algorithm(17893729975));
    assert!(!for_loop::luhn_algorithm(17893729976));
    assert!(!for_loop::luhn_algorithm(17893729977));
    assert!(!for_loop::luhn_algorithm(123456));
}

#[test]
fn orambla_luhn_zero() {
    assert!(split_sum::luhn_algorithm(0));
}

#[test]
fn orambla_luhn_small_correct() {
    assert!(split_sum::luhn_algorithm(18));
}

#[test]
fn orambla_luhn_small_incorrect() {
    assert!(!split_sum::luhn_algorithm(10));
}

#[test]
fn orambla_luhn_correct() {
    assert!(split_sum::luhn_algorithm(17893729974));
    assert!(split_sum::luhn_algorithm(79927398713));
}

#[test]
fn orambla_luhn_incorrect() {
    assert!(!split_sum::luhn_algorithm(17893729975));
    assert!(!split_sum::luhn_algorithm(17893729976));
    assert!(!split_sum::luhn_algorithm(17893729977));
    assert!(!split_sum::luhn_algorithm(123456));
}

#[test]
fn to_string_simpler_luhn_zero() {
    assert!(digit_vec::luhn_algorithm(0));
}

#[test]
fn to_string_simpler_luhn_small_correct() {
    assert!(digit_vec::luhn_algorithm(18));
}

#[test]
fn to_string_simpler_luhn_small_incorrect() {
    assert!(!digit_vec::luhn_algorithm(10));
}

#[test]
fn to_string_simpler_luhn_correct() {
    assert!(digit_vec::luhn_algorithm(17893729974));
    assert!(digit_vec::luhn_algorithm(79927398713));
}

#[test]
fn to_string_simpler_luhn_incorrect() {
    assert!(!digit_vec::luhn_algorithm(17893729975));
    assert!(!digit_vec::luhn_algorithm(17893729976));
    assert!(!digit_vec::luhn_algorithm(17893729977));
    assert!(!digit_vec::luhn_algorithm(123456));
}

#[test]
fn to_string_wikipedia_luhn_zero() {
    assert!(check_digit::luhn_algorithm(0));
}

#[test]
fn to_string_wikipedia_luhn_small_correct() {
    assert!(check_digit::luhn_algorithm(18));
}

#[test]
fn to_string_wikipedia_luhn_small_incorrect() {
    assert!(!check_digit::luhn_algorithm(10));
}

#[test]
fn to_string_wikipedia_luhn_correct() {
    assert!(check_digit::luhn_algorithm(17893729974));
    assert!(check_digit::luhn_algorithm(79927398713));
}

#[test]
fn to_string_wikipedia_luhn_incorrect() {
    assert!(!check_digit::luhn_algorithm(17893729975));
    assert!(!check_digit::luhn_algorithm(17893729976));
    assert!(!check_digit::luhn_algorithm(17893729977));
    assert!(!check_digit::luhn_algorithm(123456));
}

#[test]
fn while_loop_simpler_luhn_zero() {
    assert!(while_loop::luhn_algorithm(0));
}

#[test]
fn while_loop_simpler_luhn_small_correct() {
    assert!(while_loop::luhn_algorithm(18));
}

#[test]
fn while_loop_simpler_luhn_small_incorrect() {
    assert!(!while_loop::luhn_algorithm(10));
}

#[test]
fn while_loop_simpler_luhn_correct() {
    assert!(while_loop::luhn_algorithm(17893729974));
    assert!(while_loop::luhn_algorithm(79927398713));
}

#[test]
fn while_loop_simpler_luhn_incorrect() {
    assert!(!while_loop::luhn_algorithm(17893729975));
    assert!(!while_loop::luhn_algorithm(17893729976));
    assert!(!while_loop::luhn_algorithm(17893729977));
    assert!(!while_loop::luhn_algorithm(123456));
}

#[test]
fn luhn_largest_values_agree() {
    // The five variants agree on values near the top of the range.
    for n in [u64::MAX, u64::MAX - 1, 9999999999999999999] {
        let expected = for_loop::luhn_algorithm(n);
        assert_eq!(split_sum::luhn_algorithm(n), expected);
        assert_eq!(digit_vec::luhn_algorithm(n), expected);
        assert_eq!(check_digit::luhn_algorithm(n), expected);
        assert_eq!(while_loop::luhn_algorithm(n), expected);
    }
}
