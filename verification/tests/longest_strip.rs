use katas::longest::by_bytes;
use katas::longest::by_chars;
use katas::strip_prefix::collected;
use katas::strip_prefix::direct;

#[test]
fn ifraixedes_longest_first_longer() {
    let result = by_bytes::longest("aqwe", "ab");
    assert_eq!(result, "aqwe");
}

#[test]
fn ifraixedes_longest_second_longer() {
    let result = by_bytes::longest("foo", "barbaz");
    assert_eq!(result, "barbaz");
}

#[test]
fn ifraixedes_longest_same_length() {
    let result = by_bytes::longest("x", "y");
    assert_eq!(result, "x");
}

#[test]
fn ifraixedes_longest_different_lifetimes_unified() {
    let a = "foo";
    let b = String::from("barx");
    let result = by_bytes::longest(a, &b);
    assert_eq!(result, &b);
}

#[test]
fn mbasta_longest_first_longer() {
    let result = by_chars::longest("aqwe", "ab");
    assert_eq!(result, "aqwe");
}

#[test]
fn mbasta_longest_second_longer() {
    let result = by_chars::longest("foo", "barbaz");
    assert_eq!(result, "barbaz");
}

#[test]
fn mbasta_longest_same_length() {
    let result = by_chars::longest("x", "y");
    assert_eq!(result, "x");
}

#[test]
fn mbasta_longest_different_lifetimes_unified() {
    let a = "foo";
    let b = String::from("barx");
    let result = by_chars::longest(a, &b);
    assert_eq!(result, &b);
}

#[test]
fn longest_first_longer_second_larger() {
    let result = by_chars::longest("foox", "föö");
    assert_eq!(result, "foox");
}

#[test]
fn ifraixedes_strip_prefix_basic() {
    assert_eq!(direct::strip_prefix("foobar", "of"), "bar");
}

#[test]
fn ifraixedes_strip_prefix_full_result() {
    assert_eq!(direct::strip_prefix("foobar", "x"), "foobar");
}

#[test]
fn ifraixedes_strip_prefix_empty_result() {
    assert_eq!(direct::strip_prefix("foobar", "fbaro"), "");
}

#[test]
fn ifraixedes_strip_prefix_unicode() {
    assert_eq!(direct::strip_prefix("čaukymňauky", "čaukym"), "ňauky");
}

#[test]
fn strip_prefix_unicode_full_match() {
    assert_eq!(direct::strip_prefix("čaukymauky", "čaukym"), "");
}

#[test]
fn ifraixedes_strip_prefix_lifetime_check() {
    let needle = "foobar";
    let prefix = String::from("f");
    let result = direct::strip_prefix(needle, &prefix);
    drop(prefix);
    assert_eq!(result, "oobar");
}

#[test]
fn mbasta_strip_prefix_basic() {
    assert_eq!(collected::strip_prefix("foobar", "of"), "bar");
}

#[test]
fn mbasta_strip_prefix_full_result() {
    assert_eq!(collected::strip_prefix("foobar", "x"), "foobar");
}

#[test]
fn mbasta_strip_prefix_empty_result() {
    assert_eq!(collected::strip_prefix("foobar", "fbaro"), "");
}

#[test]
fn mbasta_strip_prefix_unicode() {
    assert_eq!(collected::strip_prefix("čaukymňauky", "čaukym"), "ňauky");
}

#[test]
fn mbasta_strip_prefix_lifetime_check() {
    let needle = "foobar";
    let prefix = String::from("f");
    let result = collected::strip_prefix(needle, &prefix);
    drop(prefix);
    assert_eq!(result, "oobar");
}
