use katas::interleave::flags;
use katas::interleave::remainder;
use katas::interleave::zipped;

#[test]
fn frankparejo_interleave_empty() {
    assert_eq!(zipped::interleave("", ""), "");
}

#[test]
fn frankparejo_interleave_only_left() {
    assert_eq!(zipped::interleave("a", ""), "a");
    assert_eq!(zipped::interleave("zxjas", ""), "zxjas");
}

#[test]
fn frankparejo_interleave_only_right() {
    assert_eq!(zipped::interleave("", "z"), "z");
    assert_eq!(zipped::interleave("", "foobar"), "foobar");
}

#[test]
fn frankparejo_interleave_same_length() {
    assert_eq!(zipped::interleave("abcdef", "012345"), "a0b1c2d3e4f5");
}

#[test]
fn frankparejo_interleave_first_longer() {
    assert_eq!(
        zipped::interleave("Programming Rust", "O'Reilly"),
        "POr'oRgerialmlmying Rust"
    );
}

#[test]
fn frankparejo_interleave_second_longer() {
    assert_eq!(
        zipped::interleave("ahoj, jak se máš?", "díky za optání, mám se dobře"),
        "adhíokjy,  zjaa ko psteá nmíá,š ?mám se dobře"
    );
}

#[test]
fn ifraixedes_interleave_empty() {
    assert_eq!(remainder::interleave("", ""), "");
}

#[test]
fn ifraixedes_interleave_only_left() {
    assert_eq!(remainder::interleave("a", ""), "a");
    assert_eq!(remainder::interleave("zxjas", ""), "zxjas");
}

#[test]
fn ifraixedes_interleave_only_right() {
    assert_eq!(remainder::interleave("", "z"), "z");
    assert_eq!(remainder::interleave("", "foobar"), "foobar");
}

#[test]
fn ifraixedes_interleave_same_length() {
    assert_eq!(remainder::interleave("abcdef", "012345"), "a0b1c2d3e4f5");
}

#[test]
fn ifraixedes_interleave_first_longer() {
    assert_eq!(
        remainder::interleave("Programming Rust", "O'Reilly"),
        "POr'oRgerialmlmying Rust"
    );
}

#[test]
fn ifraixedes_interleave_second_longer() {
    assert_eq!(
        remainder::interleave("ahoj, jak se máš?", "díky za optání, mám se dobře"),
        "adhíokjy,  zjaa ko psteá nmíá,š ?mám se dobře"
    );
}

#[test]
fn or_interleave_interleave_empty() {
    assert_eq!(flags::interleave("", ""), "");
}

#[test]
fn or_interleave_interleave_only_left() {
    assert_eq!(flags::interleave("a", ""), "a");
    assert_eq!(flags::interleave("zxjas", ""), "zxjas");
}

#[test]
fn or_interleave_interleave_only_right() {
    assert_eq!(flags::interleave("", "z"), "z");
    assert_eq!(flags::interleave("", "foobar"), "foobar");
}

#[test]
fn or_interleave_interleave_same_length() {
    assert_eq!(flags::interleave("abcdef", "012345"), "a0b1c2d3e4f5");
}

#[test]
fn or_interleave_interleave_first_longer() {
    assert_eq!(
        flags::interleave("Programming Rust", "O'Reilly"),
        "POr'oRgerialmlmying Rust"
    );
}

#[test]
fn or_interleave_interleave_second_longer() {
    assert_eq!(
        flags::interleave("ahoj, jak se máš?", "díky za optání, mám se dobře"),
        "adhíokjy,  zjaa ko psteá nmíá,š ?mám se dobře"
    );
}
