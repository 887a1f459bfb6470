use katas::parentheses::match_parentheses;

#[test]
fn match_parentheses_empty() {
    assert!(match_parentheses(""));
    assert!(match_parentheses("foobar"));
}

#[test]
fn match_parentheses_wrong_order() {
    assert!(!match_parentheses(")("));
    assert!(!match_parentheses("xx)y(aa"));
}

#[test]
fn match_parentheses_extra_opening() {
    assert!(!match_parentheses("("));
    assert!(!match_parentheses("x[qq]e(s"));
    assert!(!match_parentheses("[(]"));
    assert!(!match_parentheses("(xxÃº[Ãº]ğŸ˜Š"));
}

#[test]
fn match_parentheses_extra_closing() {
    assert!(!match_parentheses(")"));
    assert!(!match_parentheses("[])"));
    assert!(!match_parentheses("[)]"));
    assert!(!match_parentheses("x([{)}])y"));
}

#[test]
fn match_parentheses_wrong_matched_type() {
    assert!(!match_parentheses("[)"));
    assert!(!match_parentheses("[qp)"));
    assert!(!match_parentheses("[}xx"));
    assert!(!match_parentheses("p{]vr"));
    assert!(!match_parentheses("y[q}xx"));
    assert!(!match_parentheses("y[qq)x"));
    assert!(!match_parentheses("([})"));
    assert!(!match_parentheses("(((([}))))"));
}

#[test]
fn respect_relative_ordering() {
    assert!(!match_parentheses("([)]"));
}

#[test]
fn simple() {
    assert!(match_parentheses("[]"));
    assert!(match_parentheses("()"));
    assert!(match_parentheses("{}"));
    assert!(match_parentheses("{}{}"));
    assert!(match_parentheses("{}{}{}"));
    assert!(match_parentheses("{}[]()"));
    assert!(match_parentheses("y{x}qq(xywe)[][xx]yy[][p]()"));
}

#[test]
fn nested() {
    assert!(match_parentheses("({[]})"));
    assert!(match_parentheses("q(x{x[xqp]yy}y)"));
    assert!(match_parentheses("((((()))))"));
    assert!(match_parentheses("{[({})](([]))}"));
}
