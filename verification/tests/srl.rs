use katas::srl::split_all;
use katas::srl::split_once;

#[test]
fn or_empty_address() {
    assert_eq!(split_all::SRL::new(""), Err(split_all::SRLValidationError::EmptyAddress));
}

#[test]
fn or_only_separator() {
    assert_eq!(split_all::SRL::new("://"), Err(split_all::SRLValidationError::EmptyProtocol));
}

#[test]
fn or_empty_protocol() {
    assert_eq!(split_all::SRL::new("://foo"), Err(split_all::SRLValidationError::EmptyProtocol));
}

#[test]
fn or_multiple_protocols() {
    assert_eq!(
        split_all::SRL::new("ab://bc://foo"),
        Err(split_all::SRLValidationError::InvalidCharacterInAddress(':'))
    );
}

#[test]
fn or_invalid_protocol() {
    assert_eq!(
        split_all::SRL::new("bAc://foo"),
        Err(split_all::SRLValidationError::InvalidCharacterInProtocol('A'))
    );
    assert_eq!(
        split_all::SRL::new("a02://foo"),
        Err(split_all::SRLValidationError::InvalidCharacterInProtocol('0'))
    );
}

#[test]
fn or_invalid_address_with_protocol() {
    assert_eq!(
        split_all::SRL::new("abc://fo1o"),
        Err(split_all::SRLValidationError::InvalidCharacterInAddress('1'))
    );
    assert_eq!(
        split_all::SRL::new("bar://fooBZcX"),
        Err(split_all::SRLValidationError::InvalidCharacterInAddress('B'))
    );
}

#[test]
fn or_invalid_address_without_protocol() {
    assert_eq!(
        split_all::SRL::new("fo1o"),
        Err(split_all::SRLValidationError::InvalidCharacterInAddress('1'))
    );
    assert_eq!(
        split_all::SRL::new("fooBAc"),
        Err(split_all::SRLValidationError::InvalidCharacterInAddress('B'))
    );
}

#[test]
fn or_invalid_protocol_and_address() {
    assert_eq!(
        split_all::SRL::new("bZcA://fo2o"),
        Err(split_all::SRLValidationError::InvalidCharacterInProtocol('Z'))
    );
    assert_eq!(
        split_all::SRL::new("a20://barBAZ"),
        Err(split_all::SRLValidationError::InvalidCharacterInProtocol('2'))
    );
}

#[test]
fn or_invalid_char_emoji() {
    assert_eq!(
        split_all::SRL::new("asd://fo\u{1F643}o"),
        Err(split_all::SRLValidationError::InvalidCharacterInAddress('\u{1F643}'))
    );
}

#[test]
fn or_no_protocol() {
    let srl = split_all::SRL::new("foobar").unwrap();
    assert_eq!(srl.get_protocol(), None);
    assert_eq!(srl.get_address(), "foobar");
}

#[test]
fn or_protocol_and_scheme() {
    let srl = split_all::SRL::new("bar://foobar").unwrap();
    assert_eq!(srl.get_protocol(), Some("bar"));
    assert_eq!(srl.get_address(), "foobar");
}

#[test]
fn ifraixedes_empty_address() {
    assert_eq!(split_once::SRL::new(""), Err(split_once::SRLValidationError::EmptyAddress));
}

#[test]
fn ifraixedes_only_separator() {
    assert_eq!(split_once::SRL::new("://"), Err(split_once::SRLValidationError::EmptyProtocol));
}

#[test]
fn ifraixedes_empty_protocol() {
    assert_eq!(split_once::SRL::new("://foo"), Err(split_once::SRLValidationError::EmptyProtocol));
}

#[test]
fn ifraixedes_multiple_protocols() {
    assert_eq!(
        split_once::SRL::new("ab://bc://foo"),
        Err(split_once::SRLValidationError::InvalidCharacterInAddress(':'))
    );
}

#[test]
fn ifraixedes_invalid_protocol() {
    assert_eq!(
        split_once::SRL::new("bAc://foo"),
        Err(split_once::SRLValidationError::InvalidCharacterInProtocol('A'))
    );
    assert_eq!(
        split_once::SRL::new("a02://foo"),
        Err(split_once::SRLValidationError::InvalidCharacterInProtocol('0'))
    );
}

#[test]
fn ifraixedes_invalid_address_with_protocol() {
    assert_eq!(
        split_once::SRL::new("abc://fo1o"),
        Err(split_once::SRLValidationError::InvalidCharacterInAddress('1'))
    );
    assert_eq!(
        split_once::SRL::new("bar://fooBZcX"),
        Err(split_once::SRLValidationError::InvalidCharacterInAddress('B'))
    );
}

#[test]
fn ifraixedes_invalid_address_without_protocol() {
    assert_eq!(
        split_once::SRL::new("fo1o"),
        Err(split_once::SRLValidationError::InvalidCharacterInAddress('1'))
    );
    assert_eq!(
        split_once::SRL::new("fooBAc"),
        Err(split_once::SRLValidationError::InvalidCharacterInAddress('B'))
    );
}

#[test]
fn ifraixedes_invalid_protocol_and_address() {
    assert_eq!(
        split_once::SRL::new("bZcA://fo2o"),
        Err(split_once::SRLValidationError::InvalidCharacterInProtocol('Z'))
    );
    assert_eq!(
        split_once::SRL::new("a20://barBAZ"),
        Err(split_once::SRLValidationError::InvalidCharacterInProtocol('2'))
    );
}

#[test]
fn ifraixedes_invalid_char_emoji() {
    assert_eq!(
        split_once::SRL::new("asd://fo\u{1F643}o"),
        Err(split_once::SRLValidationError::InvalidCharacterInAddress('\u{1F643}'))
    );
}

#[test]
fn ifraixedes_no_protocol() {
    let srl = split_once::SRL::new("foobar").unwrap();
    assert_eq!(srl.get_protocol(), None);
    assert_eq!(srl.get_address(), "foobar");
}

#[test]
fn ifraixedes_protocol_and_scheme() {
    let srl = split_once::SRL::new("bar://foobar").unwrap();
    assert_eq!(srl.get_protocol(), Some("bar"));
    assert_eq!(srl.get_address(), "foobar");
}
