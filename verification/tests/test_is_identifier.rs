use analyzer::is_identifier;

#[test]
fn test_is_identifier_test_zero() {
    assert!(!is_identifier("0"));
}

#[test]
fn test_is_identifier_test_positive() {
    assert!(!is_identifier("121"));
}

#[test]
fn test_ok() {
    assert!(is_identifier("accum"));
}

#[test]
fn test_ok_with_numbers() {
    assert!(is_identifier("accum2"));
}

#[test]
fn test_is_identifier_test_negative() {
    assert!(!is_identifier("-21"));
}

#[test]
fn test_is_identifier_test_empty() {
    assert!(!is_identifier(""));
}

#[test]
fn test_is_identifier_test_plus() {
    assert!(!is_identifier("+"));
}

#[test]
fn test_is_identifier_test_minus() {
    assert!(!is_identifier("-"));
}

#[test]
fn test_is_identifier_test_space() {
    assert!(!is_identifier(" "));
}

#[test]
fn test_is_identifier_test_with_letters() {
    assert!(!is_identifier("-123bba"));
}

#[test]
fn test_is_identifier_test_letters() {
    assert!(is_identifier("pdd"));
}

#[test]
fn test_is_identifier_test_double() {
    assert!(!is_identifier("-13.69"));
}

#[test]
fn test_k() {
    assert!(is_identifier("k"));
}
