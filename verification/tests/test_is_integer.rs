use analyzer::is_integer;

#[test]
fn test_is_integer_test_zero() {
    assert!(is_integer("0"));
}

#[test]
fn test_is_integer_test_positive() {
    assert!(is_integer("121"));
}

#[test]
fn test_is_integer_test_negative() {
    assert!(is_integer("-21"));
}

#[test]
fn test_is_integer_test_empty() {
    assert!(!is_integer(""));
}

#[test]
fn test_is_integer_test_plus() {
    assert!(!is_integer("+"));
}

#[test]
fn test_is_integer_test_minus() {
    assert!(!is_integer("-"));
}

#[test]
fn test_is_integer_test_space() {
    assert!(!is_integer(" "));
}

#[test]
fn test_is_integer_test_with_letters() {
    assert!(!is_integer("-123bba"));
}

#[test]
fn test_is_integer_test_letters() {
    assert!(!is_integer("pdd"));
}

#[test]
fn test_is_integer_test_double() {
    assert!(!is_integer("-13.69"));
}
