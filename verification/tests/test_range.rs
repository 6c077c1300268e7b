use analyzer::is_integer_in_range;
use analyzer::is_keyword;
use analyzer::is_simple_type;

#[test]
fn range_accepts_extremes() {
    assert!(is_integer_in_range("32767"));
    assert!(is_integer_in_range("-32768"));
    assert!(is_integer_in_range("+121"));
    assert!(is_integer_in_range("0"));
    assert!(is_integer_in_range("00032767"));
}

#[test]
fn range_rejects_just_outside() {
    assert!(!is_integer_in_range("32768"));
    assert!(!is_integer_in_range("-32769"));
    assert!(!is_integer_in_range("111112"));
    assert!(!is_integer_in_range("99999999999999999999"));
}

#[test]
fn range_rejects_non_integers() {
    assert!(!is_integer_in_range(""));
    assert!(!is_integer_in_range("abc"));
    assert!(!is_integer_in_range("+"));
    assert!(!is_integer_in_range("12 "));
}

#[test]
fn simple_types_are_the_fixed_six() {
    for t in ["byte", "word", "integer", "real", "char", "double"] {
        assert!(is_simple_type(t));
    }
    assert!(!is_simple_type("var"));
    assert!(!is_simple_type("Byte"));
    assert!(!is_simple_type("bytes"));
}

#[test]
fn keywords_extend_simple_types() {
    for k in ["var", "byte", "word", "integer", "real", "char", "double", "array", "of"] {
        assert!(is_keyword(k));
    }
    assert!(!is_keyword("begin"));
    assert!(!is_keyword(""));
}
