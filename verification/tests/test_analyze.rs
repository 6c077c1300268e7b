use analyzer::analyze;
use analyzer::tokenize;
use analyzer::ErrorKind;
use analyzer::LexerError;
use analyzer::SymbolTable;

fn run(source: &str) -> Result<SymbolTable, LexerError> {
    analyze(tokenize(String::from(source)).unwrap())
}

#[test]
fn accepts_mixed_declaration() {
    let table = run("var a, k: array[2:10,10:40] of byte, d17,e7: word;").unwrap();
    assert_eq!(table.len(), 4);
    assert_eq!(table.get("a").unwrap().as_str(), "array[2:10,10:40] of byte");
    assert_eq!(table.get("k").unwrap().as_str(), "array[2:10,10:40] of byte");
    assert_eq!(table.get("d17").unwrap().as_str(), "word");
    assert_eq!(table.get("e7").unwrap().as_str(), "word");
    assert!(table.get("missing").is_none());
}

#[test]
fn accepts_simple_declaration() {
    let table = run("var x: byte;").unwrap();
    assert_eq!(table.len(), 1);
    assert_eq!(table.get("x").unwrap().as_str(), "byte");
}

#[test]
fn normalizes_case_for_keywords_and_names() {
    let table = run("VAR A:BYTE;").unwrap();
    assert_eq!(table.get("a").unwrap().as_str(), "byte");
}

#[test]
fn keeps_case_inside_array_descriptor() {
    let table = run("var a: ARRAY[1:2] OF Byte;").unwrap();
    assert_eq!(table.get("a").unwrap().as_str(), "ARRAY[1:2] OF Byte");
}

#[test]
fn rejects_duplicate_in_one_list() {
    let e = run("var a,a: byte;").unwrap_err();
    assert_eq!(e.kind(), ErrorKind::Semantic);
    assert_eq!(e.pos(), 6);
    assert_eq!(e.tok_length(), 1);
    assert!(e.message().contains("identifier `a` already taken"));
}

#[test]
fn rejects_duplicate_across_lists() {
    let e = run("var a: byte, a: word;").unwrap_err();
    assert_eq!(e.kind(), ErrorKind::Semantic);
    assert_eq!(e.pos(), 13);
}

#[test]
fn rejects_duplicate_up_to_case() {
    let e = run("var A, a: byte;").unwrap_err();
    assert_eq!(e.kind(), ErrorKind::Semantic);
    assert_eq!(e.pos(), 7);
}

#[test]
fn rejects_out_of_range_bound() {
    let e = run("var a: array[111112:10,10:40] of byte;").unwrap_err();
    assert_eq!(e.kind(), ErrorKind::Semantic);
    assert_eq!(e.pos(), 13);
    assert_eq!(e.tok_length(), 6);
    assert!(e.message().contains("integer constant should be in range [-32768, 32767], actual: 111112"));
}

#[test]
fn rejects_missing_semicolon() {
    let e = run("var a: byte").unwrap_err();
    assert_eq!(e.kind(), ErrorKind::Syntax);
    assert_eq!(e.pos(), 11);
    assert_eq!(e.tok_length(), 1);
    assert!(e.message().contains("expected semicolon at the end"));
}

#[test]
fn rejects_long_identifier() {
    let e = run("var longidentifier: byte;").unwrap_err();
    assert_eq!(e.kind(), ErrorKind::Semantic);
    assert_eq!(e.pos(), 4);
    assert_eq!(e.tok_length(), 14);
    assert!(e.message().contains("longer than 8 characters"));
}

#[test]
fn rejects_reserved_word_as_name() {
    let e = run("var word: byte;").unwrap_err();
    assert_eq!(e.kind(), ErrorKind::Semantic);
    assert_eq!(e.pos(), 4);
    assert!(e.message().contains("reserved word"));
}

#[test]
fn rejects_empty_input() {
    let e = run("").unwrap_err();
    assert_eq!(e.kind(), ErrorKind::Syntax);
    assert_eq!(e.pos(), 0);
    assert_eq!(e.tok_length(), 0);
    assert!(e.message().contains("var declaration should start"));
}

#[test]
fn rejects_missing_var_keyword() {
    let e = run("x: byte;").unwrap_err();
    assert_eq!(e.kind(), ErrorKind::Syntax);
    assert_eq!(e.pos(), 0);
    assert!(e.message().contains("expected `var`, found `x`"));
}

#[test]
fn rejects_bad_identifier() {
    let e = run("var 1a: byte;").unwrap_err();
    assert_eq!(e.kind(), ErrorKind::Syntax);
    assert_eq!(e.pos(), 4);
    assert!(e.message().contains("valid identifier"));
}

#[test]
fn rejects_stray_token_after_name() {
    let e = run("var a b").unwrap_err();
    assert_eq!(e.kind(), ErrorKind::Syntax);
    assert_eq!(e.pos(), 6);
    assert!(e.message().contains("comma or colon"));
}

#[test]
fn rejects_unknown_type() {
    let e = run("var a: quux;").unwrap_err();
    assert_eq!(e.kind(), ErrorKind::Syntax);
    assert_eq!(e.pos(), 7);
    assert!(e.message().contains("valid type keyword"));
}

#[test]
fn rejects_equal_bounds() {
    let e = run("var a: array[5:5] of byte;").unwrap_err();
    assert_eq!(e.kind(), ErrorKind::Semantic);
    assert_eq!(e.pos(), 15);
    assert!(e.message().contains("first bound of range should be less than second"));
}

#[test]
fn rejects_inverted_bounds() {
    let e = run("var a: array[9:2] of byte;").unwrap_err();
    assert_eq!(e.kind(), ErrorKind::Semantic);
    assert_eq!(e.pos(), 15);
}

#[test]
fn rejects_empty_dimensions() {
    let e = run("var a: array[] of byte;").unwrap_err();
    assert_eq!(e.kind(), ErrorKind::Syntax);
    assert_eq!(e.pos(), 13);
    assert!(e.message().contains("start of a range"));
}

#[test]
fn rejects_third_dimension() {
    let e = run("var a: array[1:2,3:4,5:6] of byte;").unwrap_err();
    assert_eq!(e.kind(), ErrorKind::Syntax);
    assert_eq!(e.pos(), 20);
    assert!(e.message().contains("expected `]`"));
}

#[test]
fn ignores_tokens_after_the_semicolon() {
    let table = run("var a: byte; trailing").unwrap();
    assert_eq!(table.len(), 1);
}

#[test]
fn analyze_is_deterministic() {
    let source = "var a, k: array[2:10,10:40] of byte, d17,e7: word;";
    let r1 = run(source);
    let r2 = run(source);
    assert_eq!(r1, r2);
    let bad = "var a,a: byte;";
    let e1 = run(bad);
    let e2 = run(bad);
    assert_eq!(e1, e2);
}

#[test]
fn accepts_negative_bounds() {
    // The tokenizer cuts a leading sign off as its own token, so signed
    // bounds reach the validator only from tokens built directly.
    let words = ["var", "a", ":", "array", "[", "-32768", ":", "32767", "]", "of", "integer", ";"];
    let mut tokens = Vec::new();
    let mut pos: usize = 0;
    for w in words {
        tokens.push(analyzer::Token::new(w, pos));
        pos += w.len() + 1;
    }
    let table = analyze(tokens).unwrap();
    assert_eq!(table.get("a").unwrap().as_str(), "array[-32768:32767] of integer");
}

#[test]
fn rejects_bound_below_range() {
    let words = ["var", "a", ":", "array", "[", "-32769", ":", "10", "]", "of", "byte", ";"];
    let mut tokens = Vec::new();
    let mut pos: usize = 0;
    for w in words {
        tokens.push(analyzer::Token::new(w, pos));
        pos += w.len() + 1;
    }
    let e = analyze(tokens).unwrap_err();
    assert_eq!(e.kind(), ErrorKind::Semantic);
    assert!(e.message().contains("integer constant should be in range [-32768, 32767], actual: -32769"));
}

#[test]
fn error_constructors_carry_their_fields() {
    let e = LexerError::syntax_error(3, 2, "boom");
    assert_eq!(e.pos(), 3);
    assert_eq!(e.tok_length(), 2);
    assert_eq!(e.kind(), ErrorKind::Syntax);
    assert_eq!(e.message().as_str(), "boom");
    let o = LexerError::integer_out_of_range(5, "99999");
    assert_eq!(o.pos(), 5);
    assert_eq!(o.tok_length(), 5);
    assert_eq!(o.kind(), ErrorKind::Semantic);
    assert!(o.message().contains("actual: 99999"));
}
