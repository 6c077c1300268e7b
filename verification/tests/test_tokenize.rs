use analyzer::tokenize;
use analyzer::Token;

#[test]
fn tokenize_splits_words_and_punctuation() {
    let tokens = tokenize(String::from("ab, cd")).unwrap();
    assert_eq!(tokens.len(), 3);
    assert_eq!(tokens[0].word().as_str(), "ab");
    assert_eq!(tokens[0].position(), 0);
    assert_eq!(tokens[1].word().as_str(), ",");
    assert_eq!(tokens[1].position(), 2);
    assert_eq!(tokens[2].word().as_str(), "cd");
    assert_eq!(tokens[2].position(), 4);
}

#[test]
fn tokenize_never_fails() {
    assert!(tokenize(String::from("")).unwrap().is_empty());
    assert!(tokenize(String::from("   ")).unwrap().is_empty());
    assert!(tokenize(String::from("!@#$")).unwrap().len() == 4);
}

#[test]
fn tokenize_round_trip_drops_only_spaces() {
    let source = "var a, k: array[2:10,10:40] of byte, d17,e7: word;";
    let tokens = tokenize(String::from(source)).unwrap();
    let mut joined = String::new();
    for t in &tokens {
        joined.push_str(t.word().as_str());
    }
    let expected: String = source.chars().filter(|c| *c != ' ').collect();
    assert_eq!(joined, expected);
}

#[test]
fn tokenize_flushes_final_run() {
    let tokens = tokenize(String::from("  byte")).unwrap();
    assert_eq!(tokens.len(), 1);
    assert_eq!(tokens[0].word().as_str(), "byte");
    assert_eq!(tokens[0].position(), 2);
}

#[test]
fn tokenize_keeps_case() {
    let tokens = tokenize(String::from("VAR Ab;")).unwrap();
    assert_eq!(tokens[0].word().as_str(), "VAR");
    assert_eq!(tokens[1].word().as_str(), "Ab");
    assert_eq!(tokens[2].word().as_str(), ";");
}

#[test]
fn token_accessors() {
    let t = Token::new("ab", 7);
    assert_eq!(t.word().as_str(), "ab");
    assert_eq!(t.position(), 7);
    assert_eq!(t.width(), 2);
}
