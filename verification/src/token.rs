//! Positioned lexemes produced by the tokenizer.

use vstd::prelude::*;
use vstd::string::StrSliceExecFns;
use vstd::string::StringExecFns;

verus! {

/// Mathematical model of a token: its text and the character offset of its
/// first character in the original source.
pub ghost struct TokenView {
    pub word: Seq<char>,
    pub position: nat,
}

/// A lexeme together with the character offset of its first character in the
/// source text it was cut from. Immutable once produced.
#[derive(Debug, PartialEq, Eq)]
pub struct Token {
    word: String,
    position: usize,
}

impl View for Token {
    type V = TokenView;

    closed spec fn view(&self) -> TokenView {
        TokenView { word: self.word@, position: self.position as nat }
    }
}

impl Token {
    /// The offset one past the token's last character stays representable, so
    /// that error positions derived from the token cannot overflow.
    #[verifier::type_invariant]
    pub open spec fn wf(self) -> bool {
        self@.position + self@.word.len() <= usize::MAX
    }

    pub fn new(word: &str, position: usize) -> (t: Token)
        requires
            position + word@.len() <= usize::MAX,
        ensures
            t@.word == word@,
            t@.position == position as nat,
            t.wf(),
    {
        Token { word: String::from_str(word), position }
    }

    /// The token's text.
    pub fn word(&self) -> (w: &String)
        ensures
            w@ == self@.word,
    {
        &self.word
    }

    /// The character offset of the token's first character in the source.
    pub fn position(&self) -> (p: usize)
        ensures
            p as nat == self@.position,
    {
        self.position
    }

    /// The number of characters in the token's text.
    pub fn width(&self) -> (n: usize)
        ensures
            n as nat == self@.word.len(),
    {
        self.word.as_str().unicode_len()
    }
}

/// The views of a sequence of tokens.
pub open spec fn token_views(tokens: Seq<Token>) -> Seq<TokenView> {
    tokens.map_values(|t: Token| t@)
}

} // verus!
