//! Positioned validation errors.

use vstd::prelude::*;
use vstd::string::StrSliceExecFns;
use vstd::string::StringExecFns;

verus! {

/// The two kinds of validation failure: a token that does not fit the
/// expected grammar production, and a token that fits the grammar but
/// violates a rule of the declared language.
#[derive(Debug, Clone, Copy, PartialEq, Eq, Structural)]
pub enum ErrorKind {
    Syntax,
    Semantic,
}

/// Mathematical model of an error: its kind, the character offset and width
/// of the offending lexeme, and its message text.
pub ghost struct ErrorView {
    pub kind: ErrorKind,
    pub position: nat,
    pub token_length: nat,
    pub message: Seq<char>,
}

/// A terminal validation failure. `position` and `token_length` delimit the
/// offending lexeme in the original source text, so a caller can slice the
/// source into the part before the error, the error itself, and the rest.
#[derive(Debug, Clone, PartialEq, Eq)]
pub struct LexerError {
    kind: ErrorKind,
    message: String,
    position: usize,
    token_length: usize,
}

impl View for LexerError {
    type V = ErrorView;

    closed spec fn view(&self) -> ErrorView {
        ErrorView {
            kind: self.kind,
            position: self.position as nat,
            token_length: self.token_length as nat,
            message: self.message@,
        }
    }
}

impl LexerError {
    /// A token that does not fit the expected grammar production.
    pub fn syntax_error(position: usize, token_length: usize, message: &str) -> (e: Self)
        ensures
            e@ == (ErrorView {
                kind: ErrorKind::Syntax,
                position: position as nat,
                token_length: token_length as nat,
                message: message@,
            }),
    {
        Self { kind: ErrorKind::Syntax, message: String::from_str(message), position, token_length }
    }

    /// A token that fits the grammar but violates a declared-language rule.
    pub fn semantic_error(position: usize, token_length: usize, message: &str) -> (e: Self)
        ensures
            e@ == (ErrorView {
                kind: ErrorKind::Semantic,
                position: position as nat,
                token_length: token_length as nat,
                message: message@,
            }),
    {
        Self {
            kind: ErrorKind::Semantic,
            message: String::from_str(message),
            position,
            token_length,
        }
    }

    /// An integer literal outside the 16-bit signed range; `actual` is the
    /// offending lexeme, which the error's position and length delimit and
    /// the message repeats.
    pub fn integer_out_of_range(position: usize, actual: &str) -> (e: Self)
        ensures
            e@ == (ErrorView {
                kind: ErrorKind::Semantic,
                position: position as nat,
                token_length: actual@.len(),
                message: "integer constant should be in range [-32768, 32767], actual: "@
                    + actual@,
            }),
    {
        let mut message = String::from_str(
            "integer constant should be in range [-32768, 32767], actual: ",
        );
        message.append(actual);
        Self::semantic_error(position, actual.unicode_len(), message.as_str())
    }

    /// The character offset of the offending lexeme.
    pub fn pos(&self) -> (p: usize)
        ensures
            p as nat == self@.position,
    {
        self.position
    }

    /// The character count of the offending lexeme.
    pub fn tok_length(&self) -> (n: usize)
        ensures
            n as nat == self@.token_length,
    {
        self.token_length
    }

    /// Which of the two kinds of failure this is.
    pub fn kind(&self) -> (k: ErrorKind)
        ensures
            k == self@.kind,
    {
        self.kind
    }

    /// A description of the failure.
    pub fn message(&self) -> (m: &String)
        ensures
            m@ == self@.message,
    {
        &self.message
    }
}

} // verus!
