//! Validator for a single Pascal-style `VAR` declaration statement.
//!
//! The library tokenizes raw source text into positioned lexemes, classifies
//! lexemes with two character-level automata, and runs a token-level automaton
//! that checks grammar and semantic rules while it builds a symbol table
//! mapping declared names to their resolved type descriptors.

pub mod classify;
pub mod error;
pub mod number;
pub mod table;
pub mod text;
pub mod token;
pub mod tokenizer;
pub mod validate;

pub use error::ErrorKind;
pub use error::LexerError;
pub use token::Token;
pub use table::SymbolTable;
pub use number::is_integer_in_range;
pub use number::str_int;
pub use classify::is_identifier;
pub use classify::is_integer;
pub use classify::spec_is_identifier;
pub use classify::spec_is_integer;
pub use text::lower_of;
pub use tokenizer::tokenize;
pub use tokenizer::spec_tokenize;
pub use validate::analyze;
pub use validate::is_keyword;
pub use validate::is_simple_type;
pub use validate::spec_analyze;
pub use text::unicode_alphabetic;
pub use text::unicode_alphanumeric;
