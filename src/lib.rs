//! A scanner for a small WHILE-style language: keywords, punctuation and
//! identifiers, with word-boundary rules that keep keywords from matching
//! inside longer words.

pub mod token;
pub mod tokenizer;

pub use token::{SymbolType, Token, TokenType};
pub use tokenizer::Tokenizer;
