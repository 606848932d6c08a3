//! The scanner: source text to tokens.

pub mod laws;
pub mod scanner;
pub mod token;

pub use scanner::{is_representable, tokenize};
pub use token::{Annot, Error, ErrorKind, Ident, Loc, Stream, Token, TokenKind};
