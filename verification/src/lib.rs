//! A small compiler for arithmetic statements over single-letter variables.
//!
//! The pipeline has three stages, each a function of this crate:
//! [`tokenize`] turns source text into tokens, [`parse`] turns tokens into
//! statement trees, and [`generate`] turns statement trees into assembly text
//! for a 64-bit stack machine.
//!
//! Each stage is verified against a mathematical description of what it
//! returns:
//!
//! * [`lex::scanner::scan`] gives the tokens of a text,
//! * [`ast::parser::program`] gives the statements of a token stream, by the
//!   rules of the grammar,
//! * [`codegen::code::lowered_all`] gives the instructions of the statements,
//!   and [`codegen::text::assembly`] the text that is written for them.
//!
//! [`semantics`] says what the trees and the instructions mean, and proves
//! that the instructions compute what the trees say.

pub mod ast;
pub mod codegen;
pub mod error;
pub mod lex;
pub mod semantics;

pub use ast::parse;
pub use codegen::generate;
pub use error::Error;
pub use lex::{is_representable, tokenize};
