use crate::ast;
use crate::codegen;
use crate::lex;
use vstd::prelude::*;
use vstd::std_specs::convert::FromSpecImpl;

verus! {

/// What can stop the compiler, by the stage that failed.
#[derive(Debug, Clone, Copy, PartialEq, Eq)]
pub enum Error {
    /// No source text was given.
    InputRequired,
    /// The scanner failed.
    Lexer(lex::Error),
    /// The parser failed.
    Parser(ast::Error),
    /// The code generator failed.
    Asm(codegen::Error),
}

impl From<lex::Error> for Error {
    fn from(e: lex::Error) -> (r: Self) {
        Error::Lexer(e)
    }
}

impl FromSpecImpl<lex::Error> for Error {
    open spec fn obeys_from_spec() -> bool {
        true
    }

    open spec fn from_spec(e: lex::Error) -> Self {
        Error::Lexer(e)
    }
}

impl From<ast::Error> for Error {
    fn from(e: ast::Error) -> (r: Self) {
        Error::Parser(e)
    }
}

impl FromSpecImpl<ast::Error> for Error {
    open spec fn obeys_from_spec() -> bool {
        true
    }

    open spec fn from_spec(e: ast::Error) -> Self {
        Error::Parser(e)
    }
}

impl From<codegen::Error> for Error {
    fn from(e: codegen::Error) -> (r: Self) {
        Error::Asm(e)
    }
}

impl FromSpecImpl<codegen::Error> for Error {
    open spec fn obeys_from_spec() -> bool {
        true
    }

    open spec fn from_spec(e: codegen::Error) -> Self {
        Error::Asm(e)
    }
}

} // verus!
