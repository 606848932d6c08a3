//! The syntax tree and the parser that builds it.

pub mod laws;
pub mod node;
pub mod parser;
pub mod spelling;

pub use node::{Kind, Link, LocalVar, Node, Program};
pub use parser::{parse, Error, Parser};
