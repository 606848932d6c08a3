//! The code generator: statement trees to assembly text for a 64-bit stack
//! machine with a frame of 26 variable slots.

pub mod code;
pub mod generator;
pub mod text;

pub use code::Error;
pub use generator::generate;
