//! The front end of the Courier language: source text in, classified
//! tokens or one diagnostic out.

pub mod classes;
pub mod error;
pub mod grammar;
pub mod lexer;
pub mod text;
pub mod tiling;
