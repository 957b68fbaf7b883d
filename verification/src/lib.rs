//! The core of a Scheme interpreter: a parser from tokens to a located
//! syntax tree, an exact/inexact number model, runtime values and the
//! built-in procedures of the `base` library.

pub mod ast;
pub mod base;
pub mod grammar;
pub mod environment;
pub mod error;
pub mod external;
pub mod located;
pub mod number;
pub mod parser;
pub mod text;
pub mod token;
pub mod value;
