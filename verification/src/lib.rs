//! Binary lambda calculus: a parser for binary-encoded lambda terms with
//! De Bruijn indices, lambda encoding of byte strings, and an execution
//! pipeline that normalizes a program applied to an argument.

pub mod binary_encoding;
pub mod expr;
pub mod engine;
pub mod execution;
pub mod lambda_encoding;
pub mod parser;

