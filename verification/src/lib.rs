//! A tree-walking interpreter for a small S-expression scripting language:
//! a tokenizer, a recursive-descent parser, and an evaluator that runs the
//! resulting syntax tree against a mutable variable/function environment.
//!
//! Numbers in the language are 64-bit signed integers; every arithmetic
//! operation is checked and reports an error instead of wrapping.

pub mod arith;
pub mod ast;
pub mod driver;
pub mod env;
pub mod interp;
pub mod laws;
pub mod num;
pub mod parser;
pub mod semantics;
pub mod strutil;
pub mod token;
pub mod value;
