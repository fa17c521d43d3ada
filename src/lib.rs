use vstd::prelude::*;

/// Tokens, their kinds and the literal values they carry.
pub mod token;
/// The scanner: source text to tokens and diagnostics.
pub mod scanner;
/// Expression trees.
pub mod ast;
/// The recursive-descent parser: tokens to an expression tree.
pub mod parser;
/// The visitor capability set and the fully parenthesized printer.
pub mod printer;

verus! {

} // verus!
