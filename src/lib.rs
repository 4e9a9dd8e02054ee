//! An interpreter for a small parenthesized prefix-notation calculator:
//! a scanner from characters to tokens, a recursive-descent parser from
//! tokens to expression trees, and a tree-walking evaluator.
pub mod lexer;
pub mod eval;
pub mod parser;
mod text;
