//! A line-oriented arithmetic expression evaluator with persistent variable
//! bindings.
//!
//! Each input line is scanned into tokens and parsed by recursive descent
//! against a fixed arithmetic grammar. A line either denotes a value, binds a
//! variable for later lines, or requests termination. Because the numeric
//! domain is 64-bit floating point, which verified code does not handle, the
//! parser returns a closed expression tree ([`parser::Expr`]) whose leaves are
//! number literals; folding such a tree into a number is left to the
//! (unverified) caller. The tree is closed: variable references are replaced,
//! at parse time, by the tree most recently bound to that name, so evaluating
//! it needs no environment and reproduces the eager left-to-right evaluation
//! order of the grammar.

pub mod laws;
pub mod parser;
pub mod tokenizer;
