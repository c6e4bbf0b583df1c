//! Propositional-logic formulas: an abstract syntax tree for AND, OR,
//! IMPLIES, NOT and variables, together with a recursive-descent parser
//! that turns a textual formula into such a tree or reports a syntax error.

pub mod expression;
pub mod laws;
pub mod parser;
