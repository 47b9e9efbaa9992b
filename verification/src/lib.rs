//! A line-oriented command interpreter, verified with Verus.
//!
//! One line of input is tokenized ([`lexer`]), parsed by recursive descent
//! into an expression tree of `;`-sequenced commands with optional output
//! redirection ([`ast`]), and evaluated against a model of the shell's world:
//! its working directory, files, output sink and process launcher ([`eval`]).
//! Each step carries a contract that pins its result down exactly, and the
//! evaluator's effects are proved against the world model.

pub mod ast;
pub mod eval;
pub mod lexer;
