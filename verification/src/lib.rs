//! A minimal Lisp-family expression interpreter.
//!
//! Text is parsed into a sequence of expressions (`parse`), and each
//! expression is reduced against a mutable environment (`eval`).  The
//! language offers integer arithmetic, variable binding with `define`,
//! anonymous functions with `lambda`, quoting, and the list primitives
//! `list`, `car` and `cdr`.

pub mod ast;
pub mod env;
pub mod eval;
pub mod laws;
pub mod parser;
pub mod printer;

pub use ast::Atom;
pub use ast::Expr;
pub use ast::Operator;
pub use env::Environment;
pub use eval::EvalError;
pub use eval::atoms_to_numbers;
pub use eval::eval;
pub use eval::exprs_to_numbers;
pub use parser::MAX_INPUT;
pub use parser::ParseError;
pub use parser::parse;
pub use printer::print_expr;
