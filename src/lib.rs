//! A small computer-algebra core: expressions parsed from definitions such
//! as `f(x,y)=x^2+sin(y)`, a table of named functions, evaluation at numeric
//! arguments, symbolic differentiation and simplification.
//!
//! Numbers are IEEE-754 doubles held as their bit patterns; the arithmetic
//! on them is supplied by the caller (see `num`).
pub mod diff;
pub mod error;
pub mod eval;
pub mod expr;
pub mod function;
pub mod lexer;
pub mod monomial;
pub mod num;
pub mod parser;
pub mod polynomial;
pub mod render;
pub mod reparse;
pub mod simplify;
pub mod table;
pub mod token;
