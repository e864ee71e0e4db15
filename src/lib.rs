//! A small arithmetic-expression front end: a lexer that turns a line of text
//! into tokens, a recursive-descent parser that turns the tokens into an
//! expression tree under the usual precedence and associativity rules, and
//! the table of functions that a call can name.
pub mod ast;
pub mod error;
pub mod functions;
pub mod laws;
pub mod lexer;
pub mod parser;
