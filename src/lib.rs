//! Arithmetic expression front end: a lexer that turns text into tokens, and a
//! precedence-climbing parser that turns tokens into a syntax tree, with every
//! lexical and syntax problem collected as a diagnostic.
pub mod ast;
pub mod lexer;
pub mod parser;
pub mod text;
pub mod token;
