//! A small text-templating language: a scanner that tells literal text from
//! the expressions between `{{` and `}}`, and a recursive-descent parser that
//! turns the tokens into a syntax tree. Both are specified in `grammar` and
//! `lexer` by spec functions that their executable code is proved to follow.

pub mod grammar;
pub mod lexer;
pub mod node;
pub mod parser;
pub mod scope;
pub mod text;

pub use lexer::Lexer;
pub use node::Node;
pub use parser::Parser;
