//! The front end of an interpreter for a small C-family scripting language:
//! a lexer that turns source text into tokens, and a recursive-descent parser
//! that turns tokens into a partial syntax tree, collecting errors as it goes.
//!
//! [`lexical`] and [`grammar`] say what the tokens and the statements of a text
//! are; [`lexer`] and [`parser`] compute them, and are proved to agree.
pub mod ast;
pub mod error;
pub mod grammar;
pub mod lexer;
pub mod lexical;
pub mod parser;
pub mod token;
