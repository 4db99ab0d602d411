//! Front end of a compiler for a typed superset of a Lua-like language:
//! token model, lexer, diagnostics and a recursive-descent parser skeleton.

pub mod ast;
pub mod compiler;
pub mod diagnostics;
pub mod errors;
pub mod lex;
pub mod parser;
mod text;
pub mod tokens;

pub use compiler::Compiler;
pub use lex::{tokenize, Lexer};
pub use parser::parse;
pub use tokens::{Comment, Span, Token, Tokens};
