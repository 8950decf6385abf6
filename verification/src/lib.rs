//! Front end and code generator of the Aurora compiler: source text is lexed
//! into positioned tokens, parsed into a syntax tree, and emitted as a C++
//! translation unit; failures are rendered as caret diagnostics.

pub mod ast;
pub mod compile;
pub mod err;
pub mod grammar;
pub mod lexer;
pub mod lexer_laws;
pub mod parser;
pub mod parser_laws;
pub mod report;
pub mod text;
pub mod tree_walk;
pub mod writing;
