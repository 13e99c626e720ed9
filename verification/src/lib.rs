//! A small compiler front end for an expression language with integer
//! literals, the four arithmetic operators and a `print` statement.
//!
//! The pipeline is strictly sequential: source text is lexed into tokens,
//! parsed into an abstract syntax tree, constant-folded, type-checked,
//! lowered to a middle intermediate representation, and finally emitted as
//! textual LLVM IR.  Every stage is a pure function of its input, and each
//! stage's contract ties its result to a specification-level function, so
//! the whole pipeline is deterministic by construction.

pub mod ast;
pub mod codegen;
pub mod error_trait;
pub mod lexer;
pub mod lexer_error;
pub mod lowering;
pub mod mir;
pub mod numtext;
pub mod parser;
pub mod parser_error;
pub mod pipeline;
pub mod semantic;
pub mod semantic_error;
pub mod span;
pub mod token;
pub mod types;

pub use span::Span;
pub use token::{Token, TokenType};
