//! Front end of a compiler for the small imperative language Lumina.
//!
//! The crate has two components, consumed in sequence by a driver:
//! a tokenizer, which turns source text into a classified token sequence
//! terminated by an end-of-input marker, and a recursive-descent parser,
//! which turns that token sequence into an abstract syntax tree.
//! Data flows one way: text, then tokens, then AST.
//!
//! Every executable function is specified against a mathematical model:
//! the tokenizer against `lexer::spec_lex`, the parser against the
//! `sp_*` family in `parser`, and the canonical serializer against
//! `render::spec_render`.

#![verifier::loop_isolation(false)]

pub mod ast;
pub mod codegen;
pub mod laws;
pub mod lexer;
pub mod parser;
pub mod render;
pub mod token;
