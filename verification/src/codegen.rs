//! The boundary to code generation, which consumes the parser's output.
//!
//! A code generator accepts the ordered statement sequence that
//! `parser::Parser::parse` returns and produces an output artifact, or
//! fails with a `CodegenError`. Its internals (instruction selection,
//! lowering, target machinery) live outside this crate; only the error
//! surface is part of the front end's interface.

use vstd::prelude::*;

verus! {

/// A failure reported by a downstream code generator.
#[derive(Debug, Clone, PartialEq, Eq)]
pub enum CodegenError {
    BuildError(String),
}

} // verus!
