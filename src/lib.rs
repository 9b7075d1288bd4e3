//! A small ahead-of-JIT compiler for a comment-annotated imperative language: a parser from
//! source text to a syntax tree, a semantic analyzer that registers signatures, binds
//! variables and reports type errors without stopping at the first, and a lowering engine
//! that turns accepted functions into a block-structured IR of typed mutable variables for a
//! code-generating backend.

use vstd::prelude::*;

pub mod acceptance;
pub mod analysis;
pub mod calls;
pub mod codegen;
pub mod error;
pub mod facts;
pub mod frontend;
pub mod lir;
pub mod mir;
pub mod parser;

verus! {

} // verus!
