//! A compiler core for a small stack language that targets JVM assembly: a static analyzer of
//! stack effects, whose rules are stated as spec functions over a model of the syntax tree, and
//! a code generator whose output text is stated the same way.

use vstd::prelude::*;

pub mod analyzer;
pub mod ast;
pub mod codegen;
pub mod error;
pub mod laws;
pub mod pattern;
pub mod semantics;
pub mod state;
pub mod types;
pub mod writer;

verus! {

} // verus!
