//! Expression terms of BAML expression functions and a small-step evaluator for them.
//!
//! - [`value`]: the values atoms hold and their JSON text.
//! - [`expr`]: expression terms and their models.
//! - [`context`]: names bound to expressions.
//! - [`semantics`]: what substitution, a step and evaluation mean, over the models.
//! - [`eval`]: the evaluator, proved to follow [`semantics`].
//! - [`dump`]: readable text of expressions and contexts.
//! - [`ir`]: the initial context of a program.
//! - [`laws`]: properties that span several operations.
use vstd::prelude::*;

pub mod text;
pub mod value;
pub mod expr;
pub mod context;
pub mod semantics;
pub mod eval;
pub mod dump;
pub mod ir;
pub mod laws;

verus! {

} // verus!
