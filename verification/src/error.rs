//! Diagnostics: where a failure stands in the source, what it says, and the
//! trace that carries it from its cause out to the caller.

pub mod failure;
pub mod pest_error;
pub mod span;
pub mod trace;
pub mod trace_error;
