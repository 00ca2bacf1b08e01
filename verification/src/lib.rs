//! Semantic analysis for a small scripting language whose calls are conjugated
//! verbs: scoped name resolution, type inference, and the diagnostics both use.

pub mod ast;
pub mod error;
pub mod highlight;
pub mod laws;
pub mod parsing;
pub mod scope;
pub mod suggest;
pub mod text;
