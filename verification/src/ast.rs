//! The syntax tree in its three states: as parsed, bound, and typed.

pub mod binding;
pub mod lib;
pub mod parsing;
pub mod scoping;
pub mod typing;
