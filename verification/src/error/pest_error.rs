//! The detail that the parsing phase records.

use vstd::prelude::*;
use super::span::{Location, Span};
use super::trace::{Detail, TraceError};

verus! {

/// A failure reported by the parser: a place, the text there, and a message.
#[derive(Debug)]
pub struct PestError {
    line_col: Location,
    line: String,
    message: String,
}

impl TraceError for PestError {
    closed spec fn detail(&self) -> Detail {
        Detail { location: self.line_col, excerpt: self.line@, message: self.message@ }
    }

    fn from_span(span: Span, message: &str) -> (r: Self) {
        Self {
            line_col: *span.line_col(),
            line: span.as_str().to_owned(),
            message: message.to_owned(),
        }
    }

    fn line_col(&self) -> (r: Location) {
        self.line_col
    }

    fn line(&self) -> (r: &str) {
        self.line.as_str()
    }

    fn message(&self) -> (r: &str) {
        self.message.as_str()
    }
}

impl PestError {
    /// A detail with the given place, excerpt and message.
    pub fn new(location: Location, excerpt: &str, message: &str) -> (r: Self)
        ensures
            r.detail() == (Detail { location, excerpt: excerpt@, message: message@ }),
    {
        Self { line_col: location, line: excerpt.to_owned(), message: message.to_owned() }
    }
}

} // verus!
