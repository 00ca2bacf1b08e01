//! An owned excerpt of the source and the place it was taken from.

use vstd::prelude::*;

verus! {

/// A place in the source: one point, or the range between two points. A point
/// is a line and a column, in that order.
#[derive(Clone, Copy, Debug, PartialEq, Eq)]
pub enum Location {
    Pos((usize, usize)),
    Span((usize, usize), (usize, usize)),
}

impl Location {
    /// The line of the point, or of the start of the range.
    pub open spec fn spec_first_line(self) -> usize {
        match self {
            Location::Pos((line, _)) => line,
            Location::Span((line, _), _) => line,
        }
    }

    /// The line of the point, or of the start of the range.
    #[verifier::when_used_as_spec(spec_first_line)]
    pub fn first_line(self) -> (r: usize)
        ensures
            r == self.spec_first_line(),
    {
        match self {
            Location::Pos((line, _)) => line,
            Location::Span((line, _), _) => line,
        }
    }
}

/// What a `Span` holds, as plain values.
pub struct SpanView {
    /// The text that the span covers.
    pub line: Seq<char>,
    /// Where that text stands.
    pub location: Location,
}

/// A copy of the source text that a node covers, with its place. The text is
/// owned, so a span outlives the buffer it was read from.
#[derive(Debug, PartialEq, Eq)]
pub struct Span {
    line: String,
    location: Location,
}

impl View for Span {
    type V = SpanView;

    closed spec fn view(&self) -> SpanView {
        SpanView { line: self.line@, location: self.location }
    }
}

impl Clone for Span {
    fn clone(&self) -> (r: Self)
        ensures
            r@ == self@,
    {
        Span { line: self.line.clone(), location: self.location }
    }
}

impl Span {
    /// A span over the text `line`, which stands at `location`.
    pub fn new(line: &str, location: Location) -> (r: Self)
        ensures
            r@ == (SpanView { line: line@, location }),
    {
        Span { line: line.to_owned(), location }
    }

    /// The text that the span covers.
    pub fn as_str(&self) -> (r: &str)
        ensures
            r@ == self@.line,
    {
        self.line.as_str()
    }

    /// Where the covered text stands.
    pub fn line_col(&self) -> (r: &Location)
        ensures
            *r == self@.location,
    {
        &self.location
    }
}

} // verus!
