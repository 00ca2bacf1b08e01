use aysinvi::error::pest_error::PestError;
use aysinvi::error::span::{Location, Span};
use aysinvi::error::trace::{Stage, Trace, TraceError};
use aysinvi::error::trace_error::Error;

fn at(line: &str, location: Location) -> Span {
    Span::new(line, location)
}

#[test]
fn a_span_gives_back_its_text_and_place() {
    let span = at("ngop a", Location::Span((2, 1), (2, 7)));
    assert_eq!(span.as_str(), "ngop a");
    assert_eq!(*span.line_col(), Location::Span((2, 1), (2, 7)));
    assert_eq!(span.clone(), span);
}

#[test]
fn a_location_starts_on_its_first_line() {
    assert_eq!(Location::Pos((7, 3)).first_line(), 7);
    assert_eq!(Location::Span((4, 1), (9, 2)).first_line(), 4);
}

#[test]
fn a_detail_is_built_from_a_span_and_a_message() {
    let err = Error::from_span(at("taron()", Location::Pos((3, 9))), "no such function");
    assert_eq!(err.line_col(), Location::Pos((3, 9)));
    assert_eq!(err.line(), "taron()");
    assert_eq!(err.message(), "no such function");
    let other = PestError::from_span(at("x", Location::Pos((1, 1))), "unexpected");
    assert_eq!(other.line_col(), Location::Pos((1, 1)));
    assert_eq!(other.line(), "x");
    assert_eq!(other.message(), "unexpected");
}

#[test]
fn frames_stay_in_the_order_in_which_they_were_recorded() {
    let mut trace = Trace::new(
        Stage::Binding,
        Error::from_span(at("a", Location::Pos((1, 1))), "cause"),
    );
    trace.push(Stage::Typing, Error::from_span(at("b", Location::Pos((2, 1))), "middle"));
    trace.push(Stage::Compiling, PestError::from_span(at("c", Location::Pos((3, 1))), "outer"));
    assert_eq!(trace.len(), 3);
    let (stage, detail) = trace.frame(0);
    assert_eq!(stage, Stage::Binding);
    assert_eq!(detail.message(), "cause");
    assert_eq!(detail.line(), "a");
    assert_eq!(detail.line_col(), Location::Pos((1, 1)));
    assert_eq!(trace.frame(1).0, Stage::Typing);
    assert_eq!(trace.frame(1).1.message(), "middle");
    assert_eq!(trace.frame(2).0, Stage::Compiling);
    assert_eq!(trace.frame(2).1.message(), "outer");
}

#[test]
fn a_trace_can_be_made_from_a_detail_with_or_without_a_stage() {
    let staged = Trace::from((
        Stage::Parsing,
        Error::from_span(at("a", Location::Pos((1, 1))), "m"),
    ));
    assert_eq!(staged.len(), 1);
    assert_eq!(staged.frame(0).0, Stage::Parsing);
    let bare = Trace::from(Error::from_span(at("a", Location::Pos((1, 1))), "m"));
    assert_eq!(bare.len(), 1);
    assert_eq!(bare.frame(0).0, Stage::Unknown);
    assert_eq!(Trace::default().len(), 0);
}

#[test]
fn an_empty_trace_renders_as_its_heading() {
    assert_eq!(Trace::default().to_string(), "Deepest error first\n");
}

#[test]
fn a_frame_renders_with_header_excerpt_and_message() {
    let trace = Trace::new(
        Stage::Binding,
        Error::from_span(at("foo bar", Location::Span((3, 5), (3, 8))), "Undefined variable: 'foo'"),
    );
    assert_eq!(
        trace.to_string(),
        "Deepest error first\n\
         -> Binding | 3:5 -> 3:8\n \
         |\n\
         3| foo bar\n \
         |\n \
         = Undefined variable: 'foo'\n"
    );
}

#[test]
fn a_point_renders_as_line_and_column() {
    let trace = Trace::new(
        Stage::Parsing,
        PestError::from_span(at("x", Location::Pos((12, 4))), "unexpected"),
    );
    assert_eq!(
        trace.to_string(),
        "Deepest error first\n--> Parsing | 12:4\n  |\n12| x\n  |\n  = unexpected\n"
    );
}

#[test]
fn blank_lines_are_left_out_but_counted() {
    let trace = Trace::new(
        Stage::Typing,
        Error::from_span(
            at("first  \n\n   \n  fourth\t\nfifth", Location::Span((99, 1), (103, 6))),
            "m",
        ),
    );
    assert_eq!(
        trace.to_string(),
        "Deepest error first\n\
         --> Typing | 99:1 -> 103:6\n  \
         |\n\
         99| first\n\
         102|   fourth\n\
         103| fifth\n  \
         |\n  \
         = m\n"
    );
}

#[test]
fn an_excerpt_of_blank_lines_renders_as_an_empty_line() {
    let trace = Trace::new(
        Stage::Unknown,
        Error::from_span(at(" \n", Location::Pos((1, 1))), "m"),
    );
    assert_eq!(trace.to_string(), "Deepest error first\n-> Unknown | 1:1\n |\n\n |\n = m\n");
}

#[test]
fn frames_render_cause_first() {
    let mut trace = Trace::new(
        Stage::AstBuilding,
        Error::from_span(at("a", Location::Pos((1, 2))), "inner"),
    );
    trace.push(Stage::Compiling, Error::from_span(at("b", Location::Pos((3, 4))), "outer"));
    assert_eq!(
        trace.to_string(),
        "Deepest error first\n\
         -> AstBuilding | 1:2\n |\n1| a\n |\n = inner\n\
         -> Compiling | 3:4\n |\n3| b\n |\n = outer\n"
    );
}

#[test]
fn line_numbers_do_not_wrap_at_the_largest_line() {
    let trace = Trace::new(
        Stage::Unknown,
        Error::from_span(at("a\nb", Location::Pos((usize::MAX, 0))), "m"),
    );
    let max = usize::MAX as u128;
    let width = max.to_string().len();
    let pad = " ".repeat(width);
    assert_eq!(
        trace.to_string(),
        format!(
            "Deepest error first\n{}> Unknown | {}:0\n{}|\n{}| a\n{}| b\n{}|\n{}= m\n",
            "-".repeat(width),
            max,
            pad,
            max,
            max + 1,
            pad,
            pad
        )
    );
}
