//! The trace of a failure: frames from the cause outwards, and their rendering.

use vstd::prelude::*;
use vstd::string::StringExecFns;
use super::span::{Location, Span};
use super::trace_error::Error;
use crate::parsing::Pair;
use crate::text::{
    blank, chars_of, decimal, digits, is_blank, joined, lines_of,
    lines_view, push_chars, push_repeated, repeated, split_lines, trim_end, trim_end_len,
};

verus! {

/// The phase of the front end in which a frame was recorded.
#[derive(Clone, Copy, Debug, PartialEq, Eq, Structural)]
pub enum Stage {
    Unknown,
    Parsing,
    AstBuilding,
    Binding,
    Typing,
    Compiling,
}

/// What one frame says of a failure, as plain values.
pub struct Detail {
    /// Where the offending text stands.
    pub location: Location,
    /// The offending text.
    pub excerpt: Seq<char>,
    /// What is wrong with it.
    pub message: Seq<char>,
}

/// What a value must offer to stand in a trace: it is built from a span and a
/// message, and gives back the place, the excerpt and the message.
pub trait TraceError {
    /// The place, excerpt and message that the value holds.
    spec fn detail(&self) -> Detail;

    /// A detail that reports `message` about the text under `span`.
    fn from_span(span: Span, message: &str) -> (r: Self) where Self: Sized
        ensures
            r.detail() == (Detail {
                location: span@.location,
                excerpt: span@.line,
                message: message@,
            }),
    ;

    /// Where the offending text stands.
    fn line_col(&self) -> (r: Location)
        ensures
            r == self.detail().location,
    ;

    /// The offending text.
    fn line(&self) -> (r: &str)
        ensures
            r@ == self.detail().excerpt,
    ;

    /// What is wrong with it.
    fn message(&self) -> (r: &str)
        ensures
            r@ == self.detail().message,
    ;
}

/// A failure as a stack of frames. The first frame is the cause, where the
/// failure was found; each later one was added by a caller further out.
#[derive(Debug)]
pub struct Trace {
    stack: Vec<(Stage, Error)>,
}

impl View for Trace {
    type V = Seq<(Stage, Detail)>;

    closed spec fn view(&self) -> Seq<(Stage, Detail)> {
        Seq::new(self.stack.len() as nat, |i: int| (self.stack[i].0, self.stack[i].1.detail()))
    }
}

/// The trace of a failure that was just found: one frame.
pub open spec fn trace_new(stage: Stage, detail: Detail) -> Seq<(Stage, Detail)> {
    seq![(stage, detail)]
}

/// `trace` with one more frame, added by a caller further out.
pub open spec fn trace_push(trace: Seq<(Stage, Detail)>, stage: Stage, detail: Detail) -> Seq<
    (Stage, Detail),
> {
    trace.push((stage, detail))
}

/// The name under which a stage is shown.
pub open spec fn stage_name(stage: Stage) -> Seq<char> {
    match stage {
        Stage::Unknown => "Unknown"@,
        Stage::Parsing => "Parsing"@,
        Stage::AstBuilding => "AstBuilding"@,
        Stage::Binding => "Binding"@,
        Stage::Typing => "Typing"@,
        Stage::Compiling => "Compiling"@,
    }
}

/// How a place is shown: `line:column` for a point, start and end joined by
/// an arrow for a range.
pub open spec fn coordinates(location: Location) -> Seq<char> {
    match location {
        Location::Pos((y, x)) => digits(y as nat) + ":"@ + digits(x as nat),
        Location::Span((ys, xs), (ye, xe)) => digits(ys as nat) + ":"@ + digits(xs as nat)
            + " -> "@ + digits(ye as nat) + ":"@ + digits(xe as nat),
    }
}

/// The lines of an excerpt as they are shown: each line that is not blank,
/// without the white space at its end, behind its number and a bar. The
/// first line of the excerpt has the number `first`; blank lines are left
/// out but still counted.
pub open spec fn numbered_lines(lines: Seq<Seq<char>>, first: nat) -> Seq<Seq<char>>
    decreases lines.len(),
{
    if lines.len() == 0 {
        Seq::<Seq<char>>::empty()
    } else {
        let before = numbered_lines(lines.drop_last(), first);
        if is_blank(lines.last()) {
            before
        } else {
            before.push(
                digits((first + lines.len() - 1) as nat) + "| "@ + trim_end(lines.last()),
            )
        }
    }
}

/// The excerpt as it is shown under a frame's header.
pub open spec fn gutter(excerpt: Seq<char>, first: nat) -> Seq<char> {
    joined(numbered_lines(split_lines(excerpt), first), "\n"@)
}

/// One frame as text: a header with the stage and the coordinates, the
/// numbered excerpt between two empty gutter lines, and the message. The
/// gutter is as wide as the number of the first line.
pub open spec fn frame_text(stage: Stage, detail: Detail) -> Seq<char> {
    let first = detail.location.spec_first_line() as nat;
    let width = digits(first).len();
    repeated('-', width) + "> "@ + stage_name(stage) + " | "@ + coordinates(detail.location)
        + "\n"@ + repeated(' ', width) + "|\n"@ + gutter(detail.excerpt, first) + "\n"@
        + repeated(' ', width) + "|\n"@ + repeated(' ', width) + "= "@ + detail.message + "\n"@
}

/// The frames as text, in the order in which they were recorded.
pub open spec fn frames_text(frames: Seq<(Stage, Detail)>) -> Seq<char>
    decreases frames.len(),
{
    if frames.len() == 0 {
        Seq::<char>::empty()
    } else {
        frames_text(frames.drop_last()) + frame_text(frames.last().0, frames.last().1)
    }
}

/// A whole trace as text: a heading, then every frame from the cause outwards.
pub open spec fn rendered(frames: Seq<(Stage, Detail)>) -> Seq<char> {
    "Deepest error first\n"@ + frames_text(frames)
}

fn stage_label(stage: Stage) -> (r: &'static str)
    ensures
        r@ == stage_name(stage),
{
    match stage {
        Stage::Unknown => "Unknown",
        Stage::Parsing => "Parsing",
        Stage::AstBuilding => "AstBuilding",
        Stage::Binding => "Binding",
        Stage::Typing => "Typing",
        Stage::Compiling => "Compiling",
    }
}

fn push_number(out: &mut String, n: usize)
    ensures
        final(out)@ == old(out)@ + digits(n as nat),
{
    let d = decimal(n as u128);
    assert(d@.subrange(0, d@.len() as int) =~= d@);
    push_chars(out, &d, 0, d.len());
}

fn coordinates_text(location: Location) -> (r: String)
    ensures
        r@ == coordinates(location),
{
    let mut out = String::new();
    match location {
        Location::Pos((y, x)) => {
            push_number(&mut out, y);
            assert(out@ =~= digits(y as nat));
            out.append(":");
            push_number(&mut out, x);
        },
        Location::Span((ys, xs), (ye, xe)) => {
            push_number(&mut out, ys);
            assert(out@ =~= digits(ys as nat));
            out.append(":");
            push_number(&mut out, xs);
            out.append(" -> ");
            push_number(&mut out, ye);
            out.append(":");
            push_number(&mut out, xe);
        },
    }
    out
}

fn gutter_text(excerpt: &str, first: usize) -> (r: String)
    ensures
        r@ == gutter(excerpt@, first as nat),
{
    let text = chars_of(excerpt);
    let lines = lines_of(&text);
    let mut out = String::new();
    let mut any = false;
    let mut k: usize = 0;
    let ghost all = lines_view(lines@);
    assert(all.take(0) =~= Seq::<Seq<char>>::empty());
    while k < lines.len()
        invariant
            k <= lines.len(),
            all == lines_view(lines@),
            any == (numbered_lines(all.take(k as int), first as nat).len() > 0),
            out@ == joined(numbered_lines(all.take(k as int), first as nat), "\n"@),
        decreases lines.len() - k,
    {
        let ghost before = numbered_lines(all.take(k as int), first as nat);
        proof {
            assert(all.take(k + 1).drop_last() =~= all.take(k as int));
            assert(all.take(k + 1).last() == lines@[k as int]@);
        }
        if !blank(&lines[k]) {
            let mut item = String::new();
            let number = decimal(first as u128 + k as u128);
            let end = trim_end_len(&lines[k]);
            assert(number@.subrange(0, number@.len() as int) =~= number@);
            push_chars(&mut item, &number, 0, number.len());
            assert(item@ =~= digits((first + k) as nat));
            item.append("| ");
            push_chars(&mut item, &lines[k], 0, end);
            assert(lines@[k as int]@.subrange(0, end as int) =~= lines@[k as int]@.take(
                end as int,
            ));
            if any {
                out.append("\n");
                out.append(item.as_str());
                assert(before.push(item@).drop_last() =~= before);
            } else {
                out = item;
            }
            any = true;
        }
        k += 1;
    }
    assert(all.take(k as int) =~= all);
    out
}

fn frame_string(stage: Stage, err: &Error) -> (r: String)
    ensures
        r@ == frame_text(stage, err.detail()),
{
    let first: usize = err.line_col().first_line();
    let number = decimal(first as u128);
    let width: usize = number.len();
    let coords = coordinates_text(err.line_col());
    let lines = gutter_text(err.line(), first);
    let mut out = String::new();
    push_repeated(&mut out, '-', width);
    assert(out@ =~= repeated('-', width as nat));
    out.append("> ");
    out.append(stage_label(stage));
    out.append(" | ");
    out.append(coords.as_str());
    out.append("\n");
    push_repeated(&mut out, ' ', width);
    out.append("|\n");
    out.append(lines.as_str());
    out.append("\n");
    push_repeated(&mut out, ' ', width);
    out.append("|\n");
    push_repeated(&mut out, ' ', width);
    out.append("= ");
    out.append(err.message());
    out.append("\n");
    out
}

impl Trace {
    /// The trace of a failure found at `stage`: a single frame, the cause.
    pub fn new<T: TraceError>(stage: Stage, err: T) -> (r: Self)
        ensures
            r@ == trace_new(stage, err.detail()),
    {
        let mut stack: Vec<(Stage, Error)> = Vec::new();
        stack.push((stage, Error::new(err.line_col(), err.line(), err.message())));
        let r = Trace { stack };
        assert(r@ =~= trace_new(stage, err.detail()));
        r
    }

    /// Adds a frame behind those already recorded: context from further out.
    pub fn push<T: TraceError>(&mut self, stage: Stage, err: T)
        ensures
            final(self)@ == trace_push(old(self)@, stage, err.detail()),
    {
        self.stack.push((stage, Error::new(err.line_col(), err.line(), err.message())));
        assert(self@ =~= trace_push(old(self)@, stage, err.detail()));
    }

    /// The trace as text, cause first.
    pub fn to_string(&self) -> (r: String)
        ensures
            r@ == rendered(self@),
    {
        let mut frames = String::new();
        let mut i: usize = 0;
        assert(self@.take(0) =~= Seq::<(Stage, Detail)>::empty());
        while i < self.stack.len()
            invariant
                i <= self.stack.len(),
                frames@ == frames_text(self@.take(i as int)),
            decreases self.stack.len() - i,
        {
            let frame = frame_string(self.stack[i].0, &self.stack[i].1);
            proof {
                assert(self@.take(i + 1).drop_last() =~= self@.take(i as int));
                assert(self@.take(i + 1).last() == self@[i as int]);
            }
            frames.append(frame.as_str());
            i += 1;
        }
        assert(self@.take(i as int) =~= self@);
        let mut out = String::new();
        out.append("Deepest error first\n");
        assert(out@ =~= "Deepest error first\n"@);
        out.append(frames.as_str());
        out
    }
}

impl Default for Trace {
    /// A trace without frames.
    fn default() -> (r: Self)
        ensures
            r@ == Seq::<(Stage, Detail)>::empty(),
    {
        let r = Trace { stack: Vec::new() };
        assert(r@ =~= Seq::<(Stage, Detail)>::empty());
        r
    }
}

impl<T: TraceError> From<(Stage, T)> for Trace {
    /// The trace of a failure found at the given stage: one frame.
    fn from(pair: (Stage, T)) -> (r: Self)
        ensures
            r@ == trace_new(pair.0, pair.1.detail()),
    {
        Trace::new(pair.0, pair.1)
    }
}

impl<T: TraceError> vstd::std_specs::convert::FromSpecImpl<(Stage, T)> for Trace {
    open spec fn obeys_from_spec() -> bool {
        false
    }

    open spec fn from_spec(pair: (Stage, T)) -> Self {
        arbitrary()
    }
}

impl<T: TraceError> From<T> for Trace {
    /// The trace of a failure found at no known stage: one frame.
    fn from(err: T) -> (r: Self)
        ensures
            r@ == trace_new(Stage::Unknown, err.detail()),
    {
        Trace::new(Stage::Unknown, err)
    }
}

impl<T: TraceError> vstd::std_specs::convert::FromSpecImpl<T> for Trace {
    open spec fn obeys_from_spec() -> bool {
        false
    }

    open spec fn from_spec(err: T) -> Self {
        arbitrary()
    }
}

impl Trace {
    /// The trace of a failure found while parsing, with `message` about the
    /// text of `pair`: one frame.
    pub fn new_from_pair(pair: &Pair, message: String) -> (r: Self)
        ensures
            r@ == trace_new(
                Stage::Parsing,
                Detail {
                    location: pair@.span.location,
                    excerpt: pair@.span.line,
                    message: message@,
                },
            ),
    {
        let mut r = Trace::default();
        r.push_pest_error(Stage::Parsing, pair, message);
        assert(r@ =~= trace_new(
            Stage::Parsing,
            Detail { location: pair@.span.location, excerpt: pair@.span.line, message: message@ },
        ));
        r
    }

    /// Adds a frame with `message` about the text of `pair`.
    pub fn push_pest_error(&mut self, stage: Stage, pair: &Pair, message: String)
        ensures
            final(self)@ == trace_push(
                old(self)@,
                stage,
                Detail {
                    location: pair@.span.location,
                    excerpt: pair@.span.line,
                    message: message@,
                },
            ),
    {
        self.push(stage, Error::from_span(pair.span.clone(), message.as_str()));
    }

    /// How many frames the trace has.
    pub fn len(&self) -> (r: usize)
        ensures
            r == self@.len(),
    {
        self.stack.len()
    }

    /// The frame at place `i`, counted from the cause: its stage and what
    /// it says.
    pub fn frame(&self, i: usize) -> (r: (Stage, &Error))
        requires
            i < self@.len(),
        ensures
            r.0 == self@[i as int].0,
            r.1.detail() == self@[i as int].1,
    {
        (self.stack[i].0, &self.stack[i].1)
    }
}

/// Frames keep their order: a trace that was made from one frame and had two
/// more pushed has three, and the first is still the one it was made from.
pub proof fn lemma_cause_stays_first(
    stage: Stage,
    detail: Detail,
    second: (Stage, Detail),
    third: (Stage, Detail),
)
    ensures
        trace_push(trace_push(trace_new(stage, detail), second.0, second.1), third.0, third.1).len()
            == 3,
        trace_push(trace_push(trace_new(stage, detail), second.0, second.1), third.0, third.1)[0]
            == (stage, detail),
{
}

/// Pushing a frame adds it at the end and moves none of the others.
pub proof fn lemma_push_keeps_frames(trace: Seq<(Stage, Detail)>, stage: Stage, detail: Detail)
    ensures
        trace_push(trace, stage, detail).len() == trace.len() + 1,
        trace_push(trace, stage, detail).last() == (stage, detail),
        forall|i: int| 0 <= i < trace.len() ==> trace_push(trace, stage, detail)[i] == trace[i],
{
}

} // verus!
