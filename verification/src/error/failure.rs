//! The failures that the analysis can find, and how each is worded.

use vstd::prelude::*;
use vstd::string::StringExecFns;
use super::span::{Span, SpanView};
use super::trace::{trace_new, Detail, Stage, Trace, TraceError};
use super::trace_error::Error;
use crate::ast::lib::{type_label, types_view, AyType, TypeView};
use crate::suggest::suggestion_text;
use crate::text::joined;

verus! {

/// What was being typed when the types did not fit.
#[derive(Debug, PartialEq, Eq)]
pub enum Operation {
    /// A negation; the types are that of its operand.
    Negation,
    /// A comparison; the types are those of its two sides.
    Comparison,
    /// A use of the variable of this name, whose declaration fixes no type.
    Reference(String),
    /// A call of the function of this name, whose declaration fixes no result.
    Call(String),
}

/// An operation as a plain value.
pub enum OperationView {
    Negation,
    Comparison,
    Reference(Seq<char>),
    Call(Seq<char>),
}

impl View for Operation {
    type V = OperationView;

    open spec fn view(&self) -> OperationView {
        match self {
            Operation::Negation => OperationView::Negation,
            Operation::Comparison => OperationView::Comparison,
            Operation::Reference(name) => OperationView::Reference(name@),
            Operation::Call(name) => OperationView::Call(name@),
        }
    }
}

/// A failure of the analysis.
#[derive(Debug, PartialEq, Eq)]
pub enum Failure {
    /// No variable of this name is visible; `suggestion` is a visible name
    /// close to it, if there is one.
    UndefinedVariable { name: String, suggestion: Option<String> },
    /// No visible function answers to this spelling; `suggestion` is a
    /// visible name close to it, if there is one.
    UndefinedFunction { name: String, suggestion: Option<String> },
    /// An array without items has no type.
    EmptyArrayLiteral,
    /// The types found do not fit the operation.
    TypeMismatch { context: Operation, types: Vec<AyType> },
}

/// A failure as a plain value.
pub enum FailureView {
    UndefinedVariable { name: Seq<char>, suggestion: Option<Seq<char>> },
    UndefinedFunction { name: Seq<char>, suggestion: Option<Seq<char>> },
    EmptyArrayLiteral,
    TypeMismatch { context: OperationView, types: Seq<TypeView> },
}

/// The plain value of a proposal.
pub open spec fn proposal_view(proposal: Option<String>) -> Option<Seq<char>> {
    match proposal {
        Some(text) => Some(text@),
        None => None,
    }
}

impl View for Failure {
    type V = FailureView;

    open spec fn view(&self) -> FailureView {
        match self {
            Failure::UndefinedVariable { name, suggestion } => FailureView::UndefinedVariable {
                name: name@,
                suggestion: proposal_view(*suggestion),
            },
            Failure::UndefinedFunction { name, suggestion } => FailureView::UndefinedFunction {
                name: name@,
                suggestion: proposal_view(*suggestion),
            },
            Failure::EmptyArrayLiteral => FailureView::EmptyArrayLiteral,
            Failure::TypeMismatch { context, types } => FailureView::TypeMismatch {
                context: context@,
                types: types_view(types@),
            },
        }
    }
}

/// The names of the types, in order.
pub open spec fn labels(types: Seq<TypeView>) -> Seq<Seq<char>> {
    Seq::new(types.len(), |i: int| type_label(types[i]))
}

/// What a failure says. A message about a name that was not found quotes
/// the name, and the proposal behind it where there is one.
pub open spec fn message(failure: FailureView) -> Seq<char> {
    match failure {
        FailureView::UndefinedVariable { name, suggestion } => "Undefined variable: '"@ + name
            + "'"@ + suggestion_text(suggestion),
        FailureView::UndefinedFunction { name, suggestion } => "Undefined function: '"@ + name
            + "'"@ + suggestion_text(suggestion),
        FailureView::EmptyArrayLiteral => "Cannot defined empty arrays"@,
        FailureView::TypeMismatch { context, types } => match context {
            OperationView::Negation => "Can only negate Number or Array, not "@ + joined(
                labels(types),
                ", "@,
            ),
            OperationView::Comparison => "Cannot compare "@ + joined(labels(types), " and "@),
            OperationView::Reference(name) => "Cannot infer the type of '"@ + name + "'"@,
            OperationView::Call(name) => "Cannot infer the result of '"@ + name + "'"@,
        },
    }
}

/// The trace of a failure found at `stage` in the text under `span`.
pub open spec fn raised(stage: Stage, span: SpanView, failure: FailureView) -> Seq<
    (Stage, Detail),
> {
    trace_new(
        stage,
        Detail { location: span.location, excerpt: span.line, message: message(failure) },
    )
}

fn listed(types: &Vec<AyType>, sep: &str) -> (r: String)
    ensures
        r@ == joined(labels(types_view(types@)), sep@),
{
    let ghost all = labels(types_view(types@));
    let mut out = String::new();
    let mut i: usize = 0;
    assert(all.take(0) =~= Seq::<Seq<char>>::empty());
    while i < types.len()
        invariant
            i <= types.len(),
            all == labels(types_view(types@)),
            out@ == joined(all.take(i as int), sep@),
        decreases types.len() - i,
    {
        let item = types[i].name();
        proof {
            assert(all.take(i + 1).drop_last() =~= all.take(i as int));
            assert(all.take(i + 1).last() == item@);
        }
        if i > 0 {
            out.append(sep);
            out.append(item.as_str());
        } else {
            out = item;
        }
        i += 1;
    }
    assert(all.take(i as int) =~= all);
    out
}

fn push_proposal(out: &mut String, proposal: &Option<String>)
    ensures
        final(out)@ == old(out)@ + suggestion_text(proposal_view(*proposal)),
{
    match proposal {
        Some(candidate) => {
            let mut text = ". Maybe you meant: '".to_owned();
            text.append(candidate.as_str());
            text.append("'?");
            out.append(text.as_str());
        },
        None => {
            assert(out@ =~= out@ + Seq::<char>::empty());
        },
    }
}

impl Failure {
    /// The failure in words.
    pub fn message(&self) -> (r: String)
        ensures
            r@ == message(self@),
    {
        match self {
            Failure::UndefinedVariable { name, suggestion } => {
                let mut out = "Undefined variable: '".to_owned();
                out.append(name.as_str());
                out.append("'");
                push_proposal(&mut out, suggestion);
                out
            },
            Failure::UndefinedFunction { name, suggestion } => {
                let mut out = "Undefined function: '".to_owned();
                out.append(name.as_str());
                out.append("'");
                push_proposal(&mut out, suggestion);
                out
            },
            Failure::EmptyArrayLiteral => "Cannot defined empty arrays".to_owned(),
            Failure::TypeMismatch { context, types } => match context {
                Operation::Negation => {
                    let list = listed(types, ", ");
                    let mut out = "Can only negate Number or Array, not ".to_owned();
                    out.append(list.as_str());
                    out
                },
                Operation::Comparison => {
                    let list = listed(types, " and ");
                    let mut out = "Cannot compare ".to_owned();
                    out.append(list.as_str());
                    out
                },
                Operation::Reference(name) => {
                    let mut out = "Cannot infer the type of '".to_owned();
                    out.append(name.as_str());
                    out.append("'");
                    out
                },
                Operation::Call(name) => {
                    let mut out = "Cannot infer the result of '".to_owned();
                    out.append(name.as_str());
                    out.append("'");
                    out
                },
            },
        }
    }

    /// The trace that reports this failure, found at `stage` in the text
    /// under `span`: one frame.
    pub fn raise(&self, stage: Stage, span: &Span) -> (r: Trace)
        ensures
            r@ == raised(stage, span@, self@),
    {
        let text = self.message();
        Trace::new(stage, Error::from_span(span.clone(), text.as_str()))
    }
}

} // verus!
