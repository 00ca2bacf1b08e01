//! What the three trees share: nodes, types, and the words of the language
//! that stand for operators.

use vstd::prelude::*;
use vstd::string::StringExecFns;
use crate::error::span::{Span, SpanView};
use crate::text::same_str;

verus! {

/// Where a program comes from: a file, named by its path, or the text itself.
#[derive(Clone, Debug, PartialEq, Eq)]
pub enum SourceCode {
    File(String),
    Content(String),
}

/// Marks the types that can stand inside a node.
pub trait Node {

}

/// A piece of the tree together with the source text that it was read from.
#[derive(Debug, PartialEq, Eq)]
pub struct AyNode<Inner: Node> {
    pub span: Span,
    pub inner: Inner,
}

/// What a node holds, as plain values: the view of its span and the view of
/// what stands inside.
pub struct NodeView<V> {
    pub span: SpanView,
    pub inner: V,
}

/// The type of an expression.
#[derive(Debug, PartialEq, Eq)]
pub enum AyType {
    Bool,
    Number,
    String,
    Array(Box<AyType>),
    Function { args: Vec<AyType>, result: Box<AyType> },
}

/// A type as a plain value.
pub enum TypeView {
    Bool,
    Number,
    String,
    Array(Box<TypeView>),
    Function { args: Seq<TypeView>, result: Box<TypeView> },
}

/// The plain value of a type.
pub open spec fn type_view(t: AyType) -> TypeView
    decreases t,
{
    match t {
        AyType::Bool => TypeView::Bool,
        AyType::Number => TypeView::Number,
        AyType::String => TypeView::String,
        AyType::Array(item) => TypeView::Array(Box::new(type_view(*item))),
        AyType::Function { args, result } => TypeView::Function {
            args: Seq::new(
                args.len() as nat,
                |i: int|
                    if 0 <= i < args.len() {
                        type_view(args[i])
                    } else {
                        TypeView::Bool
                    },
            ),
            result: Box::new(type_view(*result)),
        },
    }
}

impl View for AyType {
    type V = TypeView;

    open spec fn view(&self) -> TypeView {
        type_view(*self)
    }
}

/// The plain values of a list of types.
pub open spec fn types_view(types: Seq<AyType>) -> Seq<TypeView> {
    Seq::new(types.len(), |i: int| types[i]@)
}

/// How a type is written in a message.
pub open spec fn type_label(t: TypeView) -> Seq<char>
    decreases t,
{
    match t {
        TypeView::Bool => "Bool"@,
        TypeView::Number => "Number"@,
        TypeView::String => "String"@,
        TypeView::Array(item) => "Array("@ + type_label(*item) + ")"@,
        TypeView::Function { args, result } => "Function { args: ["@ + type_labels(args)
            + "], result: "@ + type_label(*result) + " }"@,
    }
}

/// How a list of types is written in a message: the names, with a comma and
/// a space between each two.
pub open spec fn type_labels(types: Seq<TypeView>) -> Seq<char>
    decreases types,
{
    if types.len() == 0 {
        Seq::<char>::empty()
    } else if types.len() == 1 {
        type_label(types[0])
    } else {
        type_labels(types.drop_last()) + ", "@ + type_label(types.last())
    }
}

impl Default for AyType {
    fn default() -> (r: Self)
        ensures
            r@ == TypeView::Bool,
    {
        AyType::Bool
    }
}

impl Clone for AyType {
    fn clone(&self) -> (r: Self)
        ensures
            r@ == self@,
        decreases self,
    {
        match self {
            AyType::Bool => AyType::Bool,
            AyType::Number => AyType::Number,
            AyType::String => AyType::String,
            AyType::Array(item) => AyType::Array(Box::new((**item).clone())),
            AyType::Function { args, result } => {
                let mut copies: Vec<AyType> = Vec::new();
                let mut i: usize = 0;
                while i < args.len()
                    invariant
                        i <= args.len(),
                        copies.len() == i,
                        forall|j: int| 0 <= j < args.len() ==> decreases_to!(self => #[trigger] args[j]),
                        forall|j: int| 0 <= j < i ==> (#[trigger] copies[j])@ == args[j]@,
                    decreases args.len() - i,
                {
                    copies.push(args[i].clone());
                    i += 1;
                }
                let r = AyType::Function { args: copies, result: Box::new((**result).clone()) };
                assert(r@->Function_args =~= self@->Function_args);
                r
            },
        }
    }
}

impl AyType {
    /// Tells whether two types are the same.
    pub fn same(&self, other: &AyType) -> (r: bool)
        ensures
            r == (self@ == other@),
        decreases self,
    {
        match (self, other) {
            (AyType::Bool, AyType::Bool) => true,
            (AyType::Number, AyType::Number) => true,
            (AyType::String, AyType::String) => true,
            (AyType::Array(a), AyType::Array(b)) => (**a).same(&**b),
            (
                AyType::Function { args: a, result: x },
                AyType::Function { args: b, result: y },
            ) => {
                if a.len() != b.len() {
                    assert(self@->Function_args.len() != other@->Function_args.len());
                    return false;
                }
                let mut i: usize = 0;
                while i < a.len()
                    invariant
                        i <= a.len(),
                        a.len() == b.len(),
                        self@->Function_args.len() == a.len(),
                        other@->Function_args.len() == a.len(),
                        forall|j: int| 0 <= j < a.len() ==> decreases_to!(self => #[trigger] a[j]),
                        forall|j: int|
                            0 <= j < a.len() ==> (#[trigger] self@->Function_args[j]) == a[j]@,
                        forall|j: int|
                            0 <= j < a.len() ==> (#[trigger] other@->Function_args[j]) == b[j]@,
                        forall|j: int| 0 <= j < i ==> (#[trigger] a[j])@ == b[j]@,
                    decreases a.len() - i,
                {
                    if !a[i].same(&b[i]) {
                        assert(self@->Function_args[i as int] != other@->Function_args[i as int]);
                        return false;
                    }
                    i += 1;
                }
                assert(self@->Function_args =~= other@->Function_args);
                (**x).same(&**y)
            },
            _ => false,
        }
    }

    /// The type as it is written in a message.
    pub fn name(&self) -> (r: String)
        ensures
            r@ == type_label(self@),
        decreases self,
    {
        match self {
            AyType::Bool => "Bool".to_owned(),
            AyType::Number => "Number".to_owned(),
            AyType::String => "String".to_owned(),
            AyType::Array(item) => {
                let inner = (**item).name();
                let mut out = "Array(".to_owned();
                out.append(inner.as_str());
                out.append(")");
                out
            },
            AyType::Function { args, result } => {
                let mut list = String::new();
                let mut i: usize = 0;
                let ghost views = self@->Function_args;
                assert(views.take(0) =~= Seq::<TypeView>::empty());
                while i < args.len()
                    invariant
                        i <= args.len(),
                        views.len() == args.len(),
                        forall|j: int| 0 <= j < args.len() ==> decreases_to!(self => #[trigger] args[j]),
                        forall|j: int| 0 <= j < args.len() ==> (#[trigger] views[j]) == args[j]@,
                        list@ == type_labels(views.take(i as int)),
                    decreases args.len() - i,
                {
                    let item = args[i].name();
                    proof {
                        assert(views.take(i + 1).drop_last() =~= views.take(i as int));
                        assert(views.take(i + 1).last() == args[i as int]@);
                    }
                    if i > 0 {
                        list.append(", ");
                        list.append(item.as_str());
                    } else {
                        list = item;
                        assert(views.take(1)[0] == args[0]@);
                    }
                    i += 1;
                }
                assert(views.take(i as int) =~= views);
                let tail = (**result).name();
                let mut out = "Function { args: [".to_owned();
                out.append(list.as_str());
                out.append("], result: ");
                out.append(tail.as_str());
                out.append(" }");
                out
            },
        }
    }
}

/// A word that multiplies the number before it.
#[derive(Clone, Copy, Debug, PartialEq, Eq, Structural)]
pub enum Multiplier {
    Double,
    Triple,
}

/// The multiplier that a word names, if it names one.
pub open spec fn multiplier_of(word: Seq<char>) -> Option<Multiplier> {
    if word == "melo"@ {
        Some(Multiplier::Double)
    } else if word == "pxelo"@ {
        Some(Multiplier::Triple)
    } else {
        None
    }
}

impl Multiplier {
    /// The number by which the multiplier multiplies.
    pub open spec fn spec_factor(self) -> i64 {
        match self {
            Multiplier::Double => 2,
            Multiplier::Triple => 3,
        }
    }

    /// The number by which the multiplier multiplies.
    #[verifier::when_used_as_spec(spec_factor)]
    pub fn factor(self) -> (r: i64)
        ensures
            r == self.spec_factor(),
    {
        match self {
            Multiplier::Double => 2,
            Multiplier::Triple => 3,
        }
    }

    /// Reads a multiplier: `melo` doubles, `pxelo` triples, no other word
    /// is one.
    pub fn parse(word: &str) -> (r: Option<Self>)
        ensures
            r == multiplier_of(word@),
    {
        if same_str(word, "melo") {
            Some(Multiplier::Double)
        } else if same_str(word, "pxelo") {
            Some(Multiplier::Triple)
        } else {
            None
        }
    }
}

impl std::str::FromStr for Multiplier {
    type Err = ();

    /// Reads a multiplier, as `Multiplier::parse` does.
    fn from_str(word: &str) -> (r: Result<Self, ()>)
        ensures
            r == match multiplier_of(word@) {
                Some(multiplier) => Ok::<Multiplier, ()>(multiplier),
                None => Err(()),
            },
    {
        match Multiplier::parse(word) {
            Some(multiplier) => Ok(multiplier),
            None => Err(()),
        }
    }
}

/// A word that compares two values.
#[derive(Clone, Copy, Debug, PartialEq, Eq, Structural)]
pub enum ComparisonOperator {
    Equals,
}

/// The comparison that a word names, if it names one.
pub open spec fn comparison_of(word: Seq<char>) -> Option<ComparisonOperator> {
    if word == "teng"@ {
        Some(ComparisonOperator::Equals)
    } else {
        None
    }
}

impl ComparisonOperator {
    /// Reads a comparison: `teng` asks for equality, no other word is one.
    pub fn parse(word: &str) -> (r: Option<Self>)
        ensures
            r == comparison_of(word@),
    {
        if same_str(word, "teng") {
            Some(ComparisonOperator::Equals)
        } else {
            None
        }
    }
}

impl std::str::FromStr for ComparisonOperator {
    type Err = ();

    /// Reads a comparison, as `ComparisonOperator::parse` does.
    fn from_str(word: &str) -> (r: Result<Self, ()>)
        ensures
            r == match comparison_of(word@) {
                Some(operator) => Ok::<ComparisonOperator, ()>(operator),
                None => Err(()),
            },
    {
        match ComparisonOperator::parse(word) {
            Some(operator) => Ok(operator),
            None => Err(()),
        }
    }
}

/// The plain value of a list of names.
pub open spec fn names_view(names: Seq<String>) -> Seq<Seq<char>> {
    Seq::new(names.len(), |i: int| names[i]@)
}

/// A copy of a list of names.
pub fn copy_names(names: &Vec<String>) -> (r: Vec<String>)
    ensures
        names_view(r@) == names_view(names@),
{
    let mut out: Vec<String> = Vec::new();
    let mut i: usize = 0;
    while i < names.len()
        invariant
            i <= names.len(),
            out.len() == i,
            forall|j: int| 0 <= j < i ==> (#[trigger] out[j])@ == names[j]@,
        decreases names.len() - i,
    {
        out.push(names[i].clone());
        i += 1;
    }
    assert(names_view(out@) =~= names_view(names@));
    out
}

impl<Inner: Node + View> View for AyNode<Inner> {
    type V = NodeView<Inner::V>;

    open spec fn view(&self) -> NodeView<Inner::V> {
        NodeView { span: self.span@, inner: self.inner@ }
    }
}

} // verus!
