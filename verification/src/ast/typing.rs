//! The typed tree, and the typer that makes it: every expression of the
//! bound tree gets its type.

use vstd::prelude::*;
use std::rc::Rc;
use super::binding::{
    expr_node_view as bound_expr, exprs_view as bound_exprs, fundec_view as bound_fundec,
    statement_node_view as bound_statement, statements_view as bound_statements,
    vardec_view as bound_vardec, vardecs_view as bound_vardecs, Expr as BExpr,
    ExprView as BExprView, Frames, FunDec as BFunDec, FunDecView as BFunDecView,
    Statement as BStatement, StatementView as BStatementView, VarDec as BVarDec,
    VarDecView as BVarDecView,
};
pub use super::binding::Tense;
use super::lib::{
    copy_names, names_view, types_view, AyNode, AyType, ComparisonOperator, Node, NodeView,
    TypeView,
};
use crate::error::failure::{raised, Failure, FailureView, Operation, OperationView};
use crate::error::span::SpanView;
use crate::error::trace::{Stage, Trace};
use crate::scope::share;
use crate::text::same_str;

verus! {

/// The declaration of a function, typed. Its parameters are the
/// declarations that the binder made.
#[derive(Debug, PartialEq, Eq)]
pub struct FunDec {
    pub name: String,
    pub args: Vec<Rc<BVarDec>>,
    pub body: Vec<AyNode<Statement>>,
}

/// The declaration of one or more variables, typed.
#[derive(Debug, PartialEq, Eq)]
pub struct VarDec {
    pub names: Vec<String>,
    pub values: Vec<TypedExpr>,
}

/// An expression with its type.
#[derive(Debug, PartialEq, Eq)]
pub struct TypedExpr {
    pub expr_type: AyType,
    pub inner: Expr,
}

impl Node for TypedExpr {

}

/// Something that is done: a statement yields no value.
#[derive(Debug, PartialEq, Eq)]
#[allow(inconsistent_fields)]
pub enum Statement {
    FunDec(Rc<FunDec>),
    VarDec(Rc<VarDec>),
    Expr(TypedExpr),
    If { cond: TypedExpr, then: Vec<AyNode<Statement>>, otherwise: Vec<AyNode<Statement>> },
    Loop { cond: Option<TypedExpr>, body: Vec<AyNode<Statement>> },
}

impl Node for Statement {

}

/// Something that is or yields a value. A call and a variable hold the
/// declaration that the binder gave them.
#[derive(Debug, PartialEq, Eq)]
#[allow(inconsistent_fields)]
pub enum Expr {
    FunCall { tense: Tense, dec: Rc<BFunDec>, name: String, args: Vec<TypedExpr> },
    Array { items: Vec<TypedExpr> },
    Comparison { left: Box<TypedExpr>, right: Box<TypedExpr>, operator: ComparisonOperator },
    Number(i64),
    String(String),
    Var { dec: Rc<BVarDec>, name: String },
    Negated(Box<TypedExpr>),
}

impl Node for Expr {

}

/// A typed declaration of a function as a plain value.
pub struct FunDecView {
    pub name: Seq<char>,
    pub args: Seq<BVarDecView>,
    pub body: Seq<NodeView<StatementView>>,
}

/// A typed declaration of variables as a plain value.
pub struct VarDecView {
    pub names: Seq<Seq<char>>,
    pub values: Seq<TypedExprView>,
}

/// A typed expression as a plain value.
pub struct TypedExprView {
    pub expr_type: TypeView,
    pub inner: ExprView,
}

/// A typed statement as a plain value.
#[allow(inconsistent_fields)]
pub enum StatementView {
    FunDec(FunDecView),
    VarDec(VarDecView),
    Expr(TypedExprView),
    If {
        cond: TypedExprView,
        then: Seq<NodeView<StatementView>>,
        otherwise: Seq<NodeView<StatementView>>,
    },
    Loop { cond: Option<TypedExprView>, body: Seq<NodeView<StatementView>> },
}

/// What a typed expression is, as a plain value.
#[allow(inconsistent_fields)]
pub enum ExprView {
    FunCall { tense: Tense, dec: BFunDecView, name: Seq<char>, args: Seq<TypedExprView> },
    Array { items: Seq<TypedExprView> },
    Comparison { left: Box<TypedExprView>, right: Box<TypedExprView>, operator: ComparisonOperator },
    Number(i64),
    String(Seq<char>),
    Var { dec: BVarDecView, name: Seq<char> },
    Negated(Box<TypedExprView>),
}

/// The plain value of what a typed expression is.
pub open spec fn expr_view(e: Expr) -> ExprView
    decreases e,
{
    match e {
        Expr::FunCall { tense, dec, name, args } => ExprView::FunCall {
            tense,
            dec: bound_fundec(*dec),
            name: name@,
            args: typed_exprs_view(args@),
        },
        Expr::Array { items } => ExprView::Array { items: typed_exprs_view(items@) },
        Expr::Comparison { left, right, operator } => ExprView::Comparison {
            left: Box::new(typed_expr_view(*left)),
            right: Box::new(typed_expr_view(*right)),
            operator,
        },
        Expr::Number(n) => ExprView::Number(n),
        Expr::String(s) => ExprView::String(s@),
        Expr::Var { dec, name } => ExprView::Var { dec: bound_vardec(*dec), name: name@ },
        Expr::Negated(inner) => ExprView::Negated(Box::new(typed_expr_view(*inner))),
    }
}

/// The plain value of a typed expression.
pub open spec fn typed_expr_view(e: TypedExpr) -> TypedExprView
    decreases e,
{
    TypedExprView { expr_type: e.expr_type@, inner: expr_view(e.inner) }
}

/// The plain values of a list of typed expressions.
pub open spec fn typed_exprs_view(nodes: Seq<TypedExpr>) -> Seq<TypedExprView>
    decreases nodes,
{
    Seq::new(
        nodes.len(),
        |i: int|
            if 0 <= i < nodes.len() {
                typed_expr_view(nodes[i])
            } else {
                arbitrary()
            },
    )
}

/// The plain value of a typed statement.
pub open spec fn statement_view(s: Statement) -> StatementView
    decreases s,
{
    match s {
        Statement::FunDec(dec) => StatementView::FunDec(
            FunDecView {
                name: dec.name@,
                args: bound_vardecs(dec.args@),
                body: statements_view(dec.body@),
            },
        ),
        Statement::VarDec(dec) => StatementView::VarDec(
            VarDecView { names: names_view(dec.names@), values: typed_exprs_view(dec.values@) },
        ),
        Statement::Expr(e) => StatementView::Expr(typed_expr_view(e)),
        Statement::If { cond, then, otherwise } => StatementView::If {
            cond: typed_expr_view(cond),
            then: statements_view(then@),
            otherwise: statements_view(otherwise@),
        },
        Statement::Loop { cond, body } => StatementView::Loop {
            cond: match cond {
                Some(c) => Some(typed_expr_view(c)),
                None => None,
            },
            body: statements_view(body@),
        },
    }
}

/// The plain value of a typed statement with its span.
pub open spec fn statement_node_view(node: AyNode<Statement>) -> NodeView<StatementView>
    decreases node,
{
    NodeView { span: node.span@, inner: statement_view(node.inner) }
}

/// The plain values of a list of typed statements.
pub open spec fn statements_view(nodes: Seq<AyNode<Statement>>) -> Seq<NodeView<StatementView>>
    decreases nodes,
{
    Seq::new(
        nodes.len(),
        |i: int|
            if 0 <= i < nodes.len() {
                statement_node_view(nodes[i])
            } else {
                arbitrary()
            },
    )
}

impl View for TypedExpr {
    type V = TypedExprView;

    open spec fn view(&self) -> TypedExprView {
        typed_expr_view(*self)
    }
}

impl View for Expr {
    type V = ExprView;

    open spec fn view(&self) -> ExprView {
        expr_view(*self)
    }
}

impl View for Statement {
    type V = StatementView;

    open spec fn view(&self) -> StatementView {
        statement_view(*self)
    }
}

/// Where `name` stands among `names`: the first place, if it stands there.
pub open spec fn name_index(names: Seq<Seq<char>>, name: Seq<char>) -> Option<int>
    decreases names.len(),
{
    if names.len() == 0 {
        None
    } else {
        match name_index(names.drop_last(), name) {
            Some(i) => Some(i),
            None => if names.last() == name {
                Some(names.len() - 1)
            } else {
                None
            },
        }
    }
}

/// The failure to report when the types `types` do not fit `context`.
pub open spec fn mismatch(context: OperationView, types: Seq<TypeView>) -> FailureView {
    FailureView::TypeMismatch { context, types }
}

/// An expression with its type.
///
/// A number is a `Number`, a string a `String`. An array has the type of
/// its first item, so it needs one. The negation of a `Number` is a
/// `Number`, that of an array a `Bool`, and nothing else is negated. A
/// comparison is a `Bool` and wants both sides of one type. A variable has
/// the type of the value that its declaration gives it; a parameter, whose
/// declaration gives none, has no type. A call has no type, since no
/// declaration says what a function yields. The first failure, from left to
/// right, is the result; the items of an array are typed before the array
/// is found empty or not.
pub open spec fn type_expr(node: NodeView<BExprView>) -> Result<TypedExprView, Frames>
    decreases node,
{
    match node.inner {
        BExprView::Number(n) => Ok(
            TypedExprView { expr_type: TypeView::Number, inner: ExprView::Number(n) },
        ),
        BExprView::String(s) => Ok(
            TypedExprView { expr_type: TypeView::String, inner: ExprView::String(s) },
        ),
        BExprView::Array { items } => match type_exprs(items) {
            Ok(typed) => if typed.len() == 0 {
                Err(raised(Stage::Typing, node.span, FailureView::EmptyArrayLiteral))
            } else {
                Ok(
                    TypedExprView {
                        expr_type: TypeView::Array(Box::new(typed[0].expr_type)),
                        inner: ExprView::Array { items: typed },
                    },
                )
            },
            Err(trace) => Err(trace),
        },
        BExprView::Negated(inner) => match type_expr(*inner) {
            Ok(typed) => match typed.expr_type {
                TypeView::Number => Ok(
                    TypedExprView {
                        expr_type: TypeView::Number,
                        inner: ExprView::Negated(Box::new(typed)),
                    },
                ),
                TypeView::Array(_) => Ok(
                    TypedExprView {
                        expr_type: TypeView::Bool,
                        inner: ExprView::Negated(Box::new(typed)),
                    },
                ),
                other => Err(
                    raised(
                        Stage::Typing,
                        node.span,
                        mismatch(OperationView::Negation, seq![other]),
                    ),
                ),
            },
            Err(trace) => Err(trace),
        },
        BExprView::Comparison { left, right, operator } => match type_expr(*left) {
            Ok(l) => match type_expr(*right) {
                Ok(r) => if l.expr_type == r.expr_type {
                    Ok(
                        TypedExprView {
                            expr_type: TypeView::Bool,
                            inner: ExprView::Comparison {
                                left: Box::new(l),
                                right: Box::new(r),
                                operator,
                            },
                        },
                    )
                } else {
                    Err(
                        raised(
                            Stage::Typing,
                            node.span,
                            mismatch(OperationView::Comparison, seq![l.expr_type, r.expr_type]),
                        ),
                    )
                },
                Err(trace) => Err(trace),
            },
            Err(trace) => Err(trace),
        },
        BExprView::Var { dec, name } => match name_index(dec.names, name) {
            Some(i) => if 0 <= i < dec.values.len() {
                match type_expr(dec.values[i]) {
                    Ok(typed) => Ok(
                        TypedExprView {
                            expr_type: typed.expr_type,
                            inner: ExprView::Var { dec, name },
                        },
                    ),
                    Err(trace) => Err(trace),
                }
            } else {
                Err(
                    raised(
                        Stage::Typing,
                        node.span,
                        mismatch(OperationView::Reference(name), Seq::<TypeView>::empty()),
                    ),
                )
            },
            None => Err(
                raised(
                    Stage::Typing,
                    node.span,
                    mismatch(OperationView::Reference(name), Seq::<TypeView>::empty()),
                ),
            ),
        },
        BExprView::FunCall { tense, dec, name, args } => Err(
            raised(
                Stage::Typing,
                node.span,
                mismatch(OperationView::Call(name), Seq::<TypeView>::empty()),
            ),
        ),
    }
}

/// A list of expressions, typed in order; the first failure ends it.
pub open spec fn type_exprs(nodes: Seq<NodeView<BExprView>>) -> Result<Seq<TypedExprView>, Frames>
    decreases nodes,
{
    if nodes.len() == 0 {
        Ok(Seq::<TypedExprView>::empty())
    } else {
        match type_exprs(nodes.drop_last()) {
            Ok(before) => match type_expr(nodes.last()) {
                Ok(typed) => Ok(before.push(typed)),
                Err(trace) => Err(trace),
            },
            Err(trace) => Err(trace),
        }
    }
}

/// A statement with the types of its expressions. A declaration keeps its
/// names and parameters; a condition comes before the block that it guards,
/// the first branch of a conditional before the second.
pub open spec fn type_statement(node: NodeView<BStatementView>) -> Result<
    NodeView<StatementView>,
    Frames,
>
    decreases node,
{
    match node.inner {
        BStatementView::Expr(e) => match type_expr(e) {
            Ok(typed) => Ok(NodeView { span: node.span, inner: StatementView::Expr(typed) }),
            Err(trace) => Err(trace),
        },
        BStatementView::VarDec(dec) => match type_exprs(dec.values) {
            Ok(typed) => Ok(
                NodeView {
                    span: node.span,
                    inner: StatementView::VarDec(VarDecView { names: dec.names, values: typed }),
                },
            ),
            Err(trace) => Err(trace),
        },
        BStatementView::FunDec(dec) => match type_statements(dec.body) {
            Ok(typed) => Ok(
                NodeView {
                    span: node.span,
                    inner: StatementView::FunDec(
                        FunDecView { name: dec.name, args: dec.args, body: typed },
                    ),
                },
            ),
            Err(trace) => Err(trace),
        },
        BStatementView::If { cond, then, otherwise } => match type_expr(cond) {
            Ok(c) => match type_statements(then) {
                Ok(t) => match type_statements(otherwise) {
                    Ok(o) => Ok(
                        NodeView {
                            span: node.span,
                            inner: StatementView::If { cond: c, then: t, otherwise: o },
                        },
                    ),
                    Err(trace) => Err(trace),
                },
                Err(trace) => Err(trace),
            },
            Err(trace) => Err(trace),
        },
        BStatementView::Loop { cond, body } => match cond {
            Some(c) => match type_expr(c) {
                Ok(typed) => match type_statements(body) {
                    Ok(b) => Ok(
                        NodeView {
                            span: node.span,
                            inner: StatementView::Loop { cond: Some(typed), body: b },
                        },
                    ),
                    Err(trace) => Err(trace),
                },
                Err(trace) => Err(trace),
            },
            None => match type_statements(body) {
                Ok(b) => Ok(
                    NodeView {
                        span: node.span,
                        inner: StatementView::Loop { cond: None, body: b },
                    },
                ),
                Err(trace) => Err(trace),
            },
        },
    }
}

/// A list of statements, typed in order; the first failure ends it.
pub open spec fn type_statements(nodes: Seq<NodeView<BStatementView>>) -> Result<
    Seq<NodeView<StatementView>>,
    Frames,
>
    decreases nodes,
{
    if nodes.len() == 0 {
        Ok(Seq::<NodeView<StatementView>>::empty())
    } else {
        match type_statements(nodes.drop_last()) {
            Ok(before) => match type_statement(nodes.last()) {
                Ok(typed) => Ok(before.push(typed)),
                Err(trace) => Err(trace),
            },
            Err(trace) => Err(trace),
        }
    }
}

/// A failure among the first expressions of a list is the failure of the list.
pub proof fn lemma_type_exprs_prefix(nodes: Seq<NodeView<BExprView>>, len: int)
    requires
        0 <= len <= nodes.len(),
        type_exprs(nodes.take(len)) is Err,
    ensures
        type_exprs(nodes) == type_exprs(nodes.take(len)),
    decreases nodes.len() - len,
{
    if len < nodes.len() {
        assert(nodes.take(len + 1).drop_last() =~= nodes.take(len));
        lemma_type_exprs_prefix(nodes, len + 1);
    } else {
        assert(nodes.take(len) =~= nodes);
    }
}

/// A failure among the first statements of a list is the failure of the list.
pub proof fn lemma_type_statements_prefix(nodes: Seq<NodeView<BStatementView>>, len: int)
    requires
        0 <= len <= nodes.len(),
        type_statements(nodes.take(len)) is Err,
    ensures
        type_statements(nodes) == type_statements(nodes.take(len)),
    decreases nodes.len() - len,
{
    if len < nodes.len() {
        assert(nodes.take(len + 1).drop_last() =~= nodes.take(len));
        lemma_type_statements_prefix(nodes, len + 1);
    } else {
        assert(nodes.take(len) =~= nodes);
    }
}

/// A name found among the first of the names is found there among all.
pub proof fn lemma_name_index_prefix(names: Seq<Seq<char>>, len: int, name: Seq<char>)
    requires
        0 <= len <= names.len(),
        name_index(names.take(len), name) is Some,
    ensures
        name_index(names, name) == name_index(names.take(len), name),
    decreases names.len() - len,
{
    if len < names.len() {
        assert(names.take(len + 1).drop_last() =~= names.take(len));
        lemma_name_index_prefix(names, len + 1, name);
    } else {
        assert(names.take(len) =~= names);
    }
}

fn find_name(names: &Vec<String>, name: &str) -> (r: Option<usize>)
    ensures
        match r {
            Some(i) => name_index(names_view(names@), name@) == Some(i as int) && i < names.len(),
            None => name_index(names_view(names@), name@) is None,
        },
{
    let ghost all = names_view(names@);
    let mut i: usize = 0;
    assert(all.take(0) =~= Seq::<Seq<char>>::empty());
    while i < names.len()
        invariant
            i <= names.len(),
            all == names_view(names@),
            name_index(all.take(i as int), name@) is None,
        decreases names.len() - i,
    {
        proof {
            assert(all.take(i + 1).drop_last() =~= all.take(i as int));
            assert(all.take(i + 1).last() == names[i as int]@);
        }
        if same_str(names[i].as_str(), name) {
            proof {
                lemma_name_index_prefix(all, i + 1, name@);
            }
            return Some(i);
        }
        i += 1;
    }
    assert(all.take(i as int) =~= all);
    None
}

fn untyped(context: Operation, node: &AyNode<BExpr>) -> (r: Trace)
    ensures
        r@ == raised(Stage::Typing, node.span@, mismatch(context@, Seq::<TypeView>::empty())),
{
    let failure = Failure::TypeMismatch { context, types: Vec::new() };
    assert(types_view(failure->TypeMismatch_types@) =~= Seq::<TypeView>::empty());
    failure.raise(Stage::Typing, &node.span)
}

fn convert_expr(node: &AyNode<BExpr>) -> (r: Result<TypedExpr, Trace>)
    ensures
        match r {
            Ok(out) => type_expr(bound_expr(*node)) matches Ok(v) && v == typed_expr_view(out),
            Err(trace) => type_expr(bound_expr(*node)) matches Err(e) && e == trace@,
        },
    decreases node,
{
    match &node.inner {
        BExpr::Number(n) => Ok(TypedExpr { expr_type: AyType::Number, inner: Expr::Number(*n) }),
        BExpr::String(s) => Ok(
            TypedExpr { expr_type: AyType::String, inner: Expr::String(s.clone()) },
        ),
        BExpr::Array { items } => match convert_exprs(items) {
            Ok(typed) => if typed.len() == 0 {
                Err(Failure::EmptyArrayLiteral.raise(Stage::Typing, &node.span))
            } else {
                let first = typed[0].expr_type.clone();
                Ok(
                    TypedExpr {
                        expr_type: AyType::Array(Box::new(first)),
                        inner: Expr::Array { items: typed },
                    },
                )
            },
            Err(trace) => Err(trace),
        },
        BExpr::Negated(inner) => match convert_expr(&**inner) {
            Ok(typed) => match &typed.expr_type {
                AyType::Number => Ok(
                    TypedExpr { expr_type: AyType::Number, inner: Expr::Negated(Box::new(typed)) },
                ),
                AyType::Array(_) => Ok(
                    TypedExpr { expr_type: AyType::Bool, inner: Expr::Negated(Box::new(typed)) },
                ),
                other => {
                    let mut types: Vec<AyType> = Vec::new();
                    types.push(other.clone());
                    let failure = Failure::TypeMismatch { context: Operation::Negation, types };
                    assert(types_view(failure->TypeMismatch_types@) =~= seq![other@]);
                    Err(failure.raise(Stage::Typing, &node.span))
                },
            },
            Err(trace) => Err(trace),
        },
        BExpr::Comparison { left, right, operator } => match convert_expr(&**left) {
            Ok(l) => match convert_expr(&**right) {
                Ok(r) => if l.expr_type.same(&r.expr_type) {
                    Ok(
                        TypedExpr {
                            expr_type: AyType::Bool,
                            inner: Expr::Comparison {
                                left: Box::new(l),
                                right: Box::new(r),
                                operator: *operator,
                            },
                        },
                    )
                } else {
                    let mut types: Vec<AyType> = Vec::new();
                    types.push(l.expr_type.clone());
                    types.push(r.expr_type.clone());
                    let failure = Failure::TypeMismatch { context: Operation::Comparison, types };
                    assert(types_view(failure->TypeMismatch_types@) =~= seq![
                        l.expr_type@,
                        r.expr_type@,
                    ]);
                    Err(failure.raise(Stage::Typing, &node.span))
                },
                Err(trace) => Err(trace),
            },
            Err(trace) => Err(trace),
        },
        BExpr::Var { dec, name } => {
            let found = match find_name(&dec.names, name.as_str()) {
                Some(i) => if i < dec.values.len() {
                    Some(i)
                } else {
                    None
                },
                None => None,
            };
            proof {
                let view = dec@;
                assert(bound_expr(*node).inner == (BExprView::Var { dec: view, name: name@ }));
                assert(view.values.len() == dec.values.len());
                if found is Some {
                    let i = found.unwrap() as int;
                    assert(view.values[i] == bound_expr(dec.values[i]));
                }
            }
            match found {
                Some(i) => match convert_expr(&dec.values[i]) {
                    Ok(typed) => Ok(
                        TypedExpr {
                            expr_type: typed.expr_type,
                            inner: Expr::Var { dec: share(dec), name: name.clone() },
                        },
                    ),
                    Err(trace) => Err(trace),
                },
                None => Err(untyped(Operation::Reference(name.clone()), node)),
            }
        },
        BExpr::FunCall { tense, dec, name, args } => Err(
            untyped(Operation::Call(name.clone()), node),
        ),
    }
}

fn convert_exprs(nodes: &Vec<AyNode<BExpr>>) -> (r: Result<Vec<TypedExpr>, Trace>)
    ensures
        match r {
            Ok(out) => type_exprs(bound_exprs(nodes@)) matches Ok(v) && v == typed_exprs_view(
                out@,
            ),
            Err(trace) => type_exprs(bound_exprs(nodes@)) matches Err(e) && e == trace@,
        },
    decreases nodes,
{
    let ghost all = bound_exprs(nodes@);
    let mut out: Vec<TypedExpr> = Vec::new();
    let mut i: usize = 0;
    assert(all.take(0) =~= Seq::<NodeView<BExprView>>::empty());
    assert(typed_exprs_view(out@) =~= Seq::<TypedExprView>::empty());
    while i < nodes.len()
        invariant
            i <= nodes.len(),
            all == bound_exprs(nodes@),
            type_exprs(all.take(i as int)) matches Ok(v) && v == typed_exprs_view(out@),
        decreases nodes.len() - i,
    {
        proof {
            assert(all.take(i + 1).drop_last() =~= all.take(i as int));
            assert(all.take(i + 1).last() == bound_expr(nodes[i as int]));
        }
        match convert_expr(&nodes[i]) {
            Ok(typed) => {
                let ghost before = typed_exprs_view(out@);
                out.push(typed);
                assert(typed_exprs_view(out@) =~= before.push(typed_expr_view(typed)));
            },
            Err(trace) => {
                proof {
                    lemma_type_exprs_prefix(all, i + 1);
                }
                return Err(trace);
            },
        }
        i += 1;
    }
    assert(all.take(i as int) =~= all);
    Ok(out)
}

fn share_all(handles: &Vec<Rc<BVarDec>>) -> (r: Vec<Rc<BVarDec>>)
    ensures
        bound_vardecs(r@) == bound_vardecs(handles@),
{
    let mut out: Vec<Rc<BVarDec>> = Vec::new();
    let mut i: usize = 0;
    while i < handles.len()
        invariant
            i <= handles.len(),
            out.len() == i,
            forall|j: int| 0 <= j < i ==> *(#[trigger] out[j]) == *handles[j],
        decreases handles.len() - i,
    {
        out.push(share(&handles[i]));
        i += 1;
    }
    assert(bound_vardecs(out@) =~= bound_vardecs(handles@));
    out
}

fn convert_statement(node: &AyNode<BStatement>) -> (r: Result<AyNode<Statement>, Trace>)
    ensures
        match r {
            Ok(out) => type_statement(bound_statement(*node)) matches Ok(v) && v
                == statement_node_view(out),
            Err(trace) => type_statement(bound_statement(*node)) matches Err(e) && e == trace@,
        },
    decreases node,
{
    match &node.inner {
        BStatement::Expr(e) => match convert_expr(e) {
            Ok(typed) => Ok(AyNode { span: node.span.clone(), inner: Statement::Expr(typed) }),
            Err(trace) => Err(trace),
        },
        BStatement::VarDec(dec) => match convert_exprs(&dec.values) {
            Ok(typed) => Ok(
                AyNode {
                    span: node.span.clone(),
                    inner: Statement::VarDec(
                        Rc::new(VarDec { names: copy_names(&dec.names), values: typed }),
                    ),
                },
            ),
            Err(trace) => Err(trace),
        },
        BStatement::FunDec(dec) => match convert_statements(&dec.body) {
            Ok(typed) => Ok(
                AyNode {
                    span: node.span.clone(),
                    inner: Statement::FunDec(
                        Rc::new(
                            FunDec {
                                name: dec.name.clone(),
                                args: share_all(&dec.args),
                                body: typed,
                            },
                        ),
                    ),
                },
            ),
            Err(trace) => Err(trace),
        },
        BStatement::If { cond, then, otherwise } => match convert_expr(cond) {
            Ok(c) => match convert_statements(then) {
                Ok(t) => match convert_statements(otherwise) {
                    Ok(o) => Ok(
                        AyNode {
                            span: node.span.clone(),
                            inner: Statement::If { cond: c, then: t, otherwise: o },
                        },
                    ),
                    Err(trace) => Err(trace),
                },
                Err(trace) => Err(trace),
            },
            Err(trace) => Err(trace),
        },
        BStatement::Loop { cond, body } => {
            let c = match cond {
                Some(c) => match convert_expr(c) {
                    Ok(typed) => Some(typed),
                    Err(trace) => {
                        return Err(trace);
                    },
                },
                None => None,
            };
            match convert_statements(body) {
                Ok(b) => Ok(
                    AyNode { span: node.span.clone(), inner: Statement::Loop { cond: c, body: b } },
                ),
                Err(trace) => Err(trace),
            }
        },
    }
}

fn convert_statements(nodes: &Vec<AyNode<BStatement>>) -> (r: Result<
    Vec<AyNode<Statement>>,
    Trace,
>)
    ensures
        match r {
            Ok(out) => type_statements(bound_statements(nodes@)) matches Ok(v) && v
                == statements_view(out@),
            Err(trace) => type_statements(bound_statements(nodes@)) matches Err(e) && e == trace@,
        },
    decreases nodes,
{
    let ghost all = bound_statements(nodes@);
    let mut out: Vec<AyNode<Statement>> = Vec::new();
    let mut i: usize = 0;
    assert(all.take(0) =~= Seq::<NodeView<BStatementView>>::empty());
    assert(statements_view(out@) =~= Seq::<NodeView<StatementView>>::empty());
    while i < nodes.len()
        invariant
            i <= nodes.len(),
            all == bound_statements(nodes@),
            type_statements(all.take(i as int)) matches Ok(v) && v == statements_view(out@),
        decreases nodes.len() - i,
    {
        proof {
            assert(all.take(i + 1).drop_last() =~= all.take(i as int));
            assert(all.take(i + 1).last() == bound_statement(nodes[i as int]));
        }
        match convert_statement(&nodes[i]) {
            Ok(typed) => {
                let ghost before = statements_view(out@);
                out.push(typed);
                assert(statements_view(out@) =~= before.push(statement_node_view(typed)));
            },
            Err(trace) => {
                proof {
                    lemma_type_statements_prefix(all, i + 1);
                }
                return Err(trace);
            },
        }
        i += 1;
    }
    assert(all.take(i as int) =~= all);
    Ok(out)
}

/// Types a bound program: every expression gets its type, by the rules of
/// `type_expr`. The first expression that has none ends the typing with a
/// trace of one frame.
pub fn convert(ast: &Vec<AyNode<BStatement>>) -> (r: Result<Vec<AyNode<Statement>>, Trace>)
    ensures
        match r {
            Ok(out) => type_statements(bound_statements(ast@)) matches Ok(v) && v
                == statements_view(out@),
            Err(trace) => type_statements(bound_statements(ast@)) matches Err(e) && e == trace@,
        },
{
    convert_statements(ast)
}

/// A number, wherever it stands.
pub open spec fn number_at(span: SpanView, n: i64) -> NodeView<BExprView> {
    NodeView { span, inner: BExprView::Number(n) }
}

/// A string, wherever it stands.
pub open spec fn string_at(span: SpanView, s: Seq<char>) -> NodeView<BExprView> {
    NodeView { span, inner: BExprView::String(s) }
}

/// The rules at work on literals: an array without items has no type, an
/// array of two numbers is an array of numbers, two numbers compare to a
/// `Bool`, and a number does not compare with a string.
pub proof fn lemma_literals(
    span: SpanView,
    first: SpanView,
    second: SpanView,
    a: i64,
    b: i64,
    s: Seq<char>,
    operator: ComparisonOperator,
)
    ensures
        type_expr(
            NodeView { span, inner: BExprView::Array { items: Seq::<NodeView<BExprView>>::empty() } },
        ) matches Err(trace) && trace == raised(
            Stage::Typing,
            span,
            FailureView::EmptyArrayLiteral,
        ),
        type_expr(
            NodeView {
                span,
                inner: BExprView::Array { items: seq![number_at(first, a), number_at(second, b)] },
            },
        ) matches Ok(typed) && typed.expr_type == TypeView::Array(Box::new(TypeView::Number)),
        type_expr(
            NodeView {
                span,
                inner: BExprView::Comparison {
                    left: Box::new(number_at(first, a)),
                    right: Box::new(number_at(second, b)),
                    operator,
                },
            },
        ) matches Ok(typed) && typed.expr_type == TypeView::Bool,
        type_expr(
            NodeView {
                span,
                inner: BExprView::Comparison {
                    left: Box::new(number_at(first, a)),
                    right: Box::new(string_at(second, s)),
                    operator,
                },
            },
        ) matches Err(trace) && trace == raised(
            Stage::Typing,
            span,
            mismatch(OperationView::Comparison, seq![TypeView::Number, TypeView::String]),
        ),
{
    let x = number_at(first, a);
    let y = number_at(second, b);
    let z = string_at(second, s);
    assert(type_expr(x) matches Ok(t) && t.expr_type == TypeView::Number);
    assert(type_expr(y) matches Ok(t) && t.expr_type == TypeView::Number);
    assert(type_expr(z) matches Ok(t) && t.expr_type == TypeView::String);
    let items = seq![x, y];
    let one = items.drop_last();
    let none = one.drop_last();
    assert(none.len() == 0);
    assert(type_exprs(Seq::<NodeView<BExprView>>::empty()) matches Ok(typed) && typed.len() == 0);
    assert(one.len() == 1 && one.last() == x);
    assert(items.last() == y);
    assert(type_exprs(none) matches Ok(typed) && typed.len() == 0);
    assert(type_exprs(one) matches Ok(typed) && typed.len() == 1 && typed[0].expr_type
        == TypeView::Number);
    assert(type_exprs(items) matches Ok(typed) && typed.len() == 2 && typed[0].expr_type
        == TypeView::Number);
}

} // verus!
