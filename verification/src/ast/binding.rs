//! The bound tree, and the binder that makes it: every name of the parsed
//! tree is replaced by a handle to the declaration that it stands for.

use vstd::prelude::*;
use std::rc::Rc;
use super::lib::{copy_names, names_view, AyNode, ComparisonOperator, Node, NodeView};
use super::parsing::{
    expr_node_view as parsed_expr, exprs_view as parsed_exprs,
    statement_node_view as parsed_statement, statements_view as parsed_statements,
    Expr as PExpr, ExprView as PExprView, Statement as PStatement,
    StatementView as PStatementView,
};
use crate::error::failure::{raised, Failure, FailureView};
use crate::error::trace::{Detail, Stage, Trace};
use crate::scope::{
    define, define_all, fresh, layer_view, lemma_define_all_frame, lemma_pop_push, lookup,
    pop_layer, push_layer, share, visible, ScopeStack,
};
use crate::suggest::{names_of, suggest, suggestion};
use crate::text::{chars_of, extend_chars, same_chars};

verus! {

/// The tense in which a call names its function.
#[derive(Clone, Copy, Debug, PartialEq, Eq, Structural)]
pub enum Tense {
    Present,
    Imminent,
    Future,
}

/// The declaration of a function. Its parameters are declarations of their
/// own, without names or values.
#[derive(Debug, Default, PartialEq, Eq)]
pub struct FunDec {
    pub name: String,
    pub args: Vec<Rc<VarDec>>,
    pub body: Vec<AyNode<Statement>>,
}

/// The declaration of one or more variables: as many values as names.
#[derive(Debug, Default, PartialEq, Eq)]
pub struct VarDec {
    pub names: Vec<String>,
    pub values: Vec<AyNode<Expr>>,
}

/// Something that is done: a statement yields no value.
#[derive(Debug, PartialEq, Eq)]
#[allow(inconsistent_fields)]
pub enum Statement {
    FunDec(Rc<FunDec>),
    VarDec(Rc<VarDec>),
    Expr(AyNode<Expr>),
    If { cond: AyNode<Expr>, then: Vec<AyNode<Statement>>, otherwise: Vec<AyNode<Statement>> },
    Loop { cond: Option<AyNode<Expr>>, body: Vec<AyNode<Statement>> },
}

impl Node for Statement {

}

/// Something that is or yields a value. A call holds its declaration and the
/// tense of its spelling; a variable holds its declaration and its name.
#[derive(Debug, PartialEq, Eq)]
#[allow(inconsistent_fields)]
pub enum Expr {
    FunCall { tense: Tense, dec: Rc<FunDec>, name: String, args: Vec<AyNode<Expr>> },
    Array { items: Vec<AyNode<Expr>> },
    Comparison { left: Box<AyNode<Expr>>, right: Box<AyNode<Expr>>, operator: ComparisonOperator },
    Number(i64),
    String(String),
    Var { dec: Rc<VarDec>, name: String },
    Negated(Box<AyNode<Expr>>),
}

impl Node for Expr {

}

/// The declaration of a function as a plain value.
pub struct FunDecView {
    pub name: Seq<char>,
    pub args: Seq<VarDecView>,
    pub body: Seq<NodeView<StatementView>>,
}

/// The declaration of variables as a plain value.
pub struct VarDecView {
    pub names: Seq<Seq<char>>,
    pub values: Seq<NodeView<ExprView>>,
}

/// A statement as a plain value.
#[allow(inconsistent_fields)]
pub enum StatementView {
    FunDec(FunDecView),
    VarDec(VarDecView),
    Expr(NodeView<ExprView>),
    If {
        cond: NodeView<ExprView>,
        then: Seq<NodeView<StatementView>>,
        otherwise: Seq<NodeView<StatementView>>,
    },
    Loop { cond: Option<NodeView<ExprView>>, body: Seq<NodeView<StatementView>> },
}

/// An expression as a plain value.
#[allow(inconsistent_fields)]
pub enum ExprView {
    FunCall { tense: Tense, dec: FunDecView, name: Seq<char>, args: Seq<NodeView<ExprView>> },
    Array { items: Seq<NodeView<ExprView>> },
    Comparison {
        left: Box<NodeView<ExprView>>,
        right: Box<NodeView<ExprView>>,
        operator: ComparisonOperator,
    },
    Number(i64),
    String(Seq<char>),
    Var { dec: VarDecView, name: Seq<char> },
    Negated(Box<NodeView<ExprView>>),
}

/// The plain value of an expression.
pub open spec fn expr_view(e: Expr) -> ExprView
    decreases e,
{
    match e {
        Expr::FunCall { tense, dec, name, args } => ExprView::FunCall {
            tense,
            dec: fundec_view(*dec),
            name: name@,
            args: exprs_view(args@),
        },
        Expr::Array { items } => ExprView::Array { items: exprs_view(items@) },
        Expr::Comparison { left, right, operator } => ExprView::Comparison {
            left: Box::new(expr_node_view(*left)),
            right: Box::new(expr_node_view(*right)),
            operator,
        },
        Expr::Number(n) => ExprView::Number(n),
        Expr::String(s) => ExprView::String(s@),
        Expr::Var { dec, name } => ExprView::Var { dec: vardec_view(*dec), name: name@ },
        Expr::Negated(inner) => ExprView::Negated(Box::new(expr_node_view(*inner))),
    }
}

/// The plain value of an expression with its span.
pub open spec fn expr_node_view(node: AyNode<Expr>) -> NodeView<ExprView>
    decreases node,
{
    NodeView { span: node.span@, inner: expr_view(node.inner) }
}

/// The plain values of a list of expressions.
pub open spec fn exprs_view(nodes: Seq<AyNode<Expr>>) -> Seq<NodeView<ExprView>>
    decreases nodes,
{
    Seq::new(
        nodes.len(),
        |i: int|
            if 0 <= i < nodes.len() {
                expr_node_view(nodes[i])
            } else {
                arbitrary()
            },
    )
}

/// The plain value of a declaration of variables.
pub open spec fn vardec_view(dec: VarDec) -> VarDecView
    decreases dec,
{
    VarDecView { names: names_view(dec.names@), values: exprs_view(dec.values@) }
}

/// The plain values of a list of declarations of variables.
pub open spec fn vardecs_view(decs: Seq<Rc<VarDec>>) -> Seq<VarDecView>
    decreases decs,
{
    Seq::new(
        decs.len(),
        |i: int|
            if 0 <= i < decs.len() {
                vardec_view(*decs[i])
            } else {
                arbitrary()
            },
    )
}

/// The plain value of a declaration of a function.
pub open spec fn fundec_view(dec: FunDec) -> FunDecView
    decreases dec,
{
    FunDecView {
        name: dec.name@,
        args: vardecs_view(dec.args@),
        body: statements_view(dec.body@),
    }
}

/// The plain value of a statement.
pub open spec fn statement_view(s: Statement) -> StatementView
    decreases s,
{
    match s {
        Statement::FunDec(dec) => StatementView::FunDec(fundec_view(*dec)),
        Statement::VarDec(dec) => StatementView::VarDec(vardec_view(*dec)),
        Statement::Expr(e) => StatementView::Expr(expr_node_view(e)),
        Statement::If { cond, then, otherwise } => StatementView::If {
            cond: expr_node_view(cond),
            then: statements_view(then@),
            otherwise: statements_view(otherwise@),
        },
        Statement::Loop { cond, body } => StatementView::Loop {
            cond: match cond {
                Some(c) => Some(expr_node_view(c)),
                None => None,
            },
            body: statements_view(body@),
        },
    }
}

/// The plain value of a statement with its span.
pub open spec fn statement_node_view(node: AyNode<Statement>) -> NodeView<StatementView>
    decreases node,
{
    NodeView { span: node.span@, inner: statement_view(node.inner) }
}

/// The plain values of a list of statements.
pub open spec fn statements_view(nodes: Seq<AyNode<Statement>>) -> Seq<NodeView<StatementView>>
    decreases nodes,
{
    Seq::new(
        nodes.len(),
        |i: int|
            if 0 <= i < nodes.len() {
                statement_node_view(nodes[i])
            } else {
                arbitrary()
            },
    )
}

impl View for Expr {
    type V = ExprView;

    open spec fn view(&self) -> ExprView {
        expr_view(*self)
    }
}

impl View for Statement {
    type V = StatementView;

    open spec fn view(&self) -> StatementView {
        statement_view(*self)
    }
}

impl View for VarDec {
    type V = VarDecView;

    open spec fn view(&self) -> VarDecView {
        vardec_view(*self)
    }
}

impl View for FunDec {
    type V = FunDecView;

    open spec fn view(&self) -> FunDecView {
        fundec_view(*self)
    }
}

/// Where the separator stands that splits `name` into its two stems: the
/// first full stop of `name`, if it has one.
pub open spec fn separator_at(name: Seq<char>) -> Option<int>
    decreases name.len(),
{
    if name.len() == 0 {
        None
    } else {
        match separator_at(name.drop_last()) {
            Some(i) => Some(i),
            None => if name.last() == '.' {
                Some(name.len() - 1)
            } else {
                None
            },
        }
    }
}

/// The spelling of a split name with `infix` between its stems.
pub open spec fn conjugated(declared: Seq<char>, at: int, infix: Seq<char>) -> Seq<char> {
    declared.take(at) + infix + declared.skip(at + 1)
}

/// The tense in which `call` spells the function declared as `declared`, if
/// it spells it at all. A name that is split into stems is spelled by the
/// stems put together (present), or with `ìy` (imminent) or `ay` (future)
/// between them. A name that is not split is spelled by itself alone.
pub open spec fn tense_of(declared: Seq<char>, call: Seq<char>) -> Option<Tense> {
    match separator_at(declared) {
        Some(at) => if conjugated(declared, at, Seq::<char>::empty()) == call {
            Some(Tense::Present)
        } else if conjugated(declared, at, "ìy"@) == call {
            Some(Tense::Imminent)
        } else if conjugated(declared, at, "ay"@) == call {
            Some(Tense::Future)
        } else {
            None
        },
        None => if declared == call {
            Some(Tense::Present)
        } else {
            None
        },
    }
}

/// The first of `entries` whose name `call` spells, with the tense of the
/// spelling.
pub open spec fn first_match<V>(entries: Seq<(Seq<char>, V)>, call: Seq<char>) -> Option<
    (Tense, V),
>
    decreases entries.len(),
{
    if entries.len() == 0 {
        None
    } else {
        match first_match(entries.drop_last(), call) {
            Some(found) => Some(found),
            None => match tense_of(entries.last().0, call) {
                Some(tense) => Some((tense, entries.last().1)),
                None => None,
            },
        }
    }
}

fn find_separator(name: &Vec<char>) -> (r: Option<usize>)
    ensures
        match r {
            Some(at) => separator_at(name@) == Some(at as int) && at < name.len(),
            None => separator_at(name@) is None,
        },
{
    let mut i: usize = 0;
    while i < name.len()
        invariant
            i <= name.len(),
            separator_at(name@.take(i as int)) is None,
        decreases name.len() - i,
    {
        assert(name@.take(i + 1).drop_last() =~= name@.take(i as int));
        if name[i] == '.' {
            proof {
                lemma_separator_prefix(name@, i + 1);
            }
            return Some(i);
        }
        i += 1;
    }
    assert(name@.take(i as int) =~= name@);
    None
}

/// A separator found in the beginning of a name is the separator of the name.
pub proof fn lemma_separator_prefix(name: Seq<char>, len: int)
    requires
        0 <= len <= name.len(),
        separator_at(name.take(len)) is Some,
    ensures
        separator_at(name) == separator_at(name.take(len)),
    decreases name.len() - len,
{
    if len < name.len() {
        assert(name.take(len + 1).drop_last() =~= name.take(len));
        lemma_separator_prefix(name, len + 1);
    } else {
        assert(name.take(len) =~= name);
    }
}

fn conjugate(declared: &Vec<char>, at: usize, infix: &Vec<char>) -> (r: Vec<char>)
    requires
        at < declared.len(),
    ensures
        r@ == conjugated(declared@, at as int, infix@),
{
    let mut out: Vec<char> = Vec::new();
    extend_chars(&mut out, declared, 0, at);
    extend_chars(&mut out, infix, 0, infix.len());
    extend_chars(&mut out, declared, at + 1, declared.len());
    assert(out@ =~= conjugated(declared@, at as int, infix@));
    out
}

/// The tense in which `call` spells the function declared as `declared`.
pub fn tense(declared: &str, call: &str) -> (r: Option<Tense>)
    ensures
        r == tense_of(declared@, call@),
{
    let name = chars_of(declared);
    let spelling = chars_of(call);
    match find_separator(&name) {
        Some(at) => {
            let none: Vec<char> = Vec::new();
            let soon = chars_of("ìy");
            let later = chars_of("ay");
            assert(none@ =~= Seq::<char>::empty());
            if same_chars(&conjugate(&name, at, &none), &spelling) {
                Some(Tense::Present)
            } else if same_chars(&conjugate(&name, at, &soon), &spelling) {
                Some(Tense::Imminent)
            } else if same_chars(&conjugate(&name, at, &later), &spelling) {
                Some(Tense::Future)
            } else {
                None
            }
        },
        None => if same_chars(&name, &spelling) {
            Some(Tense::Present)
        } else {
            None
        },
    }
}

/// The function that `name` calls, and the tense in which it calls it: the
/// first visible declaration whose name `name` spells.
pub fn match_function(name: &str, funs: &ScopeStack<FunDec>) -> (r: Option<(Tense, Rc<FunDec>)>)
    requires
        funs.wf(),
    ensures
        match r {
            Some((tense, dec)) => first_match(visible(funs@), name@) == Some((tense, dec@)),
            None => first_match(visible(funs@), name@) is None,
        },
{
    let entries = funs.visible_entries();
    let ghost all = visible(funs@);
    let mut i: usize = 0;
    assert(all.take(0) =~= Seq::<(Seq<char>, FunDecView)>::empty());
    while i < entries.len()
        invariant
            i <= entries.len(),
            all == layer_view(entries),
            all == visible(funs@),
            first_match(all.take(i as int), name@) is None,
        decreases entries.len() - i,
    {
        proof {
            assert(all.take(i + 1).drop_last() =~= all.take(i as int));
            assert(all.take(i + 1).last() == all[i as int]);
        }
        match tense(entries[i].0.as_str(), name) {
            Some(found) => {
                let dec = share(&entries[i].1);
                proof {
                    assert(all[i as int] == (entries[i as int].0@, dec@));
                    assert(first_match(all.take(i + 1), name@) == Some((found, dec@)));
                    lemma_first_match_prefix(all, i + 1, name@);
                }
                return Some((found, dec));
            },
            None => {},
        }
        i += 1;
    }
    assert(all.take(i as int) =~= all);
    None
}

/// A match found among the first of the entries is the match among all.
pub proof fn lemma_first_match_prefix<V>(entries: Seq<(Seq<char>, V)>, len: int, call: Seq<char>)
    requires
        0 <= len <= entries.len(),
        first_match(entries.take(len), call) is Some,
    ensures
        first_match(entries, call) == first_match(entries.take(len), call),
    decreases entries.len() - len,
{
    if len < entries.len() {
        assert(entries.take(len + 1).drop_last() =~= entries.take(len));
        lemma_first_match_prefix(entries, len + 1, call);
    } else {
        assert(entries.take(len) =~= entries);
    }
}

/// The variables in scope: layers of declarations by name.
pub type Vars = Seq<Seq<(Seq<char>, VarDecView)>>;

/// The functions in scope: layers of declarations by name.
pub type Funs = Seq<Seq<(Seq<char>, FunDecView)>>;

/// A trace as a plain value.
pub type Frames = Seq<(Stage, Detail)>;

/// The declaration of a parameter: it has neither names nor values.
pub open spec fn parameter() -> VarDecView {
    VarDecView { names: Seq::<Seq<char>>::empty(), values: Seq::<NodeView<ExprView>>::empty() }
}

/// The failure to report when no visible variable is called `name`.
pub open spec fn undefined_variable(vars: Vars, name: Seq<char>) -> FailureView {
    FailureView::UndefinedVariable { name, suggestion: suggestion(names_of(visible(vars)), name) }
}

/// The failure to report when no visible function answers to `name`.
pub open spec fn undefined_function(funs: Funs, name: Seq<char>) -> FailureView {
    FailureView::UndefinedFunction { name, suggestion: suggestion(names_of(visible(funs)), name) }
}

/// An expression, bound in the given scopes. An identifier becomes the
/// variable that it is looked up as, a call the function that its spelling
/// matches; both fail where nothing is found. A call is resolved before its
/// arguments. The first failure, from left to right, is the result.
pub open spec fn bind_expr(node: NodeView<PExprView>, vars: Vars, funs: Funs) -> Result<
    NodeView<ExprView>,
    Frames,
>
    decreases node,
{
    match node.inner {
        PExprView::Ident(name) => match lookup(vars, name) {
            Some(dec) => Ok(NodeView { span: node.span, inner: ExprView::Var { dec, name } }),
            None => Err(raised(Stage::Binding, node.span, undefined_variable(vars, name))),
        },
        PExprView::FunCall { name, args } => match first_match(visible(funs), name) {
            Some((tense, dec)) => match bind_exprs(args, vars, funs) {
                Ok(bound) => Ok(
                    NodeView {
                        span: node.span,
                        inner: ExprView::FunCall { tense, dec, name, args: bound },
                    },
                ),
                Err(trace) => Err(trace),
            },
            None => Err(raised(Stage::Binding, node.span, undefined_function(funs, name))),
        },
        PExprView::Number(n) => Ok(NodeView { span: node.span, inner: ExprView::Number(n) }),
        PExprView::String(s) => Ok(NodeView { span: node.span, inner: ExprView::String(s) }),
        PExprView::Negated(inner) => match bind_expr(*inner, vars, funs) {
            Ok(bound) => Ok(
                NodeView { span: node.span, inner: ExprView::Negated(Box::new(bound)) },
            ),
            Err(trace) => Err(trace),
        },
        PExprView::Comparison { left, right, operator } => match bind_expr(*left, vars, funs) {
            Ok(l) => match bind_expr(*right, vars, funs) {
                Ok(r) => Ok(
                    NodeView {
                        span: node.span,
                        inner: ExprView::Comparison {
                            left: Box::new(l),
                            right: Box::new(r),
                            operator,
                        },
                    },
                ),
                Err(trace) => Err(trace),
            },
            Err(trace) => Err(trace),
        },
        PExprView::Array { items } => match bind_exprs(items, vars, funs) {
            Ok(bound) => Ok(NodeView { span: node.span, inner: ExprView::Array { items: bound } }),
            Err(trace) => Err(trace),
        },
    }
}

/// A list of expressions, bound in order; the first failure ends it.
pub open spec fn bind_exprs(nodes: Seq<NodeView<PExprView>>, vars: Vars, funs: Funs) -> Result<
    Seq<NodeView<ExprView>>,
    Frames,
>
    decreases nodes,
{
    if nodes.len() == 0 {
        Ok(Seq::<NodeView<ExprView>>::empty())
    } else {
        match bind_exprs(nodes.drop_last(), vars, funs) {
            Ok(before) => match bind_expr(nodes.last(), vars, funs) {
                Ok(bound) => Ok(before.push(bound)),
                Err(trace) => Err(trace),
            },
            Err(trace) => Err(trace),
        }
    }
}

/// A statement, bound in the given scopes, with the scopes as it leaves them.
///
/// The values of a declaration of variables are bound before its names are
/// defined. The body of a function is bound in a layer of its own that holds
/// the parameters; the function itself is defined once the body is bound and
/// the layer closed, so the body cannot call it. Each branch of a
/// conditional and the body of a loop have a layer of their own; their
/// conditions are bound outside it.
pub open spec fn bind_statement(node: NodeView<PStatementView>, vars: Vars, funs: Funs) -> Result<
    (NodeView<StatementView>, Vars, Funs),
    Frames,
>
    decreases node,
{
    match node.inner {
        PStatementView::VarDec { names, values } => match bind_exprs(values, vars, funs) {
            Ok(bound) => {
                let dec = VarDecView { names, values: bound };
                Ok(
                    (
                        NodeView { span: node.span, inner: StatementView::VarDec(dec) },
                        define_all(vars, names, dec),
                        funs,
                    ),
                )
            },
            Err(trace) => Err(trace),
        },
        PStatementView::FunDec { name, args, body } => match bind_statements(
            body,
            define_all(push_layer(vars), args, parameter()),
            push_layer(funs),
        ) {
            Ok((bound, _, _)) => {
                let dec = FunDecView {
                    name,
                    args: Seq::new(args.len(), |i: int| parameter()),
                    body: bound,
                };
                Ok(
                    (
                        NodeView { span: node.span, inner: StatementView::FunDec(dec) },
                        vars,
                        define(funs, name, dec),
                    ),
                )
            },
            Err(trace) => Err(trace),
        },
        PStatementView::If { cond, then, otherwise } => match bind_expr(cond, vars, funs) {
            Ok(c) => match bind_block(then, vars, funs) {
                Ok(t) => match bind_block(otherwise, vars, funs) {
                    Ok(o) => Ok(
                        (
                            NodeView {
                                span: node.span,
                                inner: StatementView::If { cond: c, then: t, otherwise: o },
                            },
                            vars,
                            funs,
                        ),
                    ),
                    Err(trace) => Err(trace),
                },
                Err(trace) => Err(trace),
            },
            Err(trace) => Err(trace),
        },
        PStatementView::Loop { cond, body } => match cond {
            Some(c) => match bind_expr(c, vars, funs) {
                Ok(bound) => match bind_block(body, vars, funs) {
                    Ok(b) => Ok(
                        (
                            NodeView {
                                span: node.span,
                                inner: StatementView::Loop { cond: Some(bound), body: b },
                            },
                            vars,
                            funs,
                        ),
                    ),
                    Err(trace) => Err(trace),
                },
                Err(trace) => Err(trace),
            },
            None => match bind_block(body, vars, funs) {
                Ok(b) => Ok(
                    (
                        NodeView {
                            span: node.span,
                            inner: StatementView::Loop { cond: None, body: b },
                        },
                        vars,
                        funs,
                    ),
                ),
                Err(trace) => Err(trace),
            },
        },
        PStatementView::Expr(e) => match bind_expr(e, vars, funs) {
            Ok(bound) => Ok(
                (NodeView { span: node.span, inner: StatementView::Expr(bound) }, vars, funs),
            ),
            Err(trace) => Err(trace),
        },
    }
}

/// A block, bound in a layer of its own inside the given scopes.
pub open spec fn bind_block(nodes: Seq<NodeView<PStatementView>>, vars: Vars, funs: Funs) -> Result<
    Seq<NodeView<StatementView>>,
    Frames,
>
    decreases nodes, 1nat,
{
    match bind_statements(nodes, push_layer(vars), push_layer(funs)) {
        Ok((bound, _, _)) => Ok(bound),
        Err(trace) => Err(trace),
    }
}

/// A list of statements, bound in order, each in the scopes as the one
/// before left them; the first failure ends it.
pub open spec fn bind_statements(
    nodes: Seq<NodeView<PStatementView>>,
    vars: Vars,
    funs: Funs,
) -> Result<(Seq<NodeView<StatementView>>, Vars, Funs), Frames>
    decreases nodes, 0nat,
{
    if nodes.len() == 0 {
        Ok((Seq::<NodeView<StatementView>>::empty(), vars, funs))
    } else {
        match bind_statements(nodes.drop_last(), vars, funs) {
            Ok((before, v, f)) => match bind_statement(nodes.last(), v, f) {
                Ok((bound, v2, f2)) => Ok((before.push(bound), v2, f2)),
                Err(trace) => Err(trace),
            },
            Err(trace) => Err(trace),
        }
    }
}

/// A program, bound from scopes in which nothing is defined.
pub open spec fn bind_program(nodes: Seq<NodeView<PStatementView>>) -> Result<
    Seq<NodeView<StatementView>>,
    Frames,
> {
    match bind_statements(nodes, fresh::<VarDecView>(), fresh::<FunDecView>()) {
        Ok((bound, _, _)) => Ok(bound),
        Err(trace) => Err(trace),
    }
}

/// A failure among the first expressions of a list is the failure of the list.
pub proof fn lemma_bind_exprs_prefix(
    nodes: Seq<NodeView<PExprView>>,
    len: int,
    vars: Vars,
    funs: Funs,
)
    requires
        0 <= len <= nodes.len(),
        bind_exprs(nodes.take(len), vars, funs) is Err,
    ensures
        bind_exprs(nodes, vars, funs) == bind_exprs(nodes.take(len), vars, funs),
    decreases nodes.len() - len,
{
    if len < nodes.len() {
        assert(nodes.take(len + 1).drop_last() =~= nodes.take(len));
        lemma_bind_exprs_prefix(nodes, len + 1, vars, funs);
    } else {
        assert(nodes.take(len) =~= nodes);
    }
}

/// A failure among the first statements of a list is the failure of the list.
pub proof fn lemma_bind_statements_prefix(
    nodes: Seq<NodeView<PStatementView>>,
    len: int,
    vars: Vars,
    funs: Funs,
)
    requires
        0 <= len <= nodes.len(),
        bind_statements(nodes.take(len), vars, funs) is Err,
    ensures
        bind_statements(nodes, vars, funs) == bind_statements(nodes.take(len), vars, funs),
    decreases nodes.len() - len,
{
    if len < nodes.len() {
        assert(nodes.take(len + 1).drop_last() =~= nodes.take(len));
        lemma_bind_statements_prefix(nodes, len + 1, vars, funs);
    } else {
        assert(nodes.take(len) =~= nodes);
    }
}

fn convert_expr(node: &AyNode<PExpr>, vars: &ScopeStack<VarDec>, funs: &ScopeStack<FunDec>) -> (r:
    Result<AyNode<Expr>, Trace>)
    requires
        vars.wf(),
        funs.wf(),
    ensures
        match r {
            Ok(out) => bind_expr(parsed_expr(*node), vars@, funs@) matches Ok(v) && v
                == expr_node_view(out),
            Err(trace) => bind_expr(parsed_expr(*node), vars@, funs@) matches Err(e) && e
                == trace@,
        },
    decreases node,
{
    match &node.inner {
        PExpr::Ident(name) => match vars.lookup(name.as_str()) {
            Some(dec) => Ok(
                AyNode { span: node.span.clone(), inner: Expr::Var { dec, name: name.clone() } },
            ),
            None => {
                let failure = Failure::UndefinedVariable {
                    name: name.clone(),
                    suggestion: suggest(vars, name.as_str()),
                };
                Err(failure.raise(Stage::Binding, &node.span))
            },
        },
        PExpr::FunCall { name, args } => match match_function(name.as_str(), funs) {
            Some((tense, dec)) => match convert_exprs(args, vars, funs) {
                Ok(bound) => Ok(
                    AyNode {
                        span: node.span.clone(),
                        inner: Expr::FunCall { tense, dec, name: name.clone(), args: bound },
                    },
                ),
                Err(trace) => Err(trace),
            },
            None => {
                let failure = Failure::UndefinedFunction {
                    name: name.clone(),
                    suggestion: suggest(funs, name.as_str()),
                };
                Err(failure.raise(Stage::Binding, &node.span))
            },
        },
        PExpr::Number(n) => Ok(AyNode { span: node.span.clone(), inner: Expr::Number(*n) }),
        PExpr::String(s) => Ok(AyNode { span: node.span.clone(), inner: Expr::String(s.clone()) }),
        PExpr::Negated(inner) => match convert_expr(&**inner, vars, funs) {
            Ok(bound) => Ok(
                AyNode { span: node.span.clone(), inner: Expr::Negated(Box::new(bound)) },
            ),
            Err(trace) => Err(trace),
        },
        PExpr::Comparison { left, right, operator } => match convert_expr(&**left, vars, funs) {
            Ok(l) => match convert_expr(&**right, vars, funs) {
                Ok(r) => Ok(
                    AyNode {
                        span: node.span.clone(),
                        inner: Expr::Comparison {
                            left: Box::new(l),
                            right: Box::new(r),
                            operator: *operator,
                        },
                    },
                ),
                Err(trace) => Err(trace),
            },
            Err(trace) => Err(trace),
        },
        PExpr::Array { items } => match convert_exprs(items, vars, funs) {
            Ok(bound) => Ok(AyNode { span: node.span.clone(), inner: Expr::Array { items: bound } }),
            Err(trace) => Err(trace),
        },
    }
}

fn convert_exprs(
    nodes: &Vec<AyNode<PExpr>>,
    vars: &ScopeStack<VarDec>,
    funs: &ScopeStack<FunDec>,
) -> (r: Result<Vec<AyNode<Expr>>, Trace>)
    requires
        vars.wf(),
        funs.wf(),
    ensures
        match r {
            Ok(out) => bind_exprs(parsed_exprs(nodes@), vars@, funs@) matches Ok(v) && v
                == exprs_view(out@),
            Err(trace) => bind_exprs(parsed_exprs(nodes@), vars@, funs@) matches Err(e) && e
                == trace@,
        },
    decreases nodes,
{
    let ghost all = parsed_exprs(nodes@);
    let mut out: Vec<AyNode<Expr>> = Vec::new();
    let mut i: usize = 0;
    assert(all.take(0) =~= Seq::<NodeView<PExprView>>::empty());
    assert(exprs_view(out@) =~= Seq::<NodeView<ExprView>>::empty());
    while i < nodes.len()
        invariant
            vars.wf(),
            funs.wf(),
            i <= nodes.len(),
            all == parsed_exprs(nodes@),
            bind_exprs(all.take(i as int), vars@, funs@) matches Ok(v) && v == exprs_view(out@),
        decreases nodes.len() - i,
    {
        proof {
            assert(all.take(i + 1).drop_last() =~= all.take(i as int));
            assert(all.take(i + 1).last() == parsed_expr(nodes[i as int]));
        }
        match convert_expr(&nodes[i], vars, funs) {
            Ok(bound) => {
                let ghost before = exprs_view(out@);
                out.push(bound);
                assert(exprs_view(out@) =~= before.push(expr_node_view(bound)));
            },
            Err(trace) => {
                proof {
                    lemma_bind_exprs_prefix(all, i + 1, vars@, funs@);
                }
                return Err(trace);
            },
        }
        i += 1;
    }
    assert(all.take(i as int) =~= all);
    Ok(out)
}

fn convert_statement(
    node: &AyNode<PStatement>,
    vars: &mut ScopeStack<VarDec>,
    funs: &mut ScopeStack<FunDec>,
) -> (r: Result<AyNode<Statement>, Trace>)
    requires
        old(vars).wf(),
        old(funs).wf(),
    ensures
        final(vars).wf(),
        final(funs).wf(),
        final(vars)@.len() == old(vars)@.len(),
        final(funs)@.len() == old(funs)@.len(),
        final(vars)@.drop_last() == old(vars)@.drop_last(),
        final(funs)@.drop_last() == old(funs)@.drop_last(),
        match r {
            Ok(out) => bind_statement(parsed_statement(*node), old(vars)@, old(funs)@)
                matches Ok(v) && v == (statement_node_view(out), final(vars)@, final(funs)@),
            Err(trace) => bind_statement(parsed_statement(*node), old(vars)@, old(funs)@)
                matches Err(e) && e == trace@ && final(vars)@ == old(vars)@ && final(funs)@ == old(
                funs,
            )@,
        },
    decreases node,
{
    let ghost vars0 = vars@;
    let ghost funs0 = funs@;
    proof {
        vars.lemma_depth();
        funs.lemma_depth();
    }
    match &node.inner {
        PStatement::VarDec { names, values } => {
            let bound = match convert_exprs(values, &*vars, &*funs) {
                Ok(bound) => bound,
                Err(trace) => {
                    return Err(trace);
                },
            };
            let dec = Rc::new(VarDec { names: copy_names(names), values: bound });
            let ghost all = names_view(names@);
            let mut i: usize = 0;
            assert(all.take(0) =~= Seq::<Seq<char>>::empty());
            while i < names.len()
                invariant
                    vars.wf(),
                    i <= names.len(),
                    all == names_view(names@),
                    vars@ == define_all(vars0, all.take(i as int), dec@),
                decreases names.len() - i,
            {
                proof {
                    assert(all.take(i + 1).drop_last() =~= all.take(i as int));
                    assert(all.take(i + 1).last() == names[i as int]@);
                }
                vars.define(names[i].clone(), share(&dec));
                i += 1;
            }
            proof {
                assert(all.take(i as int) =~= all);
                lemma_define_all_frame(vars0, all, dec@);
            }
            Ok(AyNode { span: node.span.clone(), inner: Statement::VarDec(dec) })
        },
        PStatement::FunDec { name, args, body } => {
            vars.push_layer();
            funs.push_layer();
            let ghost all = names_view(args@);
            let mut params: Vec<Rc<VarDec>> = Vec::new();
            let mut i: usize = 0;
            assert(all.take(0) =~= Seq::<Seq<char>>::empty());
            while i < args.len()
                invariant
                    vars.wf(),
                    i <= args.len(),
                    all == names_view(args@),
                    params.len() == i,
                    forall|j: int| 0 <= j < i ==> (#[trigger] params[j])@ == parameter(),
                    vars@ == define_all(push_layer(vars0), all.take(i as int), parameter()),
                decreases args.len() - i,
            {
                proof {
                    assert(all.take(i + 1).drop_last() =~= all.take(i as int));
                    assert(all.take(i + 1).last() == args[i as int]@);
                }
                let dec = Rc::new(VarDec { names: Vec::new(), values: Vec::new() });
                assert(dec@.names =~= parameter().names);
                assert(dec@.values =~= parameter().values);
                vars.define(args[i].clone(), share(&dec));
                params.push(dec);
                i += 1;
            }
            proof {
                assert(all.take(i as int) =~= all);
                lemma_define_all_frame(push_layer(vars0), all, parameter());
                lemma_pop_push(vars0);
                lemma_pop_push(funs0);
            }
            let result = convert_statements(body, vars, funs);
            vars.pop_layer();
            funs.pop_layer();
            assert(vars@ == vars0);
            assert(funs@ == funs0);
            match result {
                Ok(bound) => {
                    let dec = Rc::new(FunDec { name: name.clone(), args: params, body: bound });
                    assert(dec@.args =~= Seq::new(all.len(), |i: int| parameter()));
                    funs.define(name.clone(), share(&dec));
                    assert(funs@.drop_last() =~= funs0.drop_last());
                    Ok(AyNode { span: node.span.clone(), inner: Statement::FunDec(dec) })
                },
                Err(trace) => Err(trace),
            }
        },
        PStatement::If { cond, then, otherwise } => {
            let c = match convert_expr(cond, &*vars, &*funs) {
                Ok(c) => c,
                Err(trace) => {
                    return Err(trace);
                },
            };
            let t = match convert_block(then, vars, funs) {
                Ok(t) => t,
                Err(trace) => {
                    return Err(trace);
                },
            };
            let o = match convert_block(otherwise, vars, funs) {
                Ok(o) => o,
                Err(trace) => {
                    return Err(trace);
                },
            };
            Ok(
                AyNode {
                    span: node.span.clone(),
                    inner: Statement::If { cond: c, then: t, otherwise: o },
                },
            )
        },
        PStatement::Loop { cond, body } => {
            let c = match cond {
                Some(c) => match convert_expr(c, &*vars, &*funs) {
                    Ok(bound) => Some(bound),
                    Err(trace) => {
                        return Err(trace);
                    },
                },
                None => None,
            };
            let b = match convert_block(body, vars, funs) {
                Ok(b) => b,
                Err(trace) => {
                    return Err(trace);
                },
            };
            Ok(AyNode { span: node.span.clone(), inner: Statement::Loop { cond: c, body: b } })
        },
        PStatement::Expr(e) => match convert_expr(e, &*vars, &*funs) {
            Ok(bound) => Ok(AyNode { span: node.span.clone(), inner: Statement::Expr(bound) }),
            Err(trace) => Err(trace),
        },
    }
}

fn convert_block(
    nodes: &Vec<AyNode<PStatement>>,
    vars: &mut ScopeStack<VarDec>,
    funs: &mut ScopeStack<FunDec>,
) -> (r: Result<Vec<AyNode<Statement>>, Trace>)
    requires
        old(vars).wf(),
        old(funs).wf(),
    ensures
        final(vars).wf(),
        final(funs).wf(),
        final(vars)@ == old(vars)@,
        final(funs)@ == old(funs)@,
        match r {
            Ok(out) => bind_block(parsed_statements(nodes@), old(vars)@, old(funs)@)
                matches Ok(v) && v == statements_view(out@),
            Err(trace) => bind_block(parsed_statements(nodes@), old(vars)@, old(funs)@)
                matches Err(e) && e == trace@,
        },
    decreases nodes, 1nat,
{
    proof {
        vars.lemma_depth();
        funs.lemma_depth();
        lemma_pop_push(vars@);
        lemma_pop_push(funs@);
    }
    vars.push_layer();
    funs.push_layer();
    let result = convert_statements(nodes, vars, funs);
    vars.pop_layer();
    funs.pop_layer();
    result
}

fn convert_statements(
    nodes: &Vec<AyNode<PStatement>>,
    vars: &mut ScopeStack<VarDec>,
    funs: &mut ScopeStack<FunDec>,
) -> (r: Result<Vec<AyNode<Statement>>, Trace>)
    requires
        old(vars).wf(),
        old(funs).wf(),
    ensures
        final(vars).wf(),
        final(funs).wf(),
        final(vars)@.len() == old(vars)@.len(),
        final(funs)@.len() == old(funs)@.len(),
        final(vars)@.drop_last() == old(vars)@.drop_last(),
        final(funs)@.drop_last() == old(funs)@.drop_last(),
        match r {
            Ok(out) => bind_statements(parsed_statements(nodes@), old(vars)@, old(funs)@)
                matches Ok(v) && v == (statements_view(out@), final(vars)@, final(funs)@),
            Err(trace) => bind_statements(parsed_statements(nodes@), old(vars)@, old(funs)@)
                matches Err(e) && e == trace@,
        },
    decreases nodes, 0nat,
{
    let ghost vars0 = vars@;
    let ghost funs0 = funs@;
    let ghost all = parsed_statements(nodes@);
    let mut out: Vec<AyNode<Statement>> = Vec::new();
    let mut i: usize = 0;
    assert(all.take(0) =~= Seq::<NodeView<PStatementView>>::empty());
    assert(statements_view(out@) =~= Seq::<NodeView<StatementView>>::empty());
    while i < nodes.len()
        invariant
            vars.wf(),
            funs.wf(),
            i <= nodes.len(),
            all == parsed_statements(nodes@),
            vars0 == old(vars)@,
            funs0 == old(funs)@,
            vars@.len() == vars0.len(),
            funs@.len() == funs0.len(),
            vars@.drop_last() == vars0.drop_last(),
            funs@.drop_last() == funs0.drop_last(),
            bind_statements(all.take(i as int), vars0, funs0) matches Ok(v) && v == (
                statements_view(out@),
                vars@,
                funs@,
            ),
        decreases nodes.len() - i,
    {
        proof {
            assert(all.take(i + 1).drop_last() =~= all.take(i as int));
            assert(all.take(i + 1).last() == parsed_statement(nodes[i as int]));
        }
        match convert_statement(&nodes[i], vars, funs) {
            Ok(bound) => {
                let ghost before = statements_view(out@);
                out.push(bound);
                assert(statements_view(out@) =~= before.push(statement_node_view(bound)));
            },
            Err(trace) => {
                proof {
                    lemma_bind_statements_prefix(all, i + 1, vars0, funs0);
                }
                return Err(trace);
            },
        }
        i += 1;
    }
    assert(all.take(i as int) =~= all);
    Ok(out)
}

/// Binds a program: every identifier becomes a handle to the declaration of
/// the variable that it names, every call a handle to the declaration of the
/// function that its spelling matches, with the tense of the spelling. The
/// first name that stands for nothing ends the binding with a trace of one
/// frame, which quotes the name and proposes a visible name close to it
/// where there is one.
pub fn convert(ast: &Vec<AyNode<PStatement>>) -> (r: Result<Vec<AyNode<Statement>>, Trace>)
    ensures
        match r {
            Ok(out) => bind_program(parsed_statements(ast@)) matches Ok(v) && v
                == statements_view(out@),
            Err(trace) => bind_program(parsed_statements(ast@)) matches Err(e) && e == trace@,
        },
{
    let mut vars = ScopeStack::<VarDec>::new();
    let mut funs = ScopeStack::<FunDec>::new();
    convert_statements(ast, &mut vars, &mut funs)
}

} // verus!
