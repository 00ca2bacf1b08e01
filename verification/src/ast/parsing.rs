//! The tree as the parser hands it over: names are still words.

use vstd::prelude::*;
use super::lib::{names_view, AyNode, ComparisonOperator, Node, NodeView};

verus! {

/// Something that is done: a statement yields no value.
#[derive(Debug, PartialEq, Eq)]
#[allow(inconsistent_fields)]
pub enum Statement {
    FunDec { name: String, args: Vec<String>, body: Vec<AyNode<Statement>> },
    VarDec { names: Vec<String>, values: Vec<AyNode<Expr>> },
    Expr(AyNode<Expr>),
    If { cond: AyNode<Expr>, then: Vec<AyNode<Statement>>, otherwise: Vec<AyNode<Statement>> },
    Loop { cond: Option<AyNode<Expr>>, body: Vec<AyNode<Statement>> },
}

impl Node for Statement {

}

/// Something that is or yields a value.
#[derive(Debug, PartialEq, Eq)]
pub enum Expr {
    FunCall { name: String, args: Vec<AyNode<Expr>> },
    Array { items: Vec<AyNode<Expr>> },
    Comparison { left: Box<AyNode<Expr>>, right: Box<AyNode<Expr>>, operator: ComparisonOperator },
    Number(i64),
    String(String),
    Ident(String),
    Negated(Box<AyNode<Expr>>),
}

impl Node for Expr {

}

/// A statement as a plain value.
#[allow(inconsistent_fields)]
pub enum StatementView {
    FunDec { name: Seq<char>, args: Seq<Seq<char>>, body: Seq<NodeView<StatementView>> },
    VarDec { names: Seq<Seq<char>>, values: Seq<NodeView<ExprView>> },
    Expr(NodeView<ExprView>),
    If {
        cond: NodeView<ExprView>,
        then: Seq<NodeView<StatementView>>,
        otherwise: Seq<NodeView<StatementView>>,
    },
    Loop { cond: Option<NodeView<ExprView>>, body: Seq<NodeView<StatementView>> },
}

/// An expression as a plain value.
pub enum ExprView {
    FunCall { name: Seq<char>, args: Seq<NodeView<ExprView>> },
    Array { items: Seq<NodeView<ExprView>> },
    Comparison {
        left: Box<NodeView<ExprView>>,
        right: Box<NodeView<ExprView>>,
        operator: ComparisonOperator,
    },
    Number(i64),
    String(Seq<char>),
    Ident(Seq<char>),
    Negated(Box<NodeView<ExprView>>),
}

/// The plain value of an expression.
pub open spec fn expr_view(e: Expr) -> ExprView
    decreases e,
{
    match e {
        Expr::FunCall { name, args } => ExprView::FunCall { name: name@, args: exprs_view(args@) },
        Expr::Array { items } => ExprView::Array { items: exprs_view(items@) },
        Expr::Comparison { left, right, operator } => ExprView::Comparison {
            left: Box::new(expr_node_view(*left)),
            right: Box::new(expr_node_view(*right)),
            operator,
        },
        Expr::Number(n) => ExprView::Number(n),
        Expr::String(s) => ExprView::String(s@),
        Expr::Ident(s) => ExprView::Ident(s@),
        Expr::Negated(inner) => ExprView::Negated(Box::new(expr_node_view(*inner))),
    }
}

/// The plain value of an expression with its span.
pub open spec fn expr_node_view(node: AyNode<Expr>) -> NodeView<ExprView>
    decreases node,
{
    NodeView { span: node.span@, inner: expr_view(node.inner) }
}

/// The plain values of a list of expressions.
pub open spec fn exprs_view(nodes: Seq<AyNode<Expr>>) -> Seq<NodeView<ExprView>>
    decreases nodes,
{
    Seq::new(
        nodes.len(),
        |i: int|
            if 0 <= i < nodes.len() {
                expr_node_view(nodes[i])
            } else {
                arbitrary()
            },
    )
}

/// The plain value of a statement.
pub open spec fn statement_view(s: Statement) -> StatementView
    decreases s,
{
    match s {
        Statement::FunDec { name, args, body } => StatementView::FunDec {
            name: name@,
            args: names_view(args@),
            body: statements_view(body@),
        },
        Statement::VarDec { names, values } => StatementView::VarDec {
            names: names_view(names@),
            values: exprs_view(values@),
        },
        Statement::Expr(e) => StatementView::Expr(expr_node_view(e)),
        Statement::If { cond, then, otherwise } => StatementView::If {
            cond: expr_node_view(cond),
            then: statements_view(then@),
            otherwise: statements_view(otherwise@),
        },
        Statement::Loop { cond, body } => StatementView::Loop {
            cond: match cond {
                Some(c) => Some(expr_node_view(c)),
                None => None,
            },
            body: statements_view(body@),
        },
    }
}

/// The plain value of a statement with its span.
pub open spec fn statement_node_view(node: AyNode<Statement>) -> NodeView<StatementView>
    decreases node,
{
    NodeView { span: node.span@, inner: statement_view(node.inner) }
}

/// The plain values of a list of statements.
pub open spec fn statements_view(nodes: Seq<AyNode<Statement>>) -> Seq<NodeView<StatementView>>
    decreases nodes,
{
    Seq::new(
        nodes.len(),
        |i: int|
            if 0 <= i < nodes.len() {
                statement_node_view(nodes[i])
            } else {
                arbitrary()
            },
    )
}

impl View for Expr {
    type V = ExprView;

    open spec fn view(&self) -> ExprView {
        expr_view(*self)
    }
}

impl View for Statement {
    type V = StatementView;

    open spec fn view(&self) -> StatementView {
        statement_view(*self)
    }
}

} // verus!
