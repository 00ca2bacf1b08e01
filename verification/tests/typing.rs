use aysinvi::ast::binding::{
    convert as bind, Expr as BExpr, FunDec as BFunDec, Statement as BStatement, Tense,
    VarDec as BVarDec,
};
use aysinvi::ast::lib::{AyNode, AyType, ComparisonOperator};
use aysinvi::ast::parsing::{Expr as PExpr, Statement as PStatement};
use aysinvi::ast::typing::{convert, Expr, Statement, TypedExpr};
use aysinvi::error::failure::{Failure, Operation};
use aysinvi::error::span::{Location, Span};
use aysinvi::error::trace::{Stage, Trace, TraceError};
use std::rc::Rc;

fn span(text: &str) -> Span {
    Span::new(text, Location::Pos((1, 1)))
}

fn node(text: &str, inner: BExpr) -> AyNode<BExpr> {
    AyNode { span: span(text), inner }
}

fn number(n: i64) -> AyNode<BExpr> {
    node("number", BExpr::Number(n))
}

fn string(s: &str) -> AyNode<BExpr> {
    node("string", BExpr::String(s.to_string()))
}

fn array(items: Vec<AyNode<BExpr>>) -> AyNode<BExpr> {
    node("array", BExpr::Array { items })
}

fn negated(inner: AyNode<BExpr>) -> AyNode<BExpr> {
    node("negation", BExpr::Negated(Box::new(inner)))
}

fn compared(left: AyNode<BExpr>, right: AyNode<BExpr>) -> AyNode<BExpr> {
    node(
        "comparison",
        BExpr::Comparison {
            left: Box::new(left),
            right: Box::new(right),
            operator: ComparisonOperator::Equals,
        },
    )
}

fn typed(e: AyNode<BExpr>) -> Result<TypedExpr, Trace> {
    let program = vec![AyNode { span: span("statement"), inner: BStatement::Expr(e) }];
    convert(&program).map(|mut statements| match statements.remove(0).inner {
        Statement::Expr(typed) => typed,
        other => panic!("not an expression: {:?}", other),
    })
}

fn failure(e: AyNode<BExpr>) -> (Stage, String, String) {
    let trace = typed(e).expect_err("the expression has no type");
    assert_eq!(trace.len(), 1);
    let (stage, detail) = trace.frame(0);
    (stage, detail.message().to_string(), detail.line().to_string())
}

#[test]
fn literals_have_their_types() {
    let n = typed(number(5)).unwrap();
    assert_eq!(n.expr_type, AyType::Number);
    assert_eq!(n.inner, Expr::Number(5));
    let s = typed(string("txt")).unwrap();
    assert_eq!(s.expr_type, AyType::String);
    assert_eq!(s.inner, Expr::String("txt".to_string()));
}

#[test]
fn an_array_of_two_numbers_is_an_array_of_numbers() {
    let t = typed(array(vec![number(1), number(2)])).unwrap();
    assert_eq!(t.expr_type, AyType::Array(Box::new(AyType::Number)));
    match t.inner {
        Expr::Array { items } => {
            assert_eq!(items.len(), 2);
            assert_eq!(items[0].expr_type, AyType::Number);
            assert_eq!(items[1].inner, Expr::Number(2));
        }
        other => panic!("not an array: {:?}", other),
    }
}

#[test]
fn an_array_has_the_type_of_its_first_item() {
    let t = typed(array(vec![string("a"), number(2)])).unwrap();
    assert_eq!(t.expr_type, AyType::Array(Box::new(AyType::String)));
    let nested = typed(array(vec![array(vec![number(1)])])).unwrap();
    assert_eq!(
        nested.expr_type,
        AyType::Array(Box::new(AyType::Array(Box::new(AyType::Number))))
    );
}

#[test]
fn an_empty_array_has_no_type() {
    let (stage, message, line) = failure(array(vec![]));
    assert_eq!(stage, Stage::Typing);
    assert_eq!(message, "Cannot defined empty arrays");
    assert_eq!(line, "array");
}

#[test]
fn the_items_of_an_array_are_typed_before_the_array() {
    let (_, message, line) = failure(array(vec![array(vec![])]));
    assert_eq!(message, "Cannot defined empty arrays");
    assert_eq!(line, "array");
    let (_, message, _) = failure(array(vec![number(1), negated(string("s"))]));
    assert_eq!(message, "Can only negate Number or Array, not String");
}

#[test]
fn two_numbers_compare_to_a_bool() {
    let t = typed(compared(number(1), number(2))).unwrap();
    assert_eq!(t.expr_type, AyType::Bool);
    match t.inner {
        Expr::Comparison { left, right, operator } => {
            assert_eq!(left.expr_type, AyType::Number);
            assert_eq!(right.inner, Expr::Number(2));
            assert_eq!(operator, ComparisonOperator::Equals);
        }
        other => panic!("not a comparison: {:?}", other),
    }
}

#[test]
fn a_number_and_a_string_do_not_compare() {
    let (stage, message, line) = failure(compared(number(1), string("s")));
    assert_eq!(stage, Stage::Typing);
    assert_eq!(message, "Cannot compare Number and String");
    assert_eq!(line, "comparison");
}

#[test]
fn arrays_compare_by_the_type_of_their_items() {
    assert!(typed(compared(array(vec![number(1)]), array(vec![number(2), number(3)]))).is_ok());
    let (_, message, _) = failure(compared(array(vec![number(1)]), array(vec![string("s")])));
    assert_eq!(message, "Cannot compare Array(Number) and Array(String)");
}

#[test]
fn the_left_side_of_a_comparison_fails_first() {
    let (_, message, _) = failure(compared(array(vec![]), negated(string("s"))));
    assert_eq!(message, "Cannot defined empty arrays");
}

#[test]
fn a_negated_number_is_a_number_and_a_negated_array_a_bool() {
    assert_eq!(typed(negated(number(1))).unwrap().expr_type, AyType::Number);
    assert_eq!(typed(negated(array(vec![string("s")]))).unwrap().expr_type, AyType::Bool);
    assert_eq!(typed(negated(negated(number(1)))).unwrap().expr_type, AyType::Number);
}

#[test]
fn nothing_else_is_negated() {
    let (stage, message, line) = failure(negated(string("s")));
    assert_eq!(stage, Stage::Typing);
    assert_eq!(message, "Can only negate Number or Array, not String");
    assert_eq!(line, "negation");
    let (_, message, _) = failure(negated(negated(array(vec![number(1)]))));
    assert_eq!(message, "Can only negate Number or Array, not Bool");
}

#[test]
fn a_variable_has_the_type_of_its_value() {
    let dec = Rc::new(BVarDec {
        names: vec!["a".to_string(), "b".to_string()],
        values: vec![number(1), string("s")],
    });
    let a = typed(node("a", BExpr::Var { dec: dec.clone(), name: "a".to_string() })).unwrap();
    assert_eq!(a.expr_type, AyType::Number);
    match &a.inner {
        Expr::Var { dec: kept, name } => {
            assert!(Rc::ptr_eq(kept, &dec));
            assert_eq!(name, "a");
        }
        other => panic!("not a variable: {:?}", other),
    }
    let b = typed(node("b", BExpr::Var { dec, name: "b".to_string() })).unwrap();
    assert_eq!(b.expr_type, AyType::String);
}

#[test]
fn a_parameter_has_no_type() {
    let dec = Rc::new(BVarDec::default());
    let (stage, message, line) = failure(node("x", BExpr::Var { dec, name: "x".to_string() }));
    assert_eq!(stage, Stage::Typing);
    assert_eq!(message, "Cannot infer the type of 'x'");
    assert_eq!(line, "x");
}

#[test]
fn a_call_has_no_type() {
    let dec = Rc::new(BFunDec { name: "t.aron".to_string(), ..Default::default() });
    let call = BExpr::FunCall {
        tense: Tense::Future,
        dec,
        name: "tayaron".to_string(),
        args: vec![array(vec![])],
    };
    let (stage, message, line) = failure(node("tayaron()", call));
    assert_eq!(stage, Stage::Typing);
    assert_eq!(message, "Cannot infer the result of 'tayaron'");
    assert_eq!(line, "tayaron()");
}

#[test]
fn statements_keep_their_shape_and_spans() {
    let parsed = vec![
        AyNode {
            span: Span::new("a = 1", Location::Span((1, 1), (1, 6))),
            inner: PStatement::VarDec {
                names: vec!["a".to_string()],
                values: vec![AyNode { span: span("1"), inner: PExpr::Number(1) }],
            },
        },
        AyNode {
            span: Span::new("f", Location::Span((2, 1), (4, 1))),
            inner: PStatement::FunDec {
                name: "f".to_string(),
                args: vec!["x".to_string()],
                body: vec![AyNode {
                    span: span("if"),
                    inner: PStatement::If {
                        cond: AyNode { span: span("a"), inner: PExpr::Ident("a".to_string()) },
                        then: vec![AyNode {
                            span: span("loop"),
                            inner: PStatement::Loop {
                                cond: Some(AyNode { span: span("2"), inner: PExpr::Number(2) }),
                                body: vec![],
                            },
                        }],
                        otherwise: vec![],
                    },
                }],
            },
        },
    ];
    let bound = bind(&parsed).unwrap();
    let typed = convert(&bound).unwrap();
    assert_eq!(typed.len(), 2);
    assert_eq!(typed[0].span, parsed[0].span);
    match &typed[0].inner {
        Statement::VarDec(dec) => {
            assert_eq!(dec.names, vec!["a".to_string()]);
            assert_eq!(dec.values[0].expr_type, AyType::Number);
        }
        other => panic!("not a declaration: {:?}", other),
    }
    assert_eq!(typed[1].span, parsed[1].span);
    match &typed[1].inner {
        Statement::FunDec(dec) => {
            assert_eq!(dec.name, "f");
            assert_eq!(dec.args.len(), 1);
            match &dec.body[0].inner {
                Statement::If { cond, then, otherwise } => {
                    assert_eq!(cond.expr_type, AyType::Number);
                    assert!(otherwise.is_empty());
                    match &then[0].inner {
                        Statement::Loop { cond: Some(cond), body } => {
                            assert_eq!(cond.expr_type, AyType::Number);
                            assert!(body.is_empty());
                        }
                        other => panic!("not a loop: {:?}", other),
                    }
                }
                other => panic!("not a conditional: {:?}", other),
            }
        }
        other => panic!("not a function: {:?}", other),
    }
}

#[test]
fn the_first_statement_without_a_type_ends_the_typing() {
    let program = vec![
        AyNode { span: span("first"), inner: BStatement::Expr(array(vec![])) },
        AyNode { span: span("second"), inner: BStatement::Expr(negated(string("s"))) },
    ];
    let trace = convert(&program).expect_err("the first statement has no type");
    assert_eq!(trace.len(), 1);
    assert_eq!(trace.frame(0).1.message(), "Cannot defined empty arrays");
}

#[test]
fn failures_are_worded_by_kind() {
    let undefined = Failure::UndefinedVariable {
        name: "a".to_string(),
        suggestion: Some("ab".to_string()),
    };
    assert_eq!(undefined.message(), "Undefined variable: 'a'. Maybe you meant: 'ab'?");
    let function = Failure::UndefinedFunction { name: "f".to_string(), suggestion: None };
    assert_eq!(function.message(), "Undefined function: 'f'");
    assert_eq!(Failure::EmptyArrayLiteral.message(), "Cannot defined empty arrays");
    let three = Failure::TypeMismatch {
        context: Operation::Comparison,
        types: vec![AyType::Bool, AyType::Number, AyType::String],
    };
    assert_eq!(three.message(), "Cannot compare Bool and Number and String");
    let none = Failure::TypeMismatch { context: Operation::Negation, types: vec![] };
    assert_eq!(none.message(), "Can only negate Number or Array, not ");
    let trace = function.raise(Stage::Binding, &Span::new("f()", Location::Pos((2, 3))));
    assert_eq!(trace.len(), 1);
    assert_eq!(trace.frame(0).0, Stage::Binding);
    assert_eq!(trace.frame(0).1.line(), "f()");
    assert_eq!(trace.frame(0).1.line_col(), Location::Pos((2, 3)));
    assert_eq!(trace.frame(0).1.message(), "Undefined function: 'f'");
}
