use aysinvi::ast::binding::{
    convert, match_function, tense, Expr, FunDec, Statement, Tense, VarDec,
};
use aysinvi::ast::lib::{AyNode, ComparisonOperator};
use aysinvi::ast::parsing::{Expr as PExpr, Statement as PStatement};
use aysinvi::error::span::{Location, Span};
use aysinvi::error::trace::{Stage, Trace, TraceError};
use aysinvi::scope::ScopeStack;
use aysinvi::suggest::{closest, suggest};
use std::rc::Rc;

fn span(text: &str, line: usize) -> Span {
    Span::new(text, Location::Span((line, 1), (line, 1 + text.len())))
}

fn ident(name: &str, line: usize) -> AyNode<PExpr> {
    AyNode { span: span(name, line), inner: PExpr::Ident(name.to_string()) }
}

fn number(n: i64, line: usize) -> AyNode<PExpr> {
    AyNode { span: span("n", line), inner: PExpr::Number(n) }
}

fn call(name: &str, args: Vec<AyNode<PExpr>>, line: usize) -> AyNode<PExpr> {
    AyNode { span: span(name, line), inner: PExpr::FunCall { name: name.to_string(), args } }
}

fn var_dec(names: &[&str], values: Vec<AyNode<PExpr>>, line: usize) -> AyNode<PStatement> {
    AyNode {
        span: span("var", line),
        inner: PStatement::VarDec {
            names: names.iter().map(|n| n.to_string()).collect(),
            values,
        },
    }
}

fn fun_dec(
    name: &str,
    args: &[&str],
    body: Vec<AyNode<PStatement>>,
    line: usize,
) -> AyNode<PStatement> {
    AyNode {
        span: span("fun", line),
        inner: PStatement::FunDec {
            name: name.to_string(),
            args: args.iter().map(|n| n.to_string()).collect(),
            body,
        },
    }
}

fn expr(e: AyNode<PExpr>, line: usize) -> AyNode<PStatement> {
    AyNode { span: span("expr", line), inner: PStatement::Expr(e) }
}

fn only_frame(trace: &Trace) -> (Stage, String, String, Location) {
    assert_eq!(trace.len(), 1);
    let (stage, detail) = trace.frame(0);
    (stage, detail.message().to_string(), detail.line().to_string(), detail.line_col())
}

fn function(name: &str) -> Rc<FunDec> {
    Rc::new(FunDec { name: name.to_owned(), ..Default::default() })
}

#[test]
fn test_match_function() {
    let mut funs = ScopeStack::<FunDec>::new();
    funs.push_layer();
    funs.define("scope".to_owned(), function("scope"));
    funs.push_layer();
    funs.define("t.aron".to_owned(), function("taron"));
    vec!["taron", "tìyaron", "tayaron"]
        .iter()
        .map(|name| (name, match_function(name, &funs)))
        .for_each(|(name, res)| assert!(res.is_some(), "Function not found: '{}'", name));
    funs.pop_layer();
    assert!(match_function("taron", &funs).is_none());
    funs.pop_layer();
}

#[test]
fn binding_test_match_function() {
    let mut funs = ScopeStack::<FunDec>::new();
    funs.push_layer();
    funs.define("scope".to_owned(), function("scope"));
    funs.push_layer();
    let declared = function("taron");
    funs.define("t.aron".to_owned(), declared.clone());
    let expected = [
        ("taron", Tense::Present),
        ("tìyaron", Tense::Imminent),
        ("tayaron", Tense::Future),
    ];
    for (name, tense) in expected {
        let (found, dec) = match_function(name, &funs).expect("the function is in scope");
        assert_eq!(found, tense);
        assert!(Rc::ptr_eq(&dec, &declared));
    }
    funs.pop_layer();
    assert!(match_function("taron", &funs).is_none());
    assert!(match_function("tìyaron", &funs).is_none());
    assert!(match_function("tayaron", &funs).is_none());
    funs.pop_layer();
}

#[test]
fn a_split_name_is_spelled_in_three_tenses_and_no_other_way() {
    assert_eq!(tense("t.aron", "taron"), Some(Tense::Present));
    assert_eq!(tense("t.aron", "tìyaron"), Some(Tense::Imminent));
    assert_eq!(tense("t.aron", "tayaron"), Some(Tense::Future));
    assert_eq!(tense("t.aron", "t.aron"), None);
    assert_eq!(tense("t.aron", "tiyaron"), None);
    assert_eq!(tense("t.aron", "taronay"), None);
    assert_eq!(tense("t.aron", ""), None);
}

#[test]
fn a_name_without_separator_is_spelled_by_itself_alone() {
    assert_eq!(tense("scope", "scope"), Some(Tense::Present));
    assert_eq!(tense("scope", "sìycope"), None);
    assert_eq!(tense("scope", "saycope"), None);
    assert_eq!(tense("scope", "scopeay"), None);
    assert_eq!(tense("scope", "scop"), None);
}

#[test]
fn a_name_is_split_at_its_first_separator() {
    assert_eq!(tense("a.b.c", "ab.c"), Some(Tense::Present));
    assert_eq!(tense("a.b.c", "aìyb.c"), Some(Tense::Imminent));
    assert_eq!(tense("a.b.c", "aayb.c"), Some(Tense::Future));
    assert_eq!(tense("a.b.c", "abc"), None);
    assert_eq!(tense(".ay", "ay"), Some(Tense::Present));
    assert_eq!(tense(".ay", "ayay"), Some(Tense::Future));
    assert_eq!(tense("ay.", "ay"), Some(Tense::Present));
}

#[test]
fn the_innermost_match_comes_first() {
    let mut funs = ScopeStack::<FunDec>::new();
    let outer = function("outer");
    let inner = function("inner");
    funs.define("t.aron".to_owned(), outer.clone());
    funs.push_layer();
    funs.define("taron".to_owned(), inner.clone());
    let (found, dec) = match_function("taron", &funs).unwrap();
    assert_eq!(found, Tense::Present);
    assert!(Rc::ptr_eq(&dec, &inner));
    let (found, dec) = match_function("tayaron", &funs).unwrap();
    assert_eq!(found, Tense::Future);
    assert!(Rc::ptr_eq(&dec, &outer));
    funs.pop_layer();
    let (_, dec) = match_function("taron", &funs).unwrap();
    assert!(Rc::ptr_eq(&dec, &outer));
}

#[test]
fn within_a_layer_the_earlier_declaration_matches_first() {
    let mut funs = ScopeStack::<FunDec>::new();
    let split = function("split");
    let plain = function("plain");
    funs.define("t.aron".to_owned(), split.clone());
    funs.define("taron".to_owned(), plain.clone());
    let (_, dec) = match_function("taron", &funs).unwrap();
    assert!(Rc::ptr_eq(&dec, &split));
}

#[test]
fn a_program_that_declares_before_use_binds_to_the_same_shape() {
    let program = vec![
        var_dec(&["a", "b"], vec![number(1, 1), number(2, 1)], 1),
        fun_dec(
            "t.aron",
            &["x"],
            vec![expr(ident("x", 3), 3), expr(ident("a", 4), 4)],
            2,
        ),
        expr(call("tìyaron", vec![ident("b", 5)], 5), 5),
    ];
    let bound = convert(&program).expect("every name is declared");
    assert_eq!(bound.len(), 3);
    let declared = match &bound[0].inner {
        Statement::VarDec(dec) => {
            assert_eq!(dec.names, vec!["a".to_string(), "b".to_string()]);
            assert_eq!(dec.values.len(), 2);
            assert_eq!(dec.values[0].inner, Expr::Number(1));
            assert_eq!(dec.values[1].inner, Expr::Number(2));
            dec.clone()
        }
        other => panic!("not a declaration of variables: {:?}", other),
    };
    assert_eq!(bound[0].span, program[0].span);
    let function = match &bound[1].inner {
        Statement::FunDec(dec) => {
            assert_eq!(dec.name, "t.aron");
            assert_eq!(dec.args.len(), 1);
            assert_eq!(*dec.args[0], VarDec::default());
            assert_eq!(dec.body.len(), 2);
            match &dec.body[0].inner {
                Statement::Expr(AyNode { inner: Expr::Var { dec: param, name }, .. }) => {
                    assert_eq!(name, "x");
                    assert!(Rc::ptr_eq(param, &dec.args[0]));
                }
                other => panic!("not a variable: {:?}", other),
            }
            match &dec.body[1].inner {
                Statement::Expr(AyNode { inner: Expr::Var { dec: outer, name }, .. }) => {
                    assert_eq!(name, "a");
                    assert!(Rc::ptr_eq(outer, &declared));
                }
                other => panic!("not a variable: {:?}", other),
            }
            dec.clone()
        }
        other => panic!("not a declaration of a function: {:?}", other),
    };
    match &bound[2].inner {
        Statement::Expr(AyNode { span, inner: Expr::FunCall { tense, dec, name, args } }) => {
            assert_eq!(*span, Span::new("tìyaron", Location::Span((5, 1), (5, 9))));
            assert_eq!(*tense, Tense::Imminent);
            assert!(Rc::ptr_eq(dec, &function));
            assert_eq!(name, "tìyaron");
            assert_eq!(args.len(), 1);
            match &args[0].inner {
                Expr::Var { dec, name } => {
                    assert_eq!(name, "b");
                    assert!(Rc::ptr_eq(dec, &declared));
                }
                other => panic!("not a variable: {:?}", other),
            }
        }
        other => panic!("not a call: {:?}", other),
    }
}

#[test]
fn every_kind_of_expression_keeps_its_shape() {
    let program = vec![
        var_dec(&["a"], vec![number(7, 1)], 1),
        expr(
            AyNode {
                span: span("cmp", 2),
                inner: PExpr::Comparison {
                    left: Box::new(AyNode {
                        span: span("neg", 2),
                        inner: PExpr::Negated(Box::new(ident("a", 2))),
                    }),
                    right: Box::new(AyNode {
                        span: span("arr", 2),
                        inner: PExpr::Array {
                            items: vec![
                                AyNode {
                                    span: span("san txt sìk", 2),
                                    inner: PExpr::String("san txt sìk".to_string()),
                                },
                                number(3, 2),
                            ],
                        },
                    }),
                    operator: ComparisonOperator::Equals,
                },
            },
            2,
        ),
    ];
    let bound = convert(&program).expect("every name is declared");
    match &bound[1].inner {
        Statement::Expr(AyNode { inner: Expr::Comparison { left, right, operator }, .. }) => {
            assert_eq!(*operator, ComparisonOperator::Equals);
            match &left.inner {
                Expr::Negated(inner) => assert!(matches!(&inner.inner, Expr::Var { name, .. } if name == "a")),
                other => panic!("not a negation: {:?}", other),
            }
            match &right.inner {
                Expr::Array { items } => {
                    assert_eq!(items.len(), 2);
                    assert_eq!(items[0].inner, Expr::String("san txt sìk".to_string()));
                    assert_eq!(items[1].inner, Expr::Number(3));
                }
                other => panic!("not an array: {:?}", other),
            }
        }
        other => panic!("not a comparison: {:?}", other),
    }
}

#[test]
fn an_undefined_variable_is_named_in_the_message() {
    let program = vec![expr(ident("xyz", 4), 4)];
    let trace = convert(&program).expect_err("xyz is not declared");
    let (stage, message, line, place) = only_frame(&trace);
    assert_eq!(stage, Stage::Binding);
    assert_eq!(message, "Undefined variable: 'xyz'");
    assert_eq!(line, "xyz");
    assert_eq!(place, Location::Span((4, 1), (4, 4)));
}

#[test]
fn a_close_name_is_proposed() {
    let program = vec![
        var_dec(&["counter"], vec![number(0, 1)], 1),
        expr(ident("countr", 2), 2),
    ];
    let trace = convert(&program).expect_err("countr is not declared");
    let (_, message, _, _) = only_frame(&trace);
    assert_eq!(message, "Undefined variable: 'countr'. Maybe you meant: 'counter'?");
}

#[test]
fn a_far_name_is_not_proposed() {
    let program = vec![var_dec(&["ab"], vec![number(0, 1)], 1), expr(ident("xyz", 2), 2)];
    let trace = convert(&program).expect_err("xyz is not declared");
    let (_, message, _, _) = only_frame(&trace);
    assert_eq!(message, "Undefined variable: 'xyz'");
}

#[test]
fn a_proposed_function_loses_its_separator() {
    let program = vec![fun_dec("t.aron", &[], vec![], 1), expr(call("tarn", vec![], 2), 2)];
    let trace = convert(&program).expect_err("tarn spells no function");
    let (stage, message, _, _) = only_frame(&trace);
    assert_eq!(stage, Stage::Binding);
    assert_eq!(message, "Undefined function: 'tarn'. Maybe you meant: 'taron'?");
}

#[test]
fn the_threshold_counts_the_bytes_of_the_candidate() {
    let mut vars = ScopeStack::<VarDec>::new();
    vars.define("ìì".to_owned(), Rc::new(VarDec::default()));
    // Two characters away from a name of two characters, which takes four bytes.
    assert_eq!(suggest(&vars, "ab"), None);
    // One character away: twice one is less than four.
    assert_eq!(suggest(&vars, "ìb"), Some("ìì".to_string()));
    let mut short = ScopeStack::<VarDec>::new();
    short.define("ab".to_owned(), Rc::new(VarDec::default()));
    // One character away from a name of two bytes: twice one is not less than two.
    assert_eq!(suggest(&short, "ax"), None);
    assert_eq!(closest(&short, "ax"), "");
    assert_eq!(closest(&vars, "ìb"), ". Maybe you meant: 'ìì'?");
}

#[test]
fn the_first_of_the_closest_names_is_proposed() {
    let mut vars = ScopeStack::<VarDec>::new();
    vars.define("abcd1".to_owned(), Rc::new(VarDec::default()));
    vars.define("abcd2".to_owned(), Rc::new(VarDec::default()));
    assert_eq!(suggest(&vars, "abcd"), Some("abcd1".to_string()));
    vars.push_layer();
    vars.define("abcd3".to_owned(), Rc::new(VarDec::default()));
    assert_eq!(suggest(&vars, "abcd"), Some("abcd3".to_string()));
    vars.define("abcd".to_owned(), Rc::new(VarDec::default()));
    assert_eq!(suggest(&vars, "abcd"), Some("abcd".to_string()));
}

#[test]
fn only_the_closest_name_is_weighed() {
    let mut vars = ScopeStack::<VarDec>::new();
    vars.define("ab".to_owned(), Rc::new(VarDec::default()));
    vars.define("abcdefxxxxx".to_owned(), Rc::new(VarDec::default()));
    // "ab" is the closest, at distance four, and too short to be proposed;
    // the other name is at distance five and would have been near enough.
    assert_eq!(suggest(&vars, "abcdef"), None);
}

#[test]
fn nothing_is_proposed_where_nothing_is_visible() {
    let vars = ScopeStack::<VarDec>::new();
    assert_eq!(suggest(&vars, "a"), None);
    assert_eq!(closest(&vars, "a"), "");
}

#[test]
fn a_function_cannot_call_itself() {
    let program = vec![fun_dec("f", &[], vec![expr(call("f", vec![], 2), 2)], 1)];
    let trace = convert(&program).expect_err("f is not defined inside its body");
    let (stage, message, line, _) = only_frame(&trace);
    assert_eq!(stage, Stage::Binding);
    assert_eq!(message, "Undefined function: 'f'");
    assert_eq!(line, "f");
}

#[test]
fn a_function_can_be_called_after_its_declaration() {
    let program = vec![fun_dec("f", &[], vec![], 1), expr(call("f", vec![], 2), 2)];
    assert!(convert(&program).is_ok());
}

#[test]
fn only_the_first_failure_is_reported() {
    let program = vec![var_dec(&["a", "b"], vec![ident("x", 1), ident("y", 1)], 1)];
    let trace = convert(&program).expect_err("neither x nor y is declared");
    let (_, message, _, _) = only_frame(&trace);
    assert_eq!(message, "Undefined variable: 'x'");
}

#[test]
fn a_call_is_resolved_before_its_arguments() {
    let program = vec![expr(call("f", vec![ident("x", 1)], 1), 1)];
    let trace = convert(&program).expect_err("f is not declared");
    let (_, message, _, _) = only_frame(&trace);
    assert_eq!(message, "Undefined function: 'f'");
}

#[test]
fn a_value_cannot_use_the_name_that_it_defines() {
    let program = vec![var_dec(&["a"], vec![ident("a", 1)], 1)];
    let trace = convert(&program).expect_err("a is defined after its value is bound");
    let (_, message, _, _) = only_frame(&trace);
    assert_eq!(message, "Undefined variable: 'a'");
}

#[test]
fn parameters_are_visible_in_the_body_only() {
    let inside = vec![fun_dec("f", &["x"], vec![expr(ident("x", 2), 2)], 1)];
    assert!(convert(&inside).is_ok());
    let outside = vec![fun_dec("f", &["x"], vec![], 1), expr(ident("x", 2), 2)];
    let trace = convert(&outside).expect_err("x is a parameter of f");
    assert_eq!(only_frame(&trace).1, "Undefined variable: 'x'");
}

#[test]
fn a_block_keeps_its_names_to_itself() {
    let branch = |then: Vec<AyNode<PStatement>>, otherwise: Vec<AyNode<PStatement>>| AyNode {
        span: span("if", 1),
        inner: PStatement::If { cond: number(1, 1), then, otherwise },
    };
    let leaking = vec![
        branch(vec![var_dec(&["a"], vec![number(1, 2)], 2)], vec![expr(ident("a", 3), 3)]),
    ];
    let trace = convert(&leaking).expect_err("a belongs to the first branch");
    assert_eq!(only_frame(&trace).1, "Undefined variable: 'a'");
    let after = vec![
        AyNode {
            span: span("loop", 1),
            inner: PStatement::Loop {
                cond: None,
                body: vec![var_dec(&["a"], vec![number(1, 2)], 2), expr(ident("a", 3), 3)],
            },
        },
        expr(ident("a", 4), 4),
    ];
    let trace = convert(&after).expect_err("a belongs to the loop");
    let (_, message, _, place) = only_frame(&trace);
    assert_eq!(message, "Undefined variable: 'a'");
    assert_eq!(place, Location::Span((4, 1), (4, 2)));
}

#[test]
fn a_condition_is_bound_outside_its_block() {
    let program = vec![
        var_dec(&["a"], vec![number(1, 1)], 1),
        AyNode {
            span: span("loop", 2),
            inner: PStatement::Loop {
                cond: Some(ident("a", 2)),
                body: vec![var_dec(&["a"], vec![ident("a", 3)], 3)],
            },
        },
    ];
    let bound = convert(&program).expect("a is declared outside the loop");
    let outer = match &bound[0].inner {
        Statement::VarDec(dec) => dec.clone(),
        other => panic!("not a declaration: {:?}", other),
    };
    match &bound[1].inner {
        Statement::Loop { cond: Some(cond), body } => {
            assert!(matches!(&cond.inner, Expr::Var { dec, .. } if Rc::ptr_eq(dec, &outer)));
            match &body[0].inner {
                Statement::VarDec(inner) => {
                    assert!(matches!(&inner.values[0].inner, Expr::Var { dec, .. } if Rc::ptr_eq(dec, &outer)));
                }
                other => panic!("not a declaration: {:?}", other),
            }
        }
        other => panic!("not a loop: {:?}", other),
    }
}

#[test]
fn an_empty_program_binds_to_an_empty_program() {
    assert_eq!(convert(&vec![]).expect("nothing to bind").len(), 0);
}
