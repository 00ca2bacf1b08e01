use aysinvi::ast::lib::{AyNode, ComparisonOperator};
use aysinvi::ast::parsing::{Expr, Statement};
use aysinvi::error::span::{Location, Span};
use aysinvi::error::trace::{Stage, Trace, TraceError};
use aysinvi::parsing::{
    build_ast_from_expr, build_ast_from_statement, handle, handle_iter, import_path, parse_pair,
    read_octal, words_of, Pair, Rule, Step,
};
use aysinvi::text::{chars_of, string_of};

fn pair(rule: Rule, text: &str, inner: Vec<Pair>) -> Pair {
    Pair {
        rule,
        span: Span::new(text, Location::Span((1, 1), (1, 1 + text.chars().count()))),
        place: Span::new("the whole line", Location::Span((1, 1), (1, 3))),
        inner,
    }
}

fn leaf(rule: Rule, text: &str) -> Pair {
    pair(rule, text, vec![])
}

fn frames(trace: &Trace) -> Vec<(Stage, String, String)> {
    (0..trace.len())
        .map(|i| {
            let (stage, detail) = trace.frame(i);
            (stage, detail.message().to_string(), detail.line().to_string())
        })
        .collect()
}

fn frame(stage: Stage, message: &str, line: &str) -> (Stage, String, String) {
    (stage, message.to_string(), line.to_string())
}

fn number(text: &str) -> Result<i64, Trace> {
    build_ast_from_expr(&leaf(Rule::Number, text)).map(|node| match node.inner {
        Expr::Number(n) => n,
        other => panic!("not a number: {:?}", other),
    })
}

#[test]
fn numbers_are_read_in_base_eight() {
    assert_eq!(read_octal("0"), Some(0));
    assert_eq!(read_octal("17"), Some(15));
    assert_eq!(read_octal("+17"), Some(15));
    assert_eq!(read_octal("-17"), Some(-15));
    assert_eq!(read_octal("0007"), Some(7));
    assert_eq!(read_octal("777777777777777777777"), Some(i64::MAX));
    assert_eq!(read_octal("-1000000000000000000000"), Some(i64::MIN));
    assert_eq!(read_octal("1000000000000000000000"), None);
    assert_eq!(read_octal("-1000000000000000000001"), None);
    assert_eq!(read_octal("8"), None);
    assert_eq!(read_octal(""), None);
    assert_eq!(read_octal("-"), None);
    assert_eq!(read_octal("+"), None);
    assert_eq!(read_octal("+-1"), None);
    assert_eq!(read_octal("1_0"), None);
    assert_eq!(read_octal(" 1"), None);
}

#[test]
fn reading_in_base_eight_agrees_with_the_standard_library() {
    let samples = [
        "", "0", "7", "8", "10", "-10", "+10", "--1", "0x7", "１", "12345670", "-0", "+0", "00000000000000000000000000017",
        "777777777777777777777", "777777777777777777778", "1000000000000000000000",
        "-777777777777777777777", "-1000000000000000000000", "-1000000000000000000001",
        "7777777777777777777777", "1777777777777777777777", "-7777777777777777777777777",
        "1 ", "a", "-a", "+", "-", "٣",
    ];
    for sample in samples {
        assert_eq!(read_octal(sample), i64::from_str_radix(sample, 8).ok(), "{:?}", sample);
    }
}

#[test]
fn words_are_what_stands_between_white_space() {
    let samples = ["", " ", "a", " a", "a ", "a b", "  ab \t cd\u{a0}e\n", "17 melo", "a\u{3000}b"];
    for sample in samples {
        let found: Vec<String> = words_of(&chars_of(sample)).iter().map(string_of).collect();
        let expected: Vec<String> = sample.split_whitespace().map(str::to_string).collect();
        assert_eq!(found, expected, "{:?}", sample);
    }
}

#[test]
fn a_number_may_be_multiplied() {
    assert_eq!(number("17").unwrap(), 15);
    assert_eq!(number("17 melo").unwrap(), 30);
    assert_eq!(number("17\tpxelo").unwrap(), 45);
    assert_eq!(number(" 17 melo and more").unwrap(), 30);
    assert_eq!(number("-4 pxelo").unwrap(), -12);
}

#[test]
fn a_number_that_cannot_be_read_is_reported() {
    let trace = number("18").unwrap_err();
    assert_eq!(frames(&trace), vec![frame(Stage::Parsing, "expected number", "the whole line")]);
    assert_eq!(trace.frame(0).1.line_col(), Location::Span((1, 1), (1, 3)));
    let trace = number("").unwrap_err();
    assert_eq!(frames(&trace), vec![frame(Stage::Parsing, "expected number", "the whole line")]);
    let trace = number("777777777777777777777 melo").unwrap_err();
    assert_eq!(frames(&trace), vec![frame(Stage::Parsing, "expected number", "the whole line")]);
}

#[test]
fn an_unknown_multiplier_is_reported_before_the_number() {
    let trace = number("19 tsìng").unwrap_err();
    assert_eq!(
        frames(&trace),
        vec![frame(Stage::Parsing, "Unimplemented multiplier: `tsìng`", "the whole line")]
    );
}

#[test]
fn texts_become_strings_and_identifiers() {
    let s = build_ast_from_expr(&leaf(Rule::String, "san a sìk")).unwrap();
    assert_eq!(s.inner, Expr::String("san a sìk".to_string()));
    assert_eq!(s.span, Span::new("san a sìk", Location::Span((1, 1), (1, 10))));
    let i = build_ast_from_expr(&leaf(Rule::Ident, "a")).unwrap();
    assert_eq!(i.inner, Expr::Ident("a".to_string()));
    let f = build_ast_from_expr(&leaf(Rule::FunIdent, "taron")).unwrap();
    assert_eq!(f.inner, Expr::Ident("taron".to_string()));
}

#[test]
fn an_expr_stands_for_its_first_part() {
    let tree = pair(Rule::Expr, "a b", vec![leaf(Rule::Ident, "a"), leaf(Rule::Ident, "b")]);
    assert_eq!(build_ast_from_expr(&tree).unwrap().inner, Expr::Ident("a".to_string()));
    let trace = build_ast_from_expr(&leaf(Rule::Expr, "")).unwrap_err();
    assert_eq!(frames(&trace), vec![frame(Stage::Parsing, "expected expr", "the whole line")]);
}

#[test]
fn a_call_holds_its_name_and_its_arguments() {
    let tree = pair(
        Rule::FunCall,
        "taron a 7",
        vec![leaf(Rule::FunIdent, "taron"), leaf(Rule::Ident, "a"), leaf(Rule::Number, "7")],
    );
    match build_ast_from_expr(&tree).unwrap().inner {
        Expr::FunCall { name, args } => {
            assert_eq!(name, "taron");
            assert_eq!(args.len(), 2);
            assert_eq!(args[0].inner, Expr::Ident("a".to_string()));
            assert_eq!(args[1].inner, Expr::Number(7));
        }
        other => panic!("not a call: {:?}", other),
    }
    let bare = pair(Rule::FunCall, "taron", vec![leaf(Rule::FunIdent, "taron")]);
    assert!(matches!(build_ast_from_expr(&bare).unwrap().inner, Expr::FunCall { args, .. } if args.is_empty()));
    let trace = build_ast_from_expr(&leaf(Rule::FunCall, "")).unwrap_err();
    assert_eq!(frames(&trace), vec![frame(Stage::Parsing, "expected fun_call", "the whole line")]);
}

#[test]
fn a_failure_inside_a_part_gets_the_frame_of_the_pair_around_it() {
    let tree = pair(
        Rule::FunCall,
        "taron 9",
        vec![leaf(Rule::FunIdent, "taron"), leaf(Rule::Number, "7"), leaf(Rule::Number, "9")],
    );
    let trace = build_ast_from_expr(&tree).unwrap_err();
    assert_eq!(
        frames(&trace),
        vec![
            frame(Stage::Parsing, "expected number", "the whole line"),
            frame(Stage::Parsing, "expected fun_call", "the whole line"),
        ]
    );
    let nested = pair(Rule::Negation, "ke ke 9", vec![pair(Rule::Negation, "ke 9", vec![leaf(Rule::Number, "9")])]);
    let trace = build_ast_from_expr(&nested).unwrap_err();
    assert_eq!(
        frames(&trace),
        vec![
            frame(Stage::Parsing, "expected number", "the whole line"),
            frame(Stage::Parsing, "expected negation", "the whole line"),
            frame(Stage::Parsing, "expected negation", "the whole line"),
        ]
    );
}

#[test]
fn an_array_holds_its_items_in_one_part() {
    let tree = pair(
        Rule::Array,
        "1 2",
        vec![pair(Rule::Other("items".to_string()), "1 2", vec![leaf(Rule::Number, "1"), leaf(Rule::Number, "2")])],
    );
    match build_ast_from_expr(&tree).unwrap().inner {
        Expr::Array { items } => {
            assert_eq!(items.len(), 2);
            assert_eq!(items[1].inner, Expr::Number(2));
        }
        other => panic!("not an array: {:?}", other),
    }
    let trace = build_ast_from_expr(&leaf(Rule::Array, "")).unwrap_err();
    assert_eq!(frames(&trace), vec![frame(Stage::Parsing, "expected array", "the whole line")]);
}

#[test]
fn a_comparison_holds_two_sides_and_a_word() {
    let tree = |word: &str, parts: usize| {
        let mut inner = vec![leaf(Rule::Number, "1"), leaf(Rule::Number, "2"), leaf(Rule::Other("op".to_string()), word)];
        inner.truncate(parts);
        pair(Rule::Comparison, "1 2 word", inner)
    };
    match build_ast_from_expr(&tree("teng", 3)).unwrap().inner {
        Expr::Comparison { left, right, operator } => {
            assert_eq!(left.inner, Expr::Number(1));
            assert_eq!(right.inner, Expr::Number(2));
            assert_eq!(operator, ComparisonOperator::Equals);
        }
        other => panic!("not a comparison: {:?}", other),
    }
    let trace = build_ast_from_expr(&tree("to", 3)).unwrap_err();
    assert_eq!(
        frames(&trace),
        vec![frame(Stage::Parsing, "Unimplemented comparison operator: `to`", "1 2 word")]
    );
    assert_eq!(trace.frame(0).1.line_col(), Location::Span((1, 1), (1, 9)));
    let trace = build_ast_from_expr(&tree("teng", 2)).unwrap_err();
    assert_eq!(frames(&trace), vec![frame(Stage::Parsing, "expected comparison", "the whole line")]);
}

#[test]
fn a_rule_that_is_no_expression_is_reported() {
    let trace = build_ast_from_expr(&leaf(Rule::VarDec, "x")).unwrap_err();
    assert_eq!(
        frames(&trace),
        vec![frame(Stage::AstBuilding, "Missing expression-generating rule `var_dec` handling", "the whole line")]
    );
    let trace = build_ast_from_expr(&leaf(Rule::Other("block".to_string()), "x")).unwrap_err();
    assert_eq!(
        frames(&trace)[0].1,
        "Missing expression-generating rule `block` handling"
    );
}

#[test]
fn a_function_holds_its_name_its_parameters_and_its_body() {
    let block = |statements: Vec<Pair>| pair(Rule::Other("block".to_string()), "...", statements);
    let args = pair(Rule::Other("args".to_string()), "x y", vec![leaf(Rule::Ident, "x"), leaf(Rule::Ident, "y")]);
    let body = block(vec![pair(Rule::Statement, "x", vec![pair(Rule::Expr, "x", vec![leaf(Rule::Ident, "x")])])]);
    let full = pair(Rule::FunDec, "f x y ...", vec![leaf(Rule::FunIdent, "t.aron"), args, body]);
    match build_ast_from_statement(&full).unwrap().inner {
        Statement::FunDec { name, args, body } => {
            assert_eq!(name, "t.aron");
            assert_eq!(args, vec!["x".to_string(), "y".to_string()]);
            assert_eq!(body.len(), 1);
            assert!(matches!(&body[0].inner, Statement::Expr(AyNode { inner: Expr::Ident(name), .. }) if name == "x"));
        }
        other => panic!("not a function: {:?}", other),
    }
    let without_args = pair(Rule::FunDec, "f ...", vec![leaf(Rule::FunIdent, "f"), block(vec![leaf(Rule::Expr, "")])]);
    let trace = build_ast_from_statement(&without_args).unwrap_err();
    assert_eq!(
        frames(&trace),
        vec![
            frame(Stage::Parsing, "expected expr", "the whole line"),
            frame(Stage::Parsing, "expected expr", "the whole line"),
            frame(Stage::Parsing, "expected fun_dec", "the whole line"),
        ]
    );
    let name_only = pair(Rule::FunDec, "f", vec![leaf(Rule::FunIdent, "f")]);
    match build_ast_from_statement(&name_only).unwrap().inner {
        Statement::FunDec { name, args, body } => {
            assert_eq!(name, "f");
            assert!(args.is_empty());
            assert!(body.is_empty());
        }
        other => panic!("not a function: {:?}", other),
    }
    assert!(build_ast_from_statement(&leaf(Rule::FunDec, "")).is_err());
}

#[test]
fn a_declaration_holds_as_many_values_as_names() {
    let tree = pair(
        Rule::VarDec,
        "a b 1 2",
        vec![leaf(Rule::Ident, "a"), leaf(Rule::Number, "1"), leaf(Rule::Ident, "b"), leaf(Rule::String, "s")],
    );
    match build_ast_from_statement(&tree).unwrap().inner {
        Statement::VarDec { names, values } => {
            assert_eq!(names, vec!["a".to_string(), "b".to_string()]);
            assert_eq!(values.len(), 2);
            assert_eq!(values[0].inner, Expr::Number(1));
            assert_eq!(values[1].inner, Expr::String("s".to_string()));
        }
        other => panic!("not a declaration: {:?}", other),
    }
    let uneven = pair(Rule::VarDec, "a b 9", vec![leaf(Rule::Ident, "a"), leaf(Rule::Ident, "b"), leaf(Rule::Number, "9")]);
    let trace = build_ast_from_statement(&uneven).unwrap_err();
    assert_eq!(frames(&trace), vec![frame(Stage::Parsing, "expected var_dec", "the whole line")]);
    let failing = pair(Rule::VarDec, "a 9", vec![leaf(Rule::Ident, "a"), leaf(Rule::Number, "9")]);
    let trace = build_ast_from_statement(&failing).unwrap_err();
    assert_eq!(frames(&trace), vec![frame(Stage::Parsing, "expected number", "the whole line")]);
    let empty = build_ast_from_statement(&leaf(Rule::VarDec, "")).unwrap();
    assert!(matches!(empty.inner, Statement::VarDec { names, values } if names.is_empty() && values.is_empty()));
}

#[test]
fn a_conditional_may_have_a_second_branch() {
    let block = |statements: Vec<Pair>| pair(Rule::Other("block".to_string()), "...", statements);
    let one = pair(Rule::IfBlock, "if", vec![leaf(Rule::Number, "1"), block(vec![leaf(Rule::VarDec, "")])]);
    match build_ast_from_statement(&one).unwrap().inner {
        Statement::If { cond, then, otherwise } => {
            assert_eq!(cond.inner, Expr::Number(1));
            assert_eq!(then.len(), 1);
            assert!(otherwise.is_empty());
        }
        other => panic!("not a conditional: {:?}", other),
    }
    let two = pair(
        Rule::IfBlock,
        "if",
        vec![leaf(Rule::Number, "1"), block(vec![]), block(vec![leaf(Rule::VarDec, ""), leaf(Rule::VarDec, "")])],
    );
    assert!(matches!(build_ast_from_statement(&two).unwrap().inner, Statement::If { then, otherwise, .. } if then.is_empty() && otherwise.len() == 2));
    let bad_condition = pair(Rule::IfBlock, "if", vec![leaf(Rule::Number, "9"), block(vec![])]);
    let trace = build_ast_from_statement(&bad_condition).unwrap_err();
    assert_eq!(frames(&trace), vec![frame(Stage::Parsing, "expected number", "the whole line")]);
    let trace = build_ast_from_statement(&pair(Rule::IfBlock, "if", vec![leaf(Rule::Number, "1")])).unwrap_err();
    assert_eq!(frames(&trace), vec![frame(Stage::Parsing, "expected if_block", "the whole line")]);
}

#[test]
fn a_loop_may_have_a_condition() {
    let block = |statements: Vec<Pair>| pair(Rule::Other("block".to_string()), "...", statements);
    let endless = pair(Rule::LoopBlock, "loop", vec![block(vec![leaf(Rule::VarDec, "")])]);
    assert!(matches!(build_ast_from_statement(&endless).unwrap().inner, Statement::Loop { cond: None, body } if body.len() == 1));
    let guarded = pair(Rule::LoopBlock, "loop", vec![leaf(Rule::Ident, "a"), block(vec![])]);
    assert!(matches!(build_ast_from_statement(&guarded).unwrap().inner, Statement::Loop { cond: Some(cond), body } if cond.inner == Expr::Ident("a".to_string()) && body.is_empty()));
    let bad_condition = pair(Rule::LoopBlock, "loop", vec![leaf(Rule::Number, "9"), block(vec![])]);
    let trace = build_ast_from_statement(&bad_condition).unwrap_err();
    assert_eq!(
        frames(&trace),
        vec![
            frame(Stage::Parsing, "expected number", "the whole line"),
            frame(Stage::Parsing, "expected loop_block", "the whole line"),
        ]
    );
    assert!(build_ast_from_statement(&leaf(Rule::LoopBlock, "")).is_err());
}

#[test]
fn a_rule_that_is_no_statement_is_reported() {
    let trace = build_ast_from_statement(&leaf(Rule::Number, "1")).unwrap_err();
    assert_eq!(
        frames(&trace),
        vec![frame(Stage::AstBuilding, "Missing statement-generating rule `number` handling", "the whole line")]
    );
    let wrapped = pair(Rule::Statement, "1", vec![leaf(Rule::Number, "1")]);
    assert_eq!(frames(&build_ast_from_statement(&wrapped).unwrap_err()).len(), 1);
    assert!(build_ast_from_statement(&leaf(Rule::Statement, "")).is_err());
}

#[test]
fn handle_adds_a_frame_to_failures_only() {
    let parent = leaf(Rule::Array, "x");
    assert_eq!(handle(&parent, Ok::<i64, Trace>(3)).unwrap(), 3);
    let failed = build_ast_from_expr(&leaf(Rule::Number, "9"));
    let trace = handle(&parent, failed).unwrap_err();
    assert_eq!(trace.len(), 2);
    assert_eq!(trace.frame(1).1.message(), "expected array");
    let items = vec![leaf(Rule::Number, "1"), leaf(Rule::Number, "2"), leaf(Rule::Number, "3")];
    assert_eq!(handle_iter(&parent, &items, 0).unwrap().len(), 3);
    assert_eq!(handle_iter(&parent, &items, 2).unwrap().len(), 1);
    assert_eq!(handle_iter(&parent, &items, 3).unwrap().len(), 0);
    assert_eq!(handle_iter(&parent, &items, 7).unwrap().len(), 0);
}

#[test]
fn the_top_of_a_program_holds_statements_imports_and_the_end() {
    let statement = pair(Rule::Statement, "a", vec![pair(Rule::Expr, "a", vec![leaf(Rule::Ident, "a")])]);
    assert!(matches!(parse_pair(&statement, false).unwrap(), Step::Statement(node) if matches!(&node.inner, Statement::Expr(_))));
    assert_eq!(parse_pair(&leaf(Rule::EOI, ""), false).unwrap(), Step::Nothing);
    assert_eq!(parse_pair(&leaf(Rule::ModUse, "x"), true).unwrap(), Step::Module);
    let trace = parse_pair(&leaf(Rule::ModUse, "x"), false).unwrap_err();
    assert_eq!(
        frames(&trace),
        vec![frame(Stage::AstBuilding, "Missing script directory information", "the whole line")]
    );
    let trace = parse_pair(&leaf(Rule::Ident, "x"), true).unwrap_err();
    assert_eq!(frames(&trace), vec![frame(Stage::Unknown, "Unknown rule: ident", "the whole line")]);
}

#[test]
fn an_import_names_directories_and_a_file() {
    let import = pair(
        Rule::ModUse,
        "...",
        vec![leaf(Rule::Possessive, "kelkuyä"), leaf(Rule::Possessive, "sempulä"), leaf(Rule::Ident, "meuia")],
    );
    assert_eq!(import_path(&import), Some("kelku/sempul/meuia.ay".to_string()));
    assert_eq!(import_path(&pair(Rule::ModUse, "x", vec![leaf(Rule::Ident, "x")])), Some("x.ay".to_string()));
    assert_eq!(import_path(&leaf(Rule::ModUse, "")), Some(String::new()));
    assert_eq!(import_path(&pair(Rule::ModUse, "x", vec![leaf(Rule::Possessive, "yä")])), Some("/".to_string()));
    assert_eq!(import_path(&pair(Rule::ModUse, "x", vec![leaf(Rule::Possessive, "kelku")])), None);
    assert_eq!(import_path(&pair(Rule::ModUse, "x", vec![leaf(Rule::Number, "1")])), None);
}

#[test]
fn rules_go_by_the_names_of_the_grammar() {
    assert_eq!(Rule::EOI.name(), "EOI");
    assert_eq!(Rule::FunIdent.name(), "fun_ident");
    assert_eq!(Rule::LoopBlock.name(), "loop_block");
    assert_eq!(Rule::Other("WHITESPACE".to_string()).name(), "WHITESPACE");
}

#[test]
fn a_trace_can_be_made_about_the_text_of_a_pair() {
    let about = leaf(Rule::Comparison, "1 2 to");
    let mut trace = Trace::new_from_pair(&about, "first".to_string());
    trace.push_pest_error(Stage::AstBuilding, &leaf(Rule::Ident, "a"), "second".to_string());
    assert_eq!(
        frames(&trace),
        vec![frame(Stage::Parsing, "first", "1 2 to"), frame(Stage::AstBuilding, "second", "a")]
    );
    assert_eq!(trace.frame(0).1.line_col(), Location::Span((1, 1), (1, 7)));
}
