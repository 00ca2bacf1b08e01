//! What holds of the binder, the tense matcher and the proposals, whatever
//! the program.

use vstd::prelude::*;
use crate::ast::binding::{
    bind_expr, bind_exprs, bind_statement, bind_statements, conjugated, first_match,
    lemma_bind_exprs_prefix, lemma_bind_statements_prefix, parameter, separator_at, tense_of,
    undefined_function, ExprView, Frames, Funs, Tense, Vars,
};
use crate::ast::lib::NodeView;
use crate::ast::parsing::{ExprView as PExprView, StatementView as PStatementView};
use crate::error::failure::{message, raised, FailureView};
use crate::error::span::SpanView;
use crate::error::trace::Stage;
use crate::scope::{
    define, define_all, lemma_innermost_is_visible, lemma_pop_define, lemma_pop_push,
    lemma_position, layer_define, pop_layer,
    position, push_layer, unshadowed, visible, visible_in,
};
use crate::suggest::{
    closest_index, lemma_closest_index, near_enough, strip_separators, suggestion,
    suggestion_text,
};

verus! {

/// A name has a separator exactly where it has a full stop, and the
/// separator is the first of them.
pub proof fn lemma_separator(name: Seq<char>)
    ensures
        match separator_at(name) {
            Some(at) => 0 <= at < name.len() && name[at] == '.' && forall|i: int|
                0 <= i < at ==> name[i] != '.',
            None => forall|i: int| 0 <= i < name.len() ==> name[i] != '.',
        },
    decreases name.len(),
{
    if name.len() > 0 {
        lemma_separator(name.drop_last());
        assert(forall|i: int| 0 <= i < name.len() - 1 ==> name.drop_last()[i] == name[i]);
    }
}

/// A function declared without a separator answers to its own name and to
/// no other spelling.
pub proof fn lemma_irregular_name(declared: Seq<char>, call: Seq<char>)
    requires
        forall|i: int| 0 <= i < declared.len() ==> declared[i] != '.',
    ensures
        tense_of(declared, call) == if call == declared {
            Some(Tense::Present)
        } else {
            None
        },
{
    lemma_separator(declared);
}

/// A function declared with a separator answers to three spellings: its
/// stems put together, in the present; with `ìy` between them, in the
/// imminent; with `ay` between them, in the future.
pub proof fn lemma_three_tenses(declared: Seq<char>, at: int)
    requires
        separator_at(declared) == Some(at),
    ensures
        tense_of(declared, conjugated(declared, at, Seq::<char>::empty())) == Some(Tense::Present),
        tense_of(declared, conjugated(declared, at, "ìy"@)) == Some(Tense::Imminent),
        tense_of(declared, conjugated(declared, at, "ay"@)) == Some(Tense::Future),
{
    reveal_strlit("ìy");
    reveal_strlit("ay");
    lemma_separator(declared);
    let present = conjugated(declared, at, Seq::<char>::empty());
    let imminent = conjugated(declared, at, "ìy"@);
    let future = conjugated(declared, at, "ay"@);
    assert(present.len() == declared.len() - 1);
    assert(imminent.len() == declared.len() + 1);
    assert(future.len() == declared.len() + 1);
    assert(imminent[at] == 'ì');
    assert(future[at] == 'a');
}

/// A spelling that a visible declaration answers to finds a function.
pub proof fn lemma_first_match_found<V>(entries: Seq<(Seq<char>, V)>, i: int, call: Seq<char>)
    requires
        0 <= i < entries.len(),
        tense_of(entries[i].0, call) is Some,
    ensures
        first_match(entries, call) is Some,
    decreases entries.len(),
{
    if i < entries.len() - 1 {
        lemma_first_match_found(entries.drop_last(), i, call);
    }
}

/// Tense matching: once a function is declared under a split name, its
/// three spellings find a function for as long as the layer of the
/// declaration is open. When a layer is closed, the spellings find what they
/// found before it was opened: what was declared inside is found no more.
pub proof fn lemma_declared_is_called<V>(
    funs: Seq<Seq<(Seq<char>, V)>>,
    declared: Seq<char>,
    at: int,
    dec: V,
    call: Seq<char>,
)
    requires
        funs.len() >= 1,
        separator_at(declared) == Some(at),
    ensures
        first_match(visible(define(funs, declared, dec)), conjugated(declared, at, Seq::<char>::empty()))
            is Some,
        first_match(visible(define(funs, declared, dec)), conjugated(declared, at, "ìy"@)) is Some,
        first_match(visible(define(funs, declared, dec)), conjugated(declared, at, "ay"@)) is Some,
        first_match(visible(pop_layer(define(push_layer(funs), declared, dec))), call)
            == first_match(visible(funs), call),
{
    let after = define(funs, declared, dec);
    let layer = layer_define(funs.last(), declared, dec);
    lemma_position(funs.last(), declared);
    lemma_position(layer, declared);
    assert(after.last() == layer);
    let j = position(layer, declared).unwrap();
    match position(funs.last(), declared) {
        Some(k) => {
            assert(layer[k].0 == declared);
        },
        None => {
            assert(layer[funs.last().len() as int].0 == declared);
        },
    }
    lemma_innermost_is_visible(after, j);
    lemma_three_tenses(declared, at);
    let entries = visible(after);
    lemma_first_match_found(entries, j, conjugated(declared, at, Seq::<char>::empty()));
    lemma_first_match_found(entries, j, conjugated(declared, at, "ìy"@));
    lemma_first_match_found(entries, j, conjugated(declared, at, "ay"@));
    lemma_pop_push(funs);
    lemma_pop_define(push_layer(funs), declared, dec);
}

/// A message about a name that was not found quotes the name.
pub proof fn lemma_message_quotes_name(name: Seq<char>, proposal: Option<Seq<char>>)
    ensures
        ({
            let text = message(FailureView::UndefinedVariable { name, suggestion: proposal });
            let at = "Undefined variable: '"@.len() as int;
            at + name.len() <= text.len() && text.subrange(at, at + name.len()) == name
        }),
        ({
            let text = message(FailureView::UndefinedFunction { name, suggestion: proposal });
            let at = "Undefined function: '"@.len() as int;
            at + name.len() <= text.len() && text.subrange(at, at + name.len()) == name
        }),
{
    let variable = message(FailureView::UndefinedVariable { name, suggestion: proposal });
    let at = "Undefined variable: '"@.len() as int;
    assert(variable.subrange(at, at + name.len()) =~= name);
    let function = message(FailureView::UndefinedFunction { name, suggestion: proposal });
    let from = "Undefined function: '"@.len() as int;
    assert(function.subrange(from, from + name.len()) =~= name);
}

/// A name without its separators has no full stop left.
pub proof fn lemma_stripped(name: Seq<char>)
    ensures
        forall|i: int|
            0 <= i < strip_separators(name).len() ==> strip_separators(name)[i] != '.',
    decreases name.len(),
{
    if name.len() > 0 {
        lemma_stripped(name.drop_last());
        let before = strip_separators(name.drop_last());
        assert forall|i: int| 0 <= i < strip_separators(name).len() implies strip_separators(
            name,
        )[i] != '.' by {
            if i < before.len() {
                assert(strip_separators(name)[i] == before[i]);
            }
        }
    }
}

/// A proposal is made exactly when the closest of the visible names is near
/// enough; it is that name without its separators, and some visible name is
/// then near enough.
pub proof fn lemma_proposal(names: Seq<Seq<char>>, name: Seq<char>)
    ensures
        suggestion(names, name) is Some <==> names.len() > 0 && near_enough(
            name,
            names[closest_index(names, name)],
        ),
        suggestion(names, name) matches Some(text) ==> text == strip_separators(
            names[closest_index(names, name)],
        ) && forall|i: int| 0 <= i < text.len() ==> text[i] != '.',
        suggestion(names, name) is Some ==> exists|i: int|
            0 <= i < names.len() && near_enough(name, #[trigger] names[i]),
{
    if names.len() > 0 {
        lemma_closest_index(names, name);
        lemma_stripped(names[closest_index(names, name)]);
    }
}

/// Where a visible name is near enough and no other name is as close or
/// closer before it, a proposal is made.
pub proof fn lemma_proposal_made(names: Seq<Seq<char>>, name: Seq<char>, i: int)
    requires
        0 <= i < names.len(),
        near_enough(name, names[i]),
        i == closest_index(names, name),
    ensures
        suggestion(names, name) == Some(strip_separators(names[i])),
        suggestion_text(suggestion(names, name)) == ". Maybe you meant: '"@ + strip_separators(
            names[i],
        ) + "'?"@,
{
}

/// An empty layer shadows nothing.
pub proof fn lemma_unshadowed_push<V>(layer: Seq<(Seq<char>, V)>, inner: Seq<Seq<(Seq<char>, V)>>)
    ensures
        unshadowed(layer, push_layer(inner)) == unshadowed(layer, inner),
    decreases layer.len(),
{
    if layer.len() > 0 {
        lemma_unshadowed_push(layer.drop_last(), inner);
        assert(push_layer(inner).drop_last() =~= inner);
    }
}

/// Opening a layer changes nothing of what can be reached.
pub proof fn lemma_visible_push<V>(layers: Seq<Seq<(Seq<char>, V)>>, count: nat)
    requires
        count <= layers.len(),
    ensures
        visible_in(push_layer(layers), count + 1) == visible_in(layers, count),
    decreases count,
{
    let opened = push_layer(layers);
    if count == 0 {
        assert(opened.skip(opened.len() as int) =~= Seq::<Seq<(Seq<char>, V)>>::empty());
        assert(opened[opened.len() - 1] =~= Seq::<(Seq<char>, V)>::empty());
        assert(visible_in(opened, 0) =~= Seq::<(Seq<char>, V)>::empty());
        assert(unshadowed(opened[opened.len() - 1], opened.skip(opened.len() as int))
            =~= Seq::<(Seq<char>, V)>::empty());
        assert(visible_in(opened, 1) =~= Seq::<(Seq<char>, V)>::empty());
        assert(visible_in(layers, 0) =~= Seq::<(Seq<char>, V)>::empty());
    } else {
        lemma_visible_push(layers, (count - 1) as nat);
        let k = layers.len() - count;
        assert(opened[k] == layers[k]);
        assert(opened.skip(k + 1) =~= push_layer(layers.skip(k + 1)));
        lemma_unshadowed_push(layers[k], layers.skip(k + 1));
    }
}

/// Fail-fast: the binder reports one failure, in one frame.
pub proof fn lemma_expr_fails_once(node: NodeView<PExprView>, vars: Vars, funs: Funs)
    ensures
        bind_expr(node, vars, funs) matches Err(trace) ==> trace.len() == 1 && trace[0].0
            == Stage::Binding,
    decreases node,
{
    match node.inner {
        PExprView::FunCall { name, args } => {
            lemma_exprs_fail_once(args, vars, funs);
        },
        PExprView::Negated(inner) => {
            lemma_expr_fails_once(*inner, vars, funs);
        },
        PExprView::Comparison { left, right, operator } => {
            lemma_expr_fails_once(*left, vars, funs);
            lemma_expr_fails_once(*right, vars, funs);
        },
        PExprView::Array { items } => {
            lemma_exprs_fail_once(items, vars, funs);
        },
        _ => {},
    }
}

/// Fail-fast: a list of expressions reports one failure, in one frame.
pub proof fn lemma_exprs_fail_once(nodes: Seq<NodeView<PExprView>>, vars: Vars, funs: Funs)
    ensures
        bind_exprs(nodes, vars, funs) matches Err(trace) ==> trace.len() == 1 && trace[0].0
            == Stage::Binding,
    decreases nodes,
{
    if nodes.len() > 0 {
        lemma_exprs_fail_once(nodes.drop_last(), vars, funs);
        lemma_expr_fails_once(nodes.last(), vars, funs);
    }
}

/// Fail-fast: a statement reports one failure, in one frame.
pub proof fn lemma_statement_fails_once(node: NodeView<PStatementView>, vars: Vars, funs: Funs)
    ensures
        bind_statement(node, vars, funs) matches Err(trace) ==> trace.len() == 1 && trace[0].0
            == Stage::Binding,
    decreases node,
{
    match node.inner {
        PStatementView::VarDec { names, values } => {
            lemma_exprs_fail_once(values, vars, funs);
        },
        PStatementView::FunDec { name, args, body } => {
            lemma_statements_fail_once(
                body,
                define_all(push_layer(vars), args, parameter()),
                push_layer(funs),
            );
        },
        PStatementView::If { cond, then, otherwise } => {
            lemma_expr_fails_once(cond, vars, funs);
            lemma_statements_fail_once(then, push_layer(vars), push_layer(funs));
            lemma_statements_fail_once(otherwise, push_layer(vars), push_layer(funs));
        },
        PStatementView::Loop { cond, body } => {
            match cond {
                Some(c) => {
                    lemma_expr_fails_once(c, vars, funs);
                },
                None => {},
            }
            lemma_statements_fail_once(body, push_layer(vars), push_layer(funs));
        },
        PStatementView::Expr(e) => {
            lemma_expr_fails_once(e, vars, funs);
        },
    }
}

/// Fail-fast: a list of statements reports one failure, in one frame.
pub proof fn lemma_statements_fail_once(
    nodes: Seq<NodeView<PStatementView>>,
    vars: Vars,
    funs: Funs,
)
    ensures
        bind_statements(nodes, vars, funs) matches Err(trace) ==> trace.len() == 1 && trace[0].0
            == Stage::Binding,
    decreases nodes,
{
    if nodes.len() > 0 {
        lemma_statements_fail_once(nodes.drop_last(), vars, funs);
        match bind_statements(nodes.drop_last(), vars, funs) {
            Ok((_, v, f)) => {
                lemma_statement_fails_once(nodes.last(), v, f);
            },
            Err(_) => {},
        }
    }
}

/// Fail-fast: when a value of a declaration fails to bind and those before
/// it bind, the declaration fails as that value does, whatever the values
/// behind it are.
pub proof fn lemma_first_failure_wins(
    node: NodeView<PStatementView>,
    failing: int,
    vars: Vars,
    funs: Funs,
)
    requires
        node.inner is VarDec,
        0 <= failing < node.inner->VarDec_values.len(),
        bind_exprs(node.inner->VarDec_values.take(failing), vars, funs) is Ok,
        bind_expr(node.inner->VarDec_values[failing], vars, funs) is Err,
    ensures
        bind_statement(node, vars, funs) matches Err(trace) && bind_expr(
            node.inner->VarDec_values[failing],
            vars,
            funs,
        ) == Err::<NodeView<ExprView>, Frames>(trace) && trace.len() == 1,
{
    let values = node.inner->VarDec_values;
    assert(values.take(failing + 1).drop_last() =~= values.take(failing));
    lemma_bind_exprs_prefix(values, failing + 1, vars, funs);
    lemma_expr_fails_once(values[failing], vars, funs);
}

/// The declaration of a function whose body begins with the call `call`.
pub open spec fn calling_function(
    span: SpanView,
    name: Seq<char>,
    args: Seq<Seq<char>>,
    call: NodeView<PExprView>,
    rest: Seq<NodeView<PStatementView>>,
) -> NodeView<PStatementView> {
    NodeView {
        span,
        inner: PStatementView::FunDec {
            name,
            args,
            body: seq![NodeView { span: call.span, inner: PStatementView::Expr(call) }] + rest,
        },
    }
}

/// No recursion: a function is defined behind its body. A body that begins
/// with a call of the function's own name does not bind, unless the call
/// finds a function that was visible before; the failure is that of an
/// undefined function, at the call.
pub proof fn lemma_no_recursion(
    span: SpanView,
    name: Seq<char>,
    args: Seq<Seq<char>>,
    call: NodeView<PExprView>,
    rest: Seq<NodeView<PStatementView>>,
    vars: Vars,
    funs: Funs,
)
    requires
        funs.len() >= 1,
        call.inner is FunCall,
        tense_of(name, call.inner->FunCall_name) is Some,
        first_match(visible(funs), call.inner->FunCall_name) is None,
    ensures
        bind_statement(calling_function(span, name, args, call, rest), vars, funs)
            matches Err(trace) && trace == raised(
            Stage::Binding,
            call.span,
            undefined_function(funs, call.inner->FunCall_name),
        ),
{
    let first = NodeView { span: call.span, inner: PStatementView::Expr(call) };
    let body = seq![first] + rest;
    let inside = define_all(push_layer(vars), args, parameter());
    lemma_visible_push(funs, funs.len());
    assert(visible(push_layer(funs)) == visible(funs));
    assert(body.take(1).drop_last() =~= body.take(0));
    assert(body.take(1).last() == first);
    assert(body.take(0) =~= Seq::<NodeView<PStatementView>>::empty());
    let opened = push_layer(funs);
    let failure = raised(
        Stage::Binding,
        call.span,
        undefined_function(funs, call.inner->FunCall_name),
    );
    assert(bind_statements(body.take(0), inside, opened) matches Ok(done) && done.1 == inside
        && done.2 == opened);
    assert(bind_expr(call, inside, opened) matches Err(trace) && trace == failure);
    assert(bind_statement(first, inside, opened) matches Err(trace) && trace == failure);
    assert(bind_statements(body.take(1), inside, opened) matches Err(trace) && trace == failure);
    lemma_bind_statements_prefix(body, 1, inside, opened);
}

} // verus!
