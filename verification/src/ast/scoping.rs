//! When a program binds: every name is declared before it is used, in the
//! block of the use or in one around it. A program of that kind binds, and
//! the bound tree has the shape of the parsed one.

use vstd::prelude::*;
use super::binding::{
    bind_block, bind_expr, bind_exprs, bind_program, bind_statement, bind_statements,
    first_match, parameter, ExprView, Funs, StatementView, Vars,
};
use super::lib::NodeView;
use super::parsing::{ExprView as PExprView, StatementView as PStatementView};
use crate::scope::{
    define, define_all, fresh, layer_define, lookup, position, push_layer, unshadowed, visible,
    visible_in,
};

verus! {

/// The names in scope, by layer: a scope stack that binds its names to
/// nothing.
pub type Names = Seq<Seq<(Seq<char>, ())>>;

/// The names of a layer, each in the place of its binding.
pub open spec fn layer_names<V>(layer: Seq<(Seq<char>, V)>) -> Seq<(Seq<char>, ())> {
    Seq::new(layer.len(), |j: int| (layer[j].0, ()))
}

/// The names of a scope stack, layer by layer.
pub open spec fn names_only<V>(layers: Seq<Seq<(Seq<char>, V)>>) -> Names {
    Seq::new(layers.len(), |k: int| layer_names(layers[k]))
}

/// Whether every name in the expression stands for something: every
/// identifier is a visible variable, every call spells a visible function.
pub open spec fn scoped_expr(node: NodeView<PExprView>, vars: Names, funs: Names) -> bool
    decreases node,
{
    match node.inner {
        PExprView::Ident(name) => lookup(vars, name) is Some,
        PExprView::FunCall { name, args } => first_match(visible(funs), name) is Some
            && scoped_exprs(args, vars, funs),
        PExprView::Number(_) => true,
        PExprView::String(_) => true,
        PExprView::Negated(inner) => scoped_expr(*inner, vars, funs),
        PExprView::Comparison { left, right, operator } => scoped_expr(*left, vars, funs)
            && scoped_expr(*right, vars, funs),
        PExprView::Array { items } => scoped_exprs(items, vars, funs),
    }
}

/// Whether every name in the expressions stands for something.
pub open spec fn scoped_exprs(nodes: Seq<NodeView<PExprView>>, vars: Names, funs: Names) -> bool
    decreases nodes,
{
    nodes.len() == 0 || (scoped_exprs(nodes.drop_last(), vars, funs) && scoped_expr(
        nodes.last(),
        vars,
        funs,
    ))
}

/// The names in scope behind the statement, if every name in it stands for
/// something. A declaration of variables adds its names behind its values;
/// a function adds its name behind its body, which sees the parameters; a
/// block gives its names back when it ends.
pub open spec fn scoped_statement(node: NodeView<PStatementView>, vars: Names, funs: Names)
    -> Option<(Names, Names)>
    decreases node,
{
    match node.inner {
        PStatementView::VarDec { names, values } => if scoped_exprs(values, vars, funs) {
            Some((define_all(vars, names, ()), funs))
        } else {
            None
        },
        PStatementView::FunDec { name, args, body } => if scoped_statements(
            body,
            define_all(push_layer(vars), args, ()),
            push_layer(funs),
        ) is Some {
            Some((vars, define(funs, name, ())))
        } else {
            None
        },
        PStatementView::If { cond, then, otherwise } => if scoped_expr(cond, vars, funs)
            && scoped_block(then, vars, funs) && scoped_block(otherwise, vars, funs) {
            Some((vars, funs))
        } else {
            None
        },
        PStatementView::Loop { cond, body } => if (match cond {
            Some(c) => scoped_expr(c, vars, funs),
            None => true,
        }) && scoped_block(body, vars, funs) {
            Some((vars, funs))
        } else {
            None
        },
        PStatementView::Expr(e) => if scoped_expr(e, vars, funs) {
            Some((vars, funs))
        } else {
            None
        },
    }
}

/// Whether every name in the block stands for something, the block being
/// a layer of its own.
pub open spec fn scoped_block(nodes: Seq<NodeView<PStatementView>>, vars: Names, funs: Names)
    -> bool
    decreases nodes, 1nat,
{
    scoped_statements(nodes, push_layer(vars), push_layer(funs)) is Some
}

/// The names in scope behind the statements, if every name in them stands
/// for something.
pub open spec fn scoped_statements(
    nodes: Seq<NodeView<PStatementView>>,
    vars: Names,
    funs: Names,
) -> Option<(Names, Names)>
    decreases nodes, 0nat,
{
    if nodes.len() == 0 {
        Some((vars, funs))
    } else {
        match scoped_statements(nodes.drop_last(), vars, funs) {
            Some((v, f)) => scoped_statement(nodes.last(), v, f),
            None => None,
        }
    }
}

/// Whether every name of the program is declared before it is used, in the
/// block of the use or in one around it.
pub open spec fn well_scoped(program: Seq<NodeView<PStatementView>>) -> bool {
    scoped_statements(program, fresh::<()>(), fresh::<()>()) is Some
}

/// Whether a bound expression has the shape of a parsed one: the same
/// spans, the same constructs with the same words and numbers, a variable
/// for every identifier and a call for every call.
pub open spec fn same_expr(parsed: NodeView<PExprView>, bound: NodeView<ExprView>) -> bool
    decreases parsed,
{
    parsed.span == bound.span && match parsed.inner {
        PExprView::Ident(word) => bound.inner matches ExprView::Var { dec, name } && name == word,
        PExprView::FunCall { name: word, args: given } => bound.inner matches ExprView::FunCall {
            tense,
            dec,
            name,
            args,
        } && name == word && same_exprs(given, args),
        PExprView::Number(n) => bound.inner == ExprView::Number(n),
        PExprView::String(s) => bound.inner == ExprView::String(s),
        PExprView::Negated(inner) => bound.inner matches ExprView::Negated(b) && same_expr(
            *inner,
            *b,
        ),
        PExprView::Comparison { left, right, operator } => bound.inner matches ExprView::Comparison {
            left: l,
            right: r,
            operator: o,
        } && o == operator && same_expr(*left, *l) && same_expr(*right, *r),
        PExprView::Array { items } => bound.inner matches ExprView::Array { items: bound_items }
            && same_exprs(items, bound_items),
    }
}

/// Whether bound expressions have the shapes of parsed ones, one by one.
pub open spec fn same_exprs(parsed: Seq<NodeView<PExprView>>, bound: Seq<NodeView<ExprView>>)
    -> bool
    decreases parsed,
{
    parsed.len() == bound.len() && (parsed.len() == 0 || (same_exprs(
        parsed.drop_last(),
        bound.drop_last(),
    ) && same_expr(parsed.last(), bound.last())))
}

/// Whether a bound statement has the shape of a parsed one. A declaration
/// keeps its names, a function its name and the number of its parameters.
pub open spec fn same_statement(
    parsed: NodeView<PStatementView>,
    bound: NodeView<StatementView>,
) -> bool
    decreases parsed,
{
    parsed.span == bound.span && match parsed.inner {
        PStatementView::VarDec { names, values } => bound.inner matches StatementView::VarDec(dec)
            && dec.names == names && same_exprs(values, dec.values),
        PStatementView::FunDec { name, args, body } => bound.inner matches StatementView::FunDec(
            dec,
        ) && dec.name == name && dec.args.len() == args.len() && same_statements(body, dec.body),
        PStatementView::If { cond, then, otherwise } => bound.inner matches StatementView::If {
            cond: c,
            then: t,
            otherwise: o,
        } && same_expr(cond, c) && same_statements(then, t) && same_statements(otherwise, o),
        PStatementView::Loop { cond, body } => bound.inner matches StatementView::Loop {
            cond: c,
            body: b,
        } && (match cond {
            Some(given) => c matches Some(kept) && same_expr(given, kept),
            None => c is None,
        }) && same_statements(body, b),
        PStatementView::Expr(e) => bound.inner matches StatementView::Expr(b) && same_expr(e, b),
    }
}

/// Whether bound statements have the shapes of parsed ones, one by one.
pub open spec fn same_statements(
    parsed: Seq<NodeView<PStatementView>>,
    bound: Seq<NodeView<StatementView>>,
) -> bool
    decreases parsed,
{
    parsed.len() == bound.len() && (parsed.len() == 0 || (same_statements(
        parsed.drop_last(),
        bound.drop_last(),
    ) && same_statement(parsed.last(), bound.last())))
}

/// A name stands at the same place in a layer and among its names.
pub proof fn lemma_names_position<V>(layer: Seq<(Seq<char>, V)>, name: Seq<char>)
    ensures
        position(layer_names(layer), name) == position(layer, name),
    decreases layer.len(),
{
    if layer.len() > 0 {
        assert(layer_names(layer).drop_last() =~= layer_names(layer.drop_last()));
        lemma_names_position(layer.drop_last(), name);
    }
}

/// A name is bound in a scope stack exactly when it is among its names.
pub proof fn lemma_names_lookup<V>(layers: Seq<Seq<(Seq<char>, V)>>, name: Seq<char>)
    ensures
        lookup(names_only(layers), name) is Some <==> lookup(layers, name) is Some,
    decreases layers.len(),
{
    if layers.len() > 0 {
        assert(names_only(layers).drop_last() =~= names_only(layers.drop_last()));
        lemma_names_position(layers.last(), name);
        lemma_names_lookup(layers.drop_last(), name);
    }
}

/// Defining a name adds it to the names.
pub proof fn lemma_names_define<V>(layers: Seq<Seq<(Seq<char>, V)>>, name: Seq<char>, value: V)
    requires
        layers.len() >= 1,
    ensures
        names_only(define(layers, name, value)) == define(names_only(layers), name, ()),
{
    lemma_names_position(layers.last(), name);
    crate::scope::lemma_position(layers.last(), name);
    let after = layer_define(layers.last(), name, value);
    assert(layer_names(after) =~= layer_define(layer_names(layers.last()), name, ()));
    assert(names_only(define(layers, name, value)) =~= define(names_only(layers), name, ()));
}

/// Defining several names adds them to the names.
pub proof fn lemma_names_define_all<V>(
    layers: Seq<Seq<(Seq<char>, V)>>,
    names: Seq<Seq<char>>,
    value: V,
)
    requires
        layers.len() >= 1,
    ensures
        names_only(define_all(layers, names, value)) == define_all(names_only(layers), names, ()),
        define_all(layers, names, value).len() == layers.len(),
    decreases names.len(),
{
    if names.len() > 0 {
        lemma_names_define_all(layers, names.drop_last(), value);
        lemma_names_define(define_all(layers, names.drop_last(), value), names.last(), value);
    }
}

/// Opening a layer opens one among the names.
pub proof fn lemma_names_push<V>(layers: Seq<Seq<(Seq<char>, V)>>)
    ensures
        names_only(push_layer(layers)) == push_layer(names_only(layers)),
        names_only(fresh::<V>()) == fresh::<()>(),
{
    assert(layer_names(Seq::<(Seq<char>, V)>::empty()) =~= Seq::<(Seq<char>, ())>::empty());
    assert(names_only(push_layer(layers)) =~= push_layer(names_only(layers)));
    assert(names_only(fresh::<V>()) =~= fresh::<()>());
}

/// What is not shadowed in a layer is not shadowed among its names.
pub proof fn lemma_names_unshadowed<V>(
    layer: Seq<(Seq<char>, V)>,
    inner: Seq<Seq<(Seq<char>, V)>>,
)
    ensures
        unshadowed(layer_names(layer), names_only(inner)) == layer_names(unshadowed(layer, inner)),
    decreases layer.len(),
{
    if layer.len() > 0 {
        assert(layer_names(layer).drop_last() =~= layer_names(layer.drop_last()));
        lemma_names_unshadowed(layer.drop_last(), inner);
        lemma_names_lookup(inner, layer.last().0);
        let before = unshadowed(layer.drop_last(), inner);
        assert(layer_names(before.push(layer.last())) =~= layer_names(before).push(
            (layer.last().0, ()),
        ));
    } else {
        assert(layer_names(unshadowed(layer, inner)) =~= Seq::<(Seq<char>, ())>::empty());
    }
}

/// The names that can be reached are the names of what can be reached.
pub proof fn lemma_names_visible<V>(layers: Seq<Seq<(Seq<char>, V)>>, count: nat)
    ensures
        visible_in(names_only(layers), count) == layer_names(visible_in(layers, count)),
    decreases count,
{
    if count == 0 || count > layers.len() {
        assert(layer_names(visible_in(layers, count)) =~= Seq::<(Seq<char>, ())>::empty());
    } else {
        lemma_names_visible(layers, (count - 1) as nat);
        let k = layers.len() - count;
        lemma_names_unshadowed(layers[k], layers.skip(k + 1));
        assert(names_only(layers).skip(k + 1) =~= names_only(layers.skip(k + 1)));
        assert(layer_names(
            visible_in(layers, (count - 1) as nat) + unshadowed(layers[k], layers.skip(k + 1)),
        ) =~= layer_names(visible_in(layers, (count - 1) as nat)) + layer_names(
            unshadowed(layers[k], layers.skip(k + 1)),
        ));
    }
}

/// Whether a spelling finds a function depends on the names alone.
pub proof fn lemma_names_first_match<V>(entries: Seq<(Seq<char>, V)>, call: Seq<char>)
    ensures
        first_match(layer_names(entries), call) is Some <==> first_match(entries, call) is Some,
    decreases entries.len(),
{
    if entries.len() > 0 {
        assert(layer_names(entries).drop_last() =~= layer_names(entries.drop_last()));
        lemma_names_first_match(entries.drop_last(), call);
    }
}

/// Whether a call is resolved depends on the names in scope alone.
pub proof fn lemma_names_resolve<V>(layers: Seq<Seq<(Seq<char>, V)>>, call: Seq<char>)
    ensures
        first_match(visible(names_only(layers)), call) is Some <==> first_match(
            visible(layers),
            call,
        ) is Some,
{
    lemma_names_visible(layers, layers.len());
    lemma_names_first_match(visible(layers), call);
}

/// An expression binds exactly when every name in it stands for something,
/// and then to an expression of its shape.
pub proof fn lemma_expr_binds(node: NodeView<PExprView>, vars: Vars, funs: Funs)
    ensures
        bind_expr(node, vars, funs) is Ok <==> scoped_expr(
            node,
            names_only(vars),
            names_only(funs),
        ),
        bind_expr(node, vars, funs) matches Ok(bound) ==> same_expr(node, bound),
    decreases node,
{
    match node.inner {
        PExprView::Ident(name) => {
            lemma_names_lookup(vars, name);
        },
        PExprView::FunCall { name, args } => {
            lemma_names_resolve(funs, name);
            lemma_exprs_bind(args, vars, funs);
        },
        PExprView::Number(_) => {},
        PExprView::String(_) => {},
        PExprView::Negated(inner) => {
            lemma_expr_binds(*inner, vars, funs);
        },
        PExprView::Comparison { left, right, operator } => {
            lemma_expr_binds(*left, vars, funs);
            lemma_expr_binds(*right, vars, funs);
        },
        PExprView::Array { items } => {
            lemma_exprs_bind(items, vars, funs);
        },
    }
}

/// Expressions bind exactly when every name in them stands for something,
/// and then to expressions of their shapes.
pub proof fn lemma_exprs_bind(nodes: Seq<NodeView<PExprView>>, vars: Vars, funs: Funs)
    ensures
        bind_exprs(nodes, vars, funs) is Ok <==> scoped_exprs(
            nodes,
            names_only(vars),
            names_only(funs),
        ),
        bind_exprs(nodes, vars, funs) matches Ok(bound) ==> same_exprs(nodes, bound),
    decreases nodes,
{
    if nodes.len() > 0 {
        lemma_exprs_bind(nodes.drop_last(), vars, funs);
        lemma_expr_binds(nodes.last(), vars, funs);
        match bind_exprs(nodes.drop_last(), vars, funs) {
            Ok(before) => match bind_expr(nodes.last(), vars, funs) {
                Ok(bound) => {
                    assert(before.push(bound).drop_last() =~= before);
                },
                Err(_) => {},
            },
            Err(_) => {},
        }
    }
}

/// A statement binds exactly when every name in it stands for something,
/// then to a statement of its shape, and it leaves in scope the names that
/// it declares.
pub proof fn lemma_statement_binds(node: NodeView<PStatementView>, vars: Vars, funs: Funs)
    requires
        vars.len() >= 1,
        funs.len() >= 1,
    ensures
        bind_statement(node, vars, funs) is Ok <==> scoped_statement(
            node,
            names_only(vars),
            names_only(funs),
        ) is Some,
        bind_statement(node, vars, funs) matches Ok((bound, v, f)) ==> same_statement(node, bound)
            && v.len() >= 1 && f.len() >= 1 && scoped_statement(
            node,
            names_only(vars),
            names_only(funs),
        ) == Some((names_only(v), names_only(f))),
    decreases node,
{
    match node.inner {
        PStatementView::VarDec { names, values } => {
            lemma_exprs_bind(values, vars, funs);
            match bind_exprs(values, vars, funs) {
                Ok(bound) => {
                    lemma_names_define_all(
                        vars,
                        names,
                        super::binding::VarDecView { names, values: bound },
                    );
                },
                Err(_) => {},
            }
        },
        PStatementView::FunDec { name, args, body } => {
            lemma_names_push(vars);
            lemma_names_push(funs);
            lemma_names_define_all(push_layer(vars), args, parameter());
            lemma_statements_bind(
                body,
                define_all(push_layer(vars), args, parameter()),
                push_layer(funs),
            );
            match bind_statements(
                body,
                define_all(push_layer(vars), args, parameter()),
                push_layer(funs),
            ) {
                Ok((bound, _, _)) => {
                    lemma_names_define(
                        funs,
                        name,
                        super::binding::FunDecView {
                            name,
                            args: Seq::new(args.len(), |i: int| parameter()),
                            body: bound,
                        },
                    );
                },
                Err(_) => {},
            }
        },
        PStatementView::If { cond, then, otherwise } => {
            lemma_expr_binds(cond, vars, funs);
            lemma_block_binds(then, vars, funs);
            lemma_block_binds(otherwise, vars, funs);
        },
        PStatementView::Loop { cond, body } => {
            match cond {
                Some(c) => {
                    lemma_expr_binds(c, vars, funs);
                },
                None => {},
            }
            lemma_block_binds(body, vars, funs);
        },
        PStatementView::Expr(e) => {
            lemma_expr_binds(e, vars, funs);
        },
    }
}

/// A block binds exactly when every name in it stands for something, and
/// then to statements of the shapes of its own.
pub proof fn lemma_block_binds(nodes: Seq<NodeView<PStatementView>>, vars: Vars, funs: Funs)
    requires
        vars.len() >= 1,
        funs.len() >= 1,
    ensures
        bind_block(nodes, vars, funs) is Ok <==> scoped_block(
            nodes,
            names_only(vars),
            names_only(funs),
        ),
        bind_block(nodes, vars, funs) matches Ok(bound) ==> same_statements(nodes, bound),
    decreases nodes, 1nat,
{
    lemma_names_push(vars);
    lemma_names_push(funs);
    lemma_statements_bind(nodes, push_layer(vars), push_layer(funs));
}

/// Statements bind exactly when every name in them stands for something,
/// then to statements of their shapes, and they leave in scope the names
/// that they declare.
pub proof fn lemma_statements_bind(nodes: Seq<NodeView<PStatementView>>, vars: Vars, funs: Funs)
    requires
        vars.len() >= 1,
        funs.len() >= 1,
    ensures
        bind_statements(nodes, vars, funs) is Ok <==> scoped_statements(
            nodes,
            names_only(vars),
            names_only(funs),
        ) is Some,
        bind_statements(nodes, vars, funs) matches Ok((bound, v, f)) ==> same_statements(
            nodes,
            bound,
        ) && v.len() >= 1 && f.len() >= 1 && scoped_statements(
            nodes,
            names_only(vars),
            names_only(funs),
        ) == Some((names_only(v), names_only(f))),
    decreases nodes, 0nat,
{
    if nodes.len() > 0 {
        lemma_statements_bind(nodes.drop_last(), vars, funs);
        match bind_statements(nodes.drop_last(), vars, funs) {
            Ok((before, v, f)) => {
                lemma_statement_binds(nodes.last(), v, f);
                match bind_statement(nodes.last(), v, f) {
                    Ok((bound, _, _)) => {
                        assert(before.push(bound).drop_last() =~= before);
                    },
                    Err(_) => {},
                }
            },
            Err(_) => {},
        }
    }
}

/// A program in which every name is declared before it is used, in the
/// block of the use or in one around it, binds, and the bound program has
/// the shape of the parsed one. A program that is not of that kind does not
/// bind.
pub proof fn lemma_well_scoped_program_binds(program: Seq<NodeView<PStatementView>>)
    ensures
        well_scoped(program) <==> bind_program(program) is Ok,
        bind_program(program) matches Ok(bound) ==> same_statements(program, bound),
{
    lemma_names_push(Seq::<Seq<(Seq<char>, super::binding::VarDecView)>>::empty());
    lemma_names_push(Seq::<Seq<(Seq<char>, super::binding::FunDecView)>>::empty());
    lemma_statements_bind(
        program,
        fresh::<super::binding::VarDecView>(),
        fresh::<super::binding::FunDecView>(),
    );
}

} // verus!
