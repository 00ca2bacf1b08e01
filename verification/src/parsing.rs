//! From the parser's tree to the syntax tree.
//!
//! The parser hands over a tree of pairs: each pair is the text that one
//! rule of the grammar matched, with the pairs matched inside it. What is
//! built here from that tree is the syntax tree that the binder takes, or
//! the trace of the first pair that does not fit.

use vstd::prelude::*;
use vstd::string::StringExecFns;
use crate::ast::lib::{
    comparison_of, multiplier_of, names_view, AyNode, ComparisonOperator, Multiplier, NodeView,
};
use crate::ast::parsing::{
    expr_node_view, exprs_view, statement_node_view, statements_view, Expr, ExprView, Statement,
    StatementView,
};
use crate::error::pest_error::PestError;
use crate::error::span::{Span, SpanView};
use crate::error::trace::{trace_new, trace_push, Detail, Stage, Trace, TraceError};
use crate::text::{char_is_whitespace, chars_of, is_whitespace, string_of};

verus! {

/// A rule of the grammar. The rules that the tree is built from have a
/// variant of their own; any other rule goes by its name.
#[derive(Clone, Debug, PartialEq, Eq)]
pub enum Rule {
    EOI,
    Program,
    ModUse,
    Possessive,
    Statement,
    Expr,
    Negation,
    FunCall,
    Array,
    Comparison,
    Number,
    String,
    Ident,
    FunIdent,
    FunDec,
    VarDec,
    IfBlock,
    LoopBlock,
    Other(String),
}

/// A rule as a plain value.
pub enum RuleView {
    EOI,
    Program,
    ModUse,
    Possessive,
    Statement,
    Expr,
    Negation,
    FunCall,
    Array,
    Comparison,
    Number,
    String,
    Ident,
    FunIdent,
    FunDec,
    VarDec,
    IfBlock,
    LoopBlock,
    Other(Seq<char>),
}

impl View for Rule {
    type V = RuleView;

    open spec fn view(&self) -> RuleView {
        match self {
            Rule::EOI => RuleView::EOI,
            Rule::Program => RuleView::Program,
            Rule::ModUse => RuleView::ModUse,
            Rule::Possessive => RuleView::Possessive,
            Rule::Statement => RuleView::Statement,
            Rule::Expr => RuleView::Expr,
            Rule::Negation => RuleView::Negation,
            Rule::FunCall => RuleView::FunCall,
            Rule::Array => RuleView::Array,
            Rule::Comparison => RuleView::Comparison,
            Rule::Number => RuleView::Number,
            Rule::String => RuleView::String,
            Rule::Ident => RuleView::Ident,
            Rule::FunIdent => RuleView::FunIdent,
            Rule::FunDec => RuleView::FunDec,
            Rule::VarDec => RuleView::VarDec,
            Rule::IfBlock => RuleView::IfBlock,
            Rule::LoopBlock => RuleView::LoopBlock,
            Rule::Other(name) => RuleView::Other(name@),
        }
    }
}

/// The name of a rule, as the grammar writes it.
pub open spec fn rule_name(rule: RuleView) -> Seq<char> {
    match rule {
        RuleView::EOI => "EOI"@,
        RuleView::Program => "program"@,
        RuleView::ModUse => "mod_use"@,
        RuleView::Possessive => "possessive"@,
        RuleView::Statement => "statement"@,
        RuleView::Expr => "expr"@,
        RuleView::Negation => "negation"@,
        RuleView::FunCall => "fun_call"@,
        RuleView::Array => "array"@,
        RuleView::Comparison => "comparison"@,
        RuleView::Number => "number"@,
        RuleView::String => "string"@,
        RuleView::Ident => "ident"@,
        RuleView::FunIdent => "fun_ident"@,
        RuleView::FunDec => "fun_dec"@,
        RuleView::VarDec => "var_dec"@,
        RuleView::IfBlock => "if_block"@,
        RuleView::LoopBlock => "loop_block"@,
        RuleView::Other(name) => name,
    }
}

impl Rule {
    /// The name of the rule, as the grammar writes it.
    pub fn name(&self) -> (r: String)
        ensures
            r@ == rule_name(self@),
    {
        match self {
            Rule::EOI => "EOI".to_owned(),
            Rule::Program => "program".to_owned(),
            Rule::ModUse => "mod_use".to_owned(),
            Rule::Possessive => "possessive".to_owned(),
            Rule::Statement => "statement".to_owned(),
            Rule::Expr => "expr".to_owned(),
            Rule::Negation => "negation".to_owned(),
            Rule::FunCall => "fun_call".to_owned(),
            Rule::Array => "array".to_owned(),
            Rule::Comparison => "comparison".to_owned(),
            Rule::Number => "number".to_owned(),
            Rule::String => "string".to_owned(),
            Rule::Ident => "ident".to_owned(),
            Rule::FunIdent => "fun_ident".to_owned(),
            Rule::FunDec => "fun_dec".to_owned(),
            Rule::VarDec => "var_dec".to_owned(),
            Rule::IfBlock => "if_block".to_owned(),
            Rule::LoopBlock => "loop_block".to_owned(),
            Rule::Other(name) => name.clone(),
        }
    }
}

/// What one rule matched. `span` is the matched text with its place. `place`
/// is what the parser shows when it reports the pair: the first line of the
/// source that the pair touches, and the place of the pair on it.
#[derive(Debug, PartialEq, Eq)]
pub struct Pair {
    pub rule: Rule,
    pub span: Span,
    pub place: Span,
    pub inner: Vec<Pair>,
}

/// A pair as a plain value.
pub struct PairView {
    pub rule: RuleView,
    pub span: SpanView,
    pub place: SpanView,
    pub inner: Seq<PairView>,
}

/// The plain value of a pair.
pub open spec fn pair_view(pair: Pair) -> PairView
    decreases pair,
{
    PairView {
        rule: pair.rule@,
        span: pair.span@,
        place: pair.place@,
        inner: pairs_view(pair.inner@),
    }
}

/// The plain values of a list of pairs.
pub open spec fn pairs_view(pairs: Seq<Pair>) -> Seq<PairView>
    decreases pairs,
{
    Seq::new(
        pairs.len(),
        |i: int|
            if 0 <= i < pairs.len() {
                pair_view(pairs[i])
            } else {
                arbitrary()
            },
    )
}

impl View for Pair {
    type V = PairView;

    open spec fn view(&self) -> PairView {
        pair_view(*self)
    }
}

/// The words of a text: what stands between its white space.
pub open spec fn words(text: Seq<char>) -> Seq<Seq<char>>
    decreases text.len(),
{
    if text.len() == 0 {
        Seq::<Seq<char>>::empty()
    } else {
        let before = words(text.drop_last());
        let c = text.last();
        if is_whitespace(c) {
            before
        } else if text.len() >= 2 && !is_whitespace(text[text.len() - 2]) && before.len() > 0 {
            before.drop_last().push(before.last().push(c))
        } else {
            before.push(seq![c])
        }
    }
}

/// The plain value of a list of words.
pub open spec fn words_view(list: Seq<Vec<char>>) -> Seq<Seq<char>> {
    Seq::new(list.len(), |i: int| list[i]@)
}

/// Cuts a text into its words.
pub fn words_of(text: &Vec<char>) -> (r: Vec<Vec<char>>)
    ensures
        words_view(r@) == words(text@),
{
    let mut done: Vec<Vec<char>> = Vec::new();
    let mut current: Vec<char> = Vec::new();
    let mut i: usize = 0;
    assert(words_view(done@) =~= words(text@.take(0)));
    while i < text.len()
        invariant
            i <= text.len(),
            current.len() > 0 ==> i > 0 && !is_whitespace(text[i - 1]),
            current.len() == 0 ==> i == 0 || is_whitespace(text[i - 1]),
            words(text@.take(i as int)) == if current.len() > 0 {
                words_view(done@).push(current@)
            } else {
                words_view(done@)
            },
        decreases text.len() - i,
    {
        let c = text[i];
        proof {
            assert(text@.take(i + 1).drop_last() =~= text@.take(i as int));
            if i > 0 {
                assert(text@.take(i + 1)[i - 1] == text[i - 1]);
            }
        }
        let ghost before = words(text@.take(i as int));
        if char_is_whitespace(c) {
            if current.len() > 0 {
                let ghost shown = words_view(done@);
                done.push(current);
                current = Vec::new();
                assert(words_view(done@) =~= before);
            }
        } else {
            let ghost old_current = current@;
            current.push(c);
            proof {
                let now = text@.take(i + 1);
                assert(now.last() == c);
                if old_current.len() > 0 {
                    assert(before.drop_last() =~= words_view(done@));
                    assert(before.last() == old_current);
                    assert(now.len() >= 2 && !is_whitespace(now[now.len() - 2]));
                    assert(words(now) =~= words_view(done@).push(current@));
                } else {
                    assert(current@ =~= seq![c]);
                    assert(now.len() < 2 || is_whitespace(now[now.len() - 2]));
                    assert(words(now) =~= words_view(done@).push(current@));
                }
            }
        }
        i += 1;
    }
    assert(text@.take(i as int) =~= text@);
    if current.len() > 0 {
        let ghost shown = words_view(done@);
        done.push(current);
        assert(words_view(done@) =~= shown.push(current@));
    }
    done
}

/// The value of a digit in base eight, if the character is one.
pub open spec fn octal_digit(c: char) -> Option<nat> {
    if '0' <= c <= '7' {
        Some((c as u32 - '0' as u32) as nat)
    } else {
        None
    }
}

/// The number that digits in base eight write, if they all are digits and
/// there is one at least.
pub open spec fn octal_digits(text: Seq<char>) -> Option<nat>
    decreases text.len(),
{
    if text.len() == 0 {
        None
    } else {
        match octal_digit(text.last()) {
            Some(d) => if text.len() == 1 {
                Some(d)
            } else {
                match octal_digits(text.drop_last()) {
                    Some(n) => Some(8 * n + d),
                    None => None,
                }
            },
            None => None,
        }
    }
}

/// The number that a text writes in base eight: digits, behind a sign or
/// without one. A text that is not of that form writes none, and neither
/// does one whose number needs more than 64 bits.
pub open spec fn octal(text: Seq<char>) -> Option<i64> {
    if text.len() > 0 && text[0] == '-' {
        match octal_digits(text.skip(1)) {
            Some(n) => if n <= 0x8000_0000_0000_0000 {
                Some((-(n as int)) as i64)
            } else {
                None
            },
            None => None,
        }
    } else {
        let digits = if text.len() > 0 && text[0] == '+' {
            text.skip(1)
        } else {
            text
        };
        match octal_digits(digits) {
            Some(n) => if n <= 0x7FFF_FFFF_FFFF_FFFF {
                Some(n as i64)
            } else {
                None
            },
            None => None,
        }
    }
}

/// More digits do not make a number smaller.
pub proof fn lemma_octal_digits_grow(text: Seq<char>, len: int)
    requires
        0 < len <= text.len(),
        octal_digits(text) is Some,
    ensures
        octal_digits(text.take(len)) is Some,
        octal_digits(text.take(len)).unwrap() <= octal_digits(text).unwrap(),
    decreases text.len() - len,
{
    if len < text.len() {
        assert(text.drop_last().take(len) =~= text.take(len));
        lemma_octal_digits_grow(text.drop_last(), len);
    } else {
        assert(text.take(len) =~= text);
    }
}

/// Digits behind a text that writes no number do not make it write one.
pub proof fn lemma_octal_digits_fail(text: Seq<char>, len: int)
    requires
        0 < len <= text.len(),
        octal_digits(text.take(len)) is None,
    ensures
        octal_digits(text) is None,
    decreases text.len() - len,
{
    if len < text.len() {
        assert(text.drop_last().take(len) =~= text.take(len));
        lemma_octal_digits_fail(text.drop_last(), len);
    } else {
        assert(text.take(len) =~= text);
    }
}

fn read_digits(text: &Vec<char>, from: usize) -> (r: Option<u128>)
    requires
        from <= text.len(),
    ensures
        match r {
            Some(n) => n <= 0x8000_0000_0000_0000 && octal_digits(text@.skip(from as int)) == Some(
                n as nat,
            ),
            None => match octal_digits(text@.skip(from as int)) {
                Some(n) => n > 0x8000_0000_0000_0000,
                None => true,
            },
        },
{
    let ghost digits = text@.skip(from as int);
    if from == text.len() {
        return None;
    }
    let mut value: u128 = 0;
    let mut i: usize = from;
    while i < text.len()
        invariant
            from <= i <= text.len(),
            digits == text@.skip(from as int),
            value <= 0x8000_0000_0000_0000,
            i > from ==> octal_digits(digits.take(i - from)) == Some(value as nat),
            i == from ==> value == 0,
        decreases text.len() - i,
    {
        let c = text[i];
        proof {
            assert(digits.take(i - from + 1).drop_last() =~= digits.take(i - from));
            assert(digits.take(i - from + 1).last() == c);
        }
        if c < '0' || c > '7' {
            proof {
                lemma_octal_digits_fail(digits, i - from + 1);
            }
            return None;
        }
        let d: u128 = (c as u32 - '0' as u32) as u128;
        value = 8 * value + d;
        if value > 0x8000_0000_0000_0000 {
            proof {
                if octal_digits(digits) is Some {
                    lemma_octal_digits_grow(digits, i - from + 1);
                }
            }
            return None;
        }
        i += 1;
    }
    assert(digits.take(i - from) =~= digits);
    Some(value)
}

/// Reads a number written in base eight.
pub fn read_octal(text: &str) -> (r: Option<i64>)
    ensures
        r == octal(text@),
{
    let chars = chars_of(text);
    if chars.len() > 0 && chars[0] == '-' {
        match read_digits(&chars, 1) {
            Some(n) => if n == 0x8000_0000_0000_0000 {
                Some(i64::MIN)
            } else {
                Some(-(n as i64))
            },
            None => None,
        }
    } else {
        let from: usize = if chars.len() > 0 && chars[0] == '+' {
            1
        } else {
            0
        };
        assert(chars@.skip(0) =~= chars@);
        match read_digits(&chars, from) {
            Some(n) => if n <= 0x7FFF_FFFF_FFFF_FFFF {
                Some(n as i64)
            } else {
                None
            },
            None => None,
        }
    }
}

/// A trace as a plain value.
pub type Frames = Seq<(Stage, Detail)>;

/// What the parser says of a pair that is not what its rule promises.
pub open spec fn expected(pair: PairView) -> Detail {
    Detail {
        location: pair.place.location,
        excerpt: pair.place.line,
        message: "expected "@ + rule_name(pair.rule),
    }
}

/// A message about a pair, shown as the parser shows its own.
pub open spec fn custom(pair: PairView, message: Seq<char>) -> Detail {
    Detail { location: pair.place.location, excerpt: pair.place.line, message }
}

/// A message about the text of a pair.
pub open spec fn about(pair: PairView, message: Seq<char>) -> Detail {
    Detail { location: pair.span.location, excerpt: pair.span.line, message }
}

/// The trace of a pair that lacks a part.
pub open spec fn missing(pair: PairView) -> Frames {
    trace_new(Stage::Parsing, expected(pair))
}

/// The result of a part, with the frame of the pair that holds the part
/// added to the trace where the part failed.
pub open spec fn handled<T>(parent: Detail, result: Result<T, Frames>) -> Result<T, Frames> {
    match result {
        Ok(value) => Ok(value),
        Err(trace) => Err(trace_push(trace, Stage::Parsing, parent)),
    }
}

/// What a number is worth: the first word of the text, read in base eight,
/// times the multiplier that the second word names, if there is a second
/// word. The word for the multiplier is looked at first.
pub open spec fn number_value(pair: PairView) -> Result<i64, Frames> {
    let parts = words(pair.span.line);
    if parts.len() == 0 {
        Err(missing(pair))
    } else {
        let factor = if parts.len() >= 2 {
            multiplier_of(parts[1])
        } else {
            None
        };
        if parts.len() >= 2 && factor is None {
            Err(
                trace_new(
                    Stage::Parsing,
                    custom(pair, "Unimplemented multiplier: `"@ + parts[1] + "`"@),
                ),
            )
        } else {
            let by: int = if parts.len() >= 2 {
                factor.unwrap().spec_factor() as int
            } else {
                1
            };
            match octal(parts[0]) {
                Some(n) => if i64::MIN <= n * by <= i64::MAX {
                    Ok((n * by) as i64)
                } else {
                    Err(missing(pair))
                },
                None => Err(missing(pair)),
            }
        }
    }
}

/// The expression that a pair stands for.
///
/// An `expr` stands for what its first part stands for. A negation holds its
/// operand, a call its name and then its arguments, an array one part that
/// holds its items, a comparison its two sides and then the word that
/// compares them. A number, a string and an identifier are read from their
/// text. A pair that lacks a part is reported as the parser would report
/// it; a failure inside a part gets the frame of the pair that holds it.
pub open spec fn lower_expr(pair: PairView) -> Result<NodeView<ExprView>, Frames>
    decreases pair,
{
    match pair.rule {
        RuleView::Expr => if pair.inner.len() > 0 {
            lower_expr(pair.inner[0])
        } else {
            Err(missing(pair))
        },
        RuleView::Negation => if pair.inner.len() > 0 {
            match handled(expected(pair), lower_expr(pair.inner[0])) {
                Ok(operand) => Ok(
                    NodeView { span: pair.span, inner: ExprView::Negated(Box::new(operand)) },
                ),
                Err(trace) => Err(trace),
            }
        } else {
            Err(missing(pair))
        },
        RuleView::FunCall => if pair.inner.len() > 0 {
            match lower_exprs(expected(pair), pair.inner, 1, pair.inner.len() as int) {
                Ok(args) => Ok(
                    NodeView {
                        span: pair.span,
                        inner: ExprView::FunCall { name: pair.inner[0].span.line, args },
                    },
                ),
                Err(trace) => Err(trace),
            }
        } else {
            Err(missing(pair))
        },
        RuleView::Array => if pair.inner.len() > 0 {
            match lower_exprs(
                expected(pair),
                pair.inner[0].inner,
                0,
                pair.inner[0].inner.len() as int,
            ) {
                Ok(items) => Ok(NodeView { span: pair.span, inner: ExprView::Array { items } }),
                Err(trace) => Err(trace),
            }
        } else {
            Err(missing(pair))
        },
        RuleView::Comparison => if pair.inner.len() >= 3 {
            match handled(expected(pair), lower_expr(pair.inner[0])) {
                Ok(left) => match handled(expected(pair), lower_expr(pair.inner[1])) {
                    Ok(right) => match comparison_of(pair.inner[2].span.line) {
                        Some(operator) => Ok(
                            NodeView {
                                span: pair.span,
                                inner: ExprView::Comparison {
                                    left: Box::new(left),
                                    right: Box::new(right),
                                    operator,
                                },
                            },
                        ),
                        None => Err(
                            trace_new(
                                Stage::Parsing,
                                about(
                                    pair,
                                    "Unimplemented comparison operator: `"@
                                        + pair.inner[2].span.line + "`"@,
                                ),
                            ),
                        ),
                    },
                    Err(trace) => Err(trace),
                },
                Err(trace) => Err(trace),
            }
        } else {
            Err(missing(pair))
        },
        RuleView::Number => match number_value(pair) {
            Ok(n) => Ok(NodeView { span: pair.span, inner: ExprView::Number(n) }),
            Err(trace) => Err(trace),
        },
        RuleView::String => Ok(
            NodeView { span: pair.span, inner: ExprView::String(pair.span.line) },
        ),
        RuleView::Ident => Ok(NodeView { span: pair.span, inner: ExprView::Ident(pair.span.line) }),
        RuleView::FunIdent => Ok(
            NodeView { span: pair.span, inner: ExprView::Ident(pair.span.line) },
        ),
        _ => Err(
            trace_new(
                Stage::AstBuilding,
                custom(
                    pair,
                    "Missing expression-generating rule `"@ + rule_name(pair.rule)
                        + "` handling"@,
                ),
            ),
        ),
    }
}

/// The expressions that the pairs from `from` up to `upto` stand for, in
/// order; the first failure ends the list, with the frame `parent` added.
pub open spec fn lower_exprs(parent: Detail, pairs: Seq<PairView>, from: int, upto: int) -> Result<
    Seq<NodeView<ExprView>>,
    Frames,
>
    decreases pairs, upto,
{
    if upto <= from || upto > pairs.len() || from < 0 {
        Ok(Seq::<NodeView<ExprView>>::empty())
    } else {
        match lower_exprs(parent, pairs, from, upto - 1) {
            Ok(before) => match handled(parent, lower_expr(pairs[upto - 1])) {
                Ok(e) => Ok(before.push(e)),
                Err(trace) => Err(trace),
            },
            Err(trace) => Err(trace),
        }
    }
}

fn report_expected(pair: &Pair) -> (r: PestError)
    ensures
        r.detail() == expected(pair@),
{
    let mut text = "expected ".to_owned();
    text.append(pair.rule.name().as_str());
    PestError::new(*pair.place.line_col(), pair.place.as_str(), text.as_str())
}

fn report_custom(pair: &Pair, message: &str) -> (r: PestError)
    ensures
        r.detail() == custom(pair@, message@),
{
    PestError::new(*pair.place.line_col(), pair.place.as_str(), message)
}

fn report_missing(pair: &Pair) -> (r: Trace)
    ensures
        r@ == missing(pair@),
{
    Trace::new(Stage::Parsing, report_expected(pair))
}

/// Gives a result on, with the frame of `parent` added to its trace where
/// it is a failure.
pub fn handle<T>(parent: &Pair, result: Result<T, Trace>) -> (r: Result<T, Trace>)
    ensures
        match result {
            Ok(value) => r matches Ok(given) && given == value,
            Err(trace) => r matches Err(longer) && longer@ == trace_push(
                trace@,
                Stage::Parsing,
                expected(parent@),
            ),
        },
{
    match result {
        Ok(value) => Ok(value),
        Err(trace) => {
            let mut trace = trace;
            trace.push(Stage::Parsing, report_expected(parent));
            Err(trace)
        },
    }
}

fn number_of(pair: &Pair) -> (r: Result<i64, Trace>)
    ensures
        match r {
            Ok(n) => number_value(pair@) matches Ok(v) && v == n,
            Err(trace) => number_value(pair@) matches Err(e) && e == trace@,
        },
{
    let text = chars_of(pair.span.as_str());
    let parts = words_of(&text);
    if parts.len() == 0 {
        return Err(report_missing(pair));
    }
    let mut by: i64 = 1;
    if parts.len() >= 2 {
        let word = string_of(&parts[1]);
        match Multiplier::parse(word.as_str()) {
            Some(multiplier) => {
                by = multiplier.factor();
            },
            None => {
                let mut message = "Unimplemented multiplier: `".to_owned();
                message.append(word.as_str());
                message.append("`");
                return Err(Trace::new(Stage::Parsing, report_custom(pair, message.as_str())));
            },
        }
    }
    let digits = string_of(&parts[0]);
    match read_octal(digits.as_str()) {
        Some(n) => {
            let product: i128 = (n as i128) * (by as i128);
            if product < i64::MIN as i128 || product > i64::MAX as i128 {
                Err(report_missing(pair))
            } else {
                Ok(product as i64)
            }
        },
        None => Err(report_missing(pair)),
    }
}

/// A failure among the first pairs of a list is the failure of the list.
pub proof fn lemma_lower_exprs_prefix(
    parent: Detail,
    pairs: Seq<PairView>,
    from: int,
    failing: int,
    upto: int,
)
    requires
        0 <= from <= failing <= upto <= pairs.len(),
        lower_exprs(parent, pairs, from, failing) is Err,
    ensures
        lower_exprs(parent, pairs, from, upto) == lower_exprs(parent, pairs, from, failing),
    decreases upto - failing,
{
    if failing < upto {
        lemma_lower_exprs_prefix(parent, pairs, from, failing, upto - 1);
    }
}

/// Builds the expression that a pair stands for: see `lower_expr`.
pub fn build_ast_from_expr(pair: &Pair) -> (r: Result<AyNode<Expr>, Trace>)
    ensures
        match r {
            Ok(out) => lower_expr(pair@) matches Ok(v) && v == expr_node_view(out),
            Err(trace) => lower_expr(pair@) matches Err(e) && e == trace@,
        },
    decreases pair,
{
    match &pair.rule {
        Rule::Expr => if pair.inner.len() > 0 {
            build_ast_from_expr(&pair.inner[0])
        } else {
            Err(report_missing(pair))
        },
        Rule::Negation => if pair.inner.len() > 0 {
            match handle(pair, build_ast_from_expr(&pair.inner[0])) {
                Ok(operand) => Ok(
                    AyNode { span: pair.span.clone(), inner: Expr::Negated(Box::new(operand)) },
                ),
                Err(trace) => Err(trace),
            }
        } else {
            Err(report_missing(pair))
        },
        Rule::FunCall => if pair.inner.len() > 0 {
            match handle_iter(pair, &pair.inner, 1) {
                Ok(args) => Ok(
                    AyNode {
                        span: pair.span.clone(),
                        inner: Expr::FunCall {
                            name: pair.inner[0].span.as_str().to_owned(),
                            args,
                        },
                    },
                ),
                Err(trace) => Err(trace),
            }
        } else {
            Err(report_missing(pair))
        },
        Rule::Array => if pair.inner.len() > 0 {
            match handle_iter(pair, &pair.inner[0].inner, 0) {
                Ok(items) => Ok(AyNode { span: pair.span.clone(), inner: Expr::Array { items } }),
                Err(trace) => Err(trace),
            }
        } else {
            Err(report_missing(pair))
        },
        Rule::Comparison => if pair.inner.len() >= 3 {
            match handle(pair, build_ast_from_expr(&pair.inner[0])) {
                Ok(left) => match handle(pair, build_ast_from_expr(&pair.inner[1])) {
                    Ok(right) => {
                        let word = pair.inner[2].span.as_str();
                        match ComparisonOperator::parse(word) {
                            Some(operator) => Ok(
                                AyNode {
                                    span: pair.span.clone(),
                                    inner: Expr::Comparison {
                                        left: Box::new(left),
                                        right: Box::new(right),
                                        operator,
                                    },
                                },
                            ),
                            None => {
                                let mut message = "Unimplemented comparison operator: `".to_owned();
                                message.append(word);
                                message.append("`");
                                Err(Trace::new_from_pair(pair, message))
                            },
                        }
                    },
                    Err(trace) => Err(trace),
                },
                Err(trace) => Err(trace),
            }
        } else {
            Err(report_missing(pair))
        },
        Rule::Number => match number_of(pair) {
            Ok(n) => Ok(AyNode { span: pair.span.clone(), inner: Expr::Number(n) }),
            Err(trace) => Err(trace),
        },
        Rule::String => Ok(
            AyNode {
                span: pair.span.clone(),
                inner: Expr::String(pair.span.as_str().to_owned()),
            },
        ),
        Rule::Ident => Ok(
            AyNode { span: pair.span.clone(), inner: Expr::Ident(pair.span.as_str().to_owned()) },
        ),
        Rule::FunIdent => Ok(
            AyNode { span: pair.span.clone(), inner: Expr::Ident(pair.span.as_str().to_owned()) },
        ),
        _ => {
            let mut message = "Missing expression-generating rule `".to_owned();
            message.append(pair.rule.name().as_str());
            message.append("` handling");
            Err(Trace::new(Stage::AstBuilding, report_custom(pair, message.as_str())))
        },
    }
}

/// Builds the expressions that the pairs from `from` on stand for, in
/// order: see `lower_exprs`.
pub fn handle_iter(parent: &Pair, pairs: &Vec<Pair>, from: usize) -> (r: Result<
    Vec<AyNode<Expr>>,
    Trace,
>)
    ensures
        match r {
            Ok(out) => lower_exprs(expected(parent@), pairs_view(pairs@), from as int, pairs.len() as int)
                matches Ok(v) && v == exprs_view(out@),
            Err(trace) => lower_exprs(
                expected(parent@),
                pairs_view(pairs@),
                from as int,
                pairs.len() as int,
            ) matches Err(e) && e == trace@,
        },
    decreases pairs,
{
    let ghost all = pairs_view(pairs@);
    let ghost frame = expected(parent@);
    let mut out: Vec<AyNode<Expr>> = Vec::new();
    if from >= pairs.len() {
        assert(exprs_view(out@) =~= Seq::<NodeView<ExprView>>::empty());
        return Ok(out);
    }
    let mut i: usize = from;
    assert(exprs_view(out@) =~= Seq::<NodeView<ExprView>>::empty());
    while i < pairs.len()
        invariant
            from <= i <= pairs.len(),
            all == pairs_view(pairs@),
            frame == expected(parent@),
            lower_exprs(frame, all, from as int, i as int) matches Ok(v) && v == exprs_view(out@),
        decreases pairs.len() - i,
    {
        assert(all[i as int] == pair_view(pairs[i as int]));
        match handle(parent, build_ast_from_expr(&pairs[i])) {
            Ok(e) => {
                let ghost before = exprs_view(out@);
                out.push(e);
                assert(exprs_view(out@) =~= before.push(expr_node_view(e)));
            },
            Err(trace) => {
                proof {
                    lemma_lower_exprs_prefix(frame, all, from as int, i + 1, pairs.len() as int);
                }
                return Err(trace);
            },
        }
        i += 1;
    }
    Ok(out)
}

/// The texts of the identifiers among the first `upto` pairs, in order.
pub open spec fn ident_texts(pairs: Seq<PairView>, upto: int) -> Seq<Seq<char>>
    decreases upto,
{
    if upto <= 0 || upto > pairs.len() {
        Seq::<Seq<char>>::empty()
    } else if pairs[upto - 1].rule is Ident {
        ident_texts(pairs, upto - 1).push(pairs[upto - 1].span.line)
    } else {
        ident_texts(pairs, upto - 1)
    }
}

/// The expressions that those of the first `upto` pairs stand for that are
/// no identifiers, in order; the first failure ends the list.
pub open spec fn lower_values(pairs: Seq<PairView>, upto: int) -> Result<
    Seq<NodeView<ExprView>>,
    Frames,
>
    decreases pairs, upto,
{
    if upto <= 0 || upto > pairs.len() {
        Ok(Seq::<NodeView<ExprView>>::empty())
    } else {
        match lower_values(pairs, upto - 1) {
            Ok(before) => if pairs[upto - 1].rule is Ident {
                Ok(before)
            } else {
                match lower_expr(pairs[upto - 1]) {
                    Ok(e) => Ok(before.push(e)),
                    Err(trace) => Err(trace),
                }
            },
            Err(trace) => Err(trace),
        }
    }
}

/// The texts of the pairs, in order.
pub open spec fn texts(pairs: Seq<PairView>) -> Seq<Seq<char>> {
    Seq::new(pairs.len(), |i: int| pairs[i].span.line)
}

/// The statement that a pair stands for.
///
/// A `statement` stands for what its first part stands for, an `expr` for
/// the expression itself. A function holds its name, then its parameters
/// and its body, or its body alone, or nothing more. A declaration of
/// variables holds identifiers, which are its names, and other pairs, which
/// are its values: as many of the one as of the other. A conditional holds
/// its condition and its first branch, and may hold a second. A loop holds
/// its body, behind a condition or alone.
pub open spec fn lower_statement(pair: PairView) -> Result<NodeView<StatementView>, Frames>
    decreases pair,
{
    match pair.rule {
        RuleView::Expr => match handled(expected(pair), lower_expr(pair)) {
            Ok(e) => Ok(NodeView { span: pair.span, inner: StatementView::Expr(e) }),
            Err(trace) => Err(trace),
        },
        RuleView::FunDec => if pair.inner.len() == 0 {
            Err(missing(pair))
        } else if pair.inner.len() >= 3 {
            match lower_statements(expected(pair), pair.inner[2].inner, pair.inner[2].inner.len() as int) {
                Ok(body) => Ok(
                    NodeView {
                        span: pair.span,
                        inner: StatementView::FunDec {
                            name: pair.inner[0].span.line,
                            args: texts(pair.inner[1].inner),
                            body,
                        },
                    },
                ),
                Err(trace) => Err(trace),
            }
        } else if pair.inner.len() == 2 {
            match lower_statements(expected(pair), pair.inner[1].inner, pair.inner[1].inner.len() as int) {
                Ok(body) => Ok(
                    NodeView {
                        span: pair.span,
                        inner: StatementView::FunDec {
                            name: pair.inner[0].span.line,
                            args: Seq::<Seq<char>>::empty(),
                            body,
                        },
                    },
                ),
                Err(trace) => Err(trace),
            }
        } else {
            Ok(
                NodeView {
                    span: pair.span,
                    inner: StatementView::FunDec {
                        name: pair.inner[0].span.line,
                        args: Seq::<Seq<char>>::empty(),
                        body: Seq::<NodeView<StatementView>>::empty(),
                    },
                },
            )
        },
        RuleView::VarDec => {
            let names = ident_texts(pair.inner, pair.inner.len() as int);
            if 2 * names.len() != pair.inner.len() {
                Err(missing(pair))
            } else {
                match lower_values(pair.inner, pair.inner.len() as int) {
                    Ok(values) => Ok(
                        NodeView { span: pair.span, inner: StatementView::VarDec { names, values } },
                    ),
                    Err(trace) => Err(trace),
                }
            }
        },
        RuleView::IfBlock => if pair.inner.len() >= 2 {
            match lower_expr(pair.inner[0]) {
                Ok(cond) => match lower_statements(
                    expected(pair),
                    pair.inner[1].inner,
                    pair.inner[1].inner.len() as int,
                ) {
                    Ok(then) => if pair.inner.len() >= 3 {
                        match lower_statements(
                            expected(pair),
                            pair.inner[2].inner,
                            pair.inner[2].inner.len() as int,
                        ) {
                            Ok(otherwise) => Ok(
                                NodeView {
                                    span: pair.span,
                                    inner: StatementView::If { cond, then, otherwise },
                                },
                            ),
                            Err(trace) => Err(trace),
                        }
                    } else {
                        Ok(
                            NodeView {
                                span: pair.span,
                                inner: StatementView::If {
                                    cond,
                                    then,
                                    otherwise: Seq::<NodeView<StatementView>>::empty(),
                                },
                            },
                        )
                    },
                    Err(trace) => Err(trace),
                },
                Err(trace) => Err(trace),
            }
        } else {
            Err(missing(pair))
        },
        RuleView::LoopBlock => if pair.inner.len() == 0 {
            Err(missing(pair))
        } else if pair.inner.len() == 1 {
            match lower_statements(expected(pair), pair.inner[0].inner, pair.inner[0].inner.len() as int) {
                Ok(body) => Ok(
                    NodeView { span: pair.span, inner: StatementView::Loop { cond: None, body } },
                ),
                Err(trace) => Err(trace),
            }
        } else {
            match handled(expected(pair), lower_expr(pair.inner[0])) {
                Ok(cond) => match lower_statements(
                    expected(pair),
                    pair.inner[1].inner,
                    pair.inner[1].inner.len() as int,
                ) {
                    Ok(body) => Ok(
                        NodeView {
                            span: pair.span,
                            inner: StatementView::Loop { cond: Some(cond), body },
                        },
                    ),
                    Err(trace) => Err(trace),
                },
                Err(trace) => Err(trace),
            }
        },
        RuleView::Statement => if pair.inner.len() > 0 {
            lower_statement(pair.inner[0])
        } else {
            Err(missing(pair))
        },
        _ => Err(
            trace_new(
                Stage::AstBuilding,
                custom(
                    pair,
                    "Missing statement-generating rule `"@ + rule_name(pair.rule) + "` handling"@,
                ),
            ),
        ),
    }
}

/// The statements that the first `upto` pairs stand for, in order; the
/// first failure ends the list, with the frame `parent` added.
pub open spec fn lower_statements(parent: Detail, pairs: Seq<PairView>, upto: int) -> Result<
    Seq<NodeView<StatementView>>,
    Frames,
>
    decreases pairs, upto,
{
    if upto <= 0 || upto > pairs.len() {
        Ok(Seq::<NodeView<StatementView>>::empty())
    } else {
        match lower_statements(parent, pairs, upto - 1) {
            Ok(before) => match handled(parent, lower_statement(pairs[upto - 1])) {
                Ok(s) => Ok(before.push(s)),
                Err(trace) => Err(trace),
            },
            Err(trace) => Err(trace),
        }
    }
}

/// A failure among the first pairs of a list is the failure of the list.
pub proof fn lemma_lower_statements_prefix(
    parent: Detail,
    pairs: Seq<PairView>,
    failing: int,
    upto: int,
)
    requires
        0 <= failing <= upto <= pairs.len(),
        lower_statements(parent, pairs, failing) is Err,
    ensures
        lower_statements(parent, pairs, upto) == lower_statements(parent, pairs, failing),
    decreases upto - failing,
{
    if failing < upto {
        lemma_lower_statements_prefix(parent, pairs, failing, upto - 1);
    }
}

/// A failure among the first values of a declaration is the failure of all.
pub proof fn lemma_lower_values_prefix(pairs: Seq<PairView>, failing: int, upto: int)
    requires
        0 <= failing <= upto <= pairs.len(),
        lower_values(pairs, failing) is Err,
    ensures
        lower_values(pairs, upto) == lower_values(pairs, failing),
    decreases upto - failing,
{
    if failing < upto {
        lemma_lower_values_prefix(pairs, failing, upto - 1);
    }
}

fn texts_of(pairs: &Vec<Pair>) -> (r: Vec<String>)
    ensures
        names_view(r@) == texts(pairs_view(pairs@)),
{
    let mut out: Vec<String> = Vec::new();
    let mut i: usize = 0;
    while i < pairs.len()
        invariant
            i <= pairs.len(),
            out.len() == i,
            forall|j: int| 0 <= j < i ==> (#[trigger] out[j])@ == pairs[j].span@.line,
        decreases pairs.len() - i,
    {
        out.push(pairs[i].span.as_str().to_owned());
        i += 1;
    }
    assert(names_view(out@) =~= texts(pairs_view(pairs@)));
    out
}

fn names_among(pairs: &Vec<Pair>) -> (r: Vec<String>)
    ensures
        names_view(r@) == ident_texts(pairs_view(pairs@), pairs.len() as int),
{
    let ghost all = pairs_view(pairs@);
    let mut out: Vec<String> = Vec::new();
    let mut i: usize = 0;
    assert(names_view(out@) =~= ident_texts(all, 0));
    while i < pairs.len()
        invariant
            i <= pairs.len(),
            all == pairs_view(pairs@),
            names_view(out@) == ident_texts(all, i as int),
        decreases pairs.len() - i,
    {
        assert(all[i as int] == pair_view(pairs[i as int]));
        match &pairs[i].rule {
            Rule::Ident => {
                let ghost before = names_view(out@);
                out.push(pairs[i].span.as_str().to_owned());
                assert(names_view(out@) =~= before.push(pairs[i as int].span@.line));
            },
            _ => {},
        }
        i += 1;
    }
    out
}

fn values_among(pairs: &Vec<Pair>) -> (r: Result<Vec<AyNode<Expr>>, Trace>)
    ensures
        match r {
            Ok(out) => lower_values(pairs_view(pairs@), pairs.len() as int) matches Ok(v) && v
                == exprs_view(out@),
            Err(trace) => lower_values(pairs_view(pairs@), pairs.len() as int) matches Err(e) && e
                == trace@,
        },
{
    let ghost all = pairs_view(pairs@);
    let mut out: Vec<AyNode<Expr>> = Vec::new();
    let mut i: usize = 0;
    assert(exprs_view(out@) =~= Seq::<NodeView<ExprView>>::empty());
    while i < pairs.len()
        invariant
            i <= pairs.len(),
            all == pairs_view(pairs@),
            lower_values(all, i as int) matches Ok(v) && v == exprs_view(out@),
        decreases pairs.len() - i,
    {
        assert(all[i as int] == pair_view(pairs[i as int]));
        match &pairs[i].rule {
            Rule::Ident => {},
            _ => match build_ast_from_expr(&pairs[i]) {
                Ok(e) => {
                    let ghost before = exprs_view(out@);
                    out.push(e);
                    assert(exprs_view(out@) =~= before.push(expr_node_view(e)));
                },
                Err(trace) => {
                    proof {
                        lemma_lower_values_prefix(all, i + 1, pairs.len() as int);
                    }
                    return Err(trace);
                },
            },
        }
        i += 1;
    }
    Ok(out)
}

/// Builds the statement that a pair stands for: see `lower_statement`.
pub fn build_ast_from_statement(pair: &Pair) -> (r: Result<AyNode<Statement>, Trace>)
    ensures
        match r {
            Ok(out) => lower_statement(pair@) matches Ok(v) && v == statement_node_view(out),
            Err(trace) => lower_statement(pair@) matches Err(e) && e == trace@,
        },
    decreases pair,
{
    proof {
        assert forall|k: int| 0 <= k < pair.inner.len() implies #[trigger] pair@.inner[k]
            == pair.inner[k]@ && pair@.inner[k].inner == pairs_view(pair.inner[k].inner@) by {}
        if pair.inner.len() >= 1 {
            assert(pair@.inner[0] == pair.inner[0]@);
        }
        if pair.inner.len() >= 2 {
            assert(pair@.inner[1] == pair.inner[1]@);
        }
        if pair.inner.len() >= 3 {
            assert(pair@.inner[2] == pair.inner[2]@);
        }
    }
    match &pair.rule {
        Rule::Expr => match handle(pair, build_ast_from_expr(pair)) {
            Ok(e) => Ok(AyNode { span: pair.span.clone(), inner: Statement::Expr(e) }),
            Err(trace) => Err(trace),
        },
        Rule::FunDec => {
            if pair.inner.len() == 0 {
                return Err(report_missing(pair));
            }
            let name = pair.inner[0].span.as_str().to_owned();
            if pair.inner.len() >= 3 {
                match statements_in(pair, &pair.inner[2].inner) {
                    Ok(body) => Ok(
                        AyNode {
                            span: pair.span.clone(),
                            inner: Statement::FunDec {
                                name,
                                args: texts_of(&pair.inner[1].inner),
                                body,
                            },
                        },
                    ),
                    Err(trace) => Err(trace),
                }
            } else if pair.inner.len() == 2 {
                match statements_in(pair, &pair.inner[1].inner) {
                    Ok(body) => {
                        let args: Vec<String> = Vec::new();
                        assert(names_view(args@) =~= Seq::<Seq<char>>::empty());
                        Ok(
                            AyNode {
                                span: pair.span.clone(),
                                inner: Statement::FunDec { name, args, body },
                            },
                        )
                    },
                    Err(trace) => Err(trace),
                }
            } else {
                let args: Vec<String> = Vec::new();
                let body: Vec<AyNode<Statement>> = Vec::new();
                assert(names_view(args@) =~= Seq::<Seq<char>>::empty());
                assert(statements_view(body@) =~= Seq::<NodeView<StatementView>>::empty());
                Ok(AyNode { span: pair.span.clone(), inner: Statement::FunDec { name, args, body } })
            }
        },
        Rule::VarDec => {
            let names = names_among(&pair.inner);
            if names.len() > pair.inner.len() || names.len() != pair.inner.len() - names.len() {
                return Err(report_missing(pair));
            }
            match values_among(&pair.inner) {
                Ok(values) => Ok(
                    AyNode { span: pair.span.clone(), inner: Statement::VarDec { names, values } },
                ),
                Err(trace) => Err(trace),
            }
        },
        Rule::IfBlock => {
            if pair.inner.len() < 2 {
                return Err(report_missing(pair));
            }
            let cond = match build_ast_from_expr(&pair.inner[0]) {
                Ok(cond) => cond,
                Err(trace) => {
                    return Err(trace);
                },
            };
            let then = match statements_in(pair, &pair.inner[1].inner) {
                Ok(then) => then,
                Err(trace) => {
                    return Err(trace);
                },
            };
            if pair.inner.len() >= 3 {
                match statements_in(pair, &pair.inner[2].inner) {
                    Ok(otherwise) => Ok(
                        AyNode {
                            span: pair.span.clone(),
                            inner: Statement::If { cond, then, otherwise },
                        },
                    ),
                    Err(trace) => Err(trace),
                }
            } else {
                let otherwise: Vec<AyNode<Statement>> = Vec::new();
                assert(statements_view(otherwise@) =~= Seq::<NodeView<StatementView>>::empty());
                Ok(AyNode { span: pair.span.clone(), inner: Statement::If { cond, then, otherwise } })
            }
        },
        Rule::LoopBlock => {
            if pair.inner.len() == 0 {
                Err(report_missing(pair))
            } else if pair.inner.len() == 1 {
                match statements_in(pair, &pair.inner[0].inner) {
                    Ok(body) => Ok(
                        AyNode {
                            span: pair.span.clone(),
                            inner: Statement::Loop { cond: None, body },
                        },
                    ),
                    Err(trace) => Err(trace),
                }
            } else {
                match handle(pair, build_ast_from_expr(&pair.inner[0])) {
                    Ok(cond) => match statements_in(pair, &pair.inner[1].inner) {
                        Ok(body) => Ok(
                            AyNode {
                                span: pair.span.clone(),
                                inner: Statement::Loop { cond: Some(cond), body },
                            },
                        ),
                        Err(trace) => Err(trace),
                    },
                    Err(trace) => Err(trace),
                }
            }
        },
        Rule::Statement => if pair.inner.len() > 0 {
            build_ast_from_statement(&pair.inner[0])
        } else {
            Err(report_missing(pair))
        },
        _ => {
            let mut message = "Missing statement-generating rule `".to_owned();
            message.append(pair.rule.name().as_str());
            message.append("` handling");
            Err(Trace::new(Stage::AstBuilding, report_custom(pair, message.as_str())))
        },
    }
}

fn statements_in(parent: &Pair, pairs: &Vec<Pair>) -> (r: Result<Vec<AyNode<Statement>>, Trace>)
    ensures
        match r {
            Ok(out) => lower_statements(expected(parent@), pairs_view(pairs@), pairs.len() as int)
                matches Ok(v) && v == statements_view(out@),
            Err(trace) => lower_statements(
                expected(parent@),
                pairs_view(pairs@),
                pairs.len() as int,
            ) matches Err(e) && e == trace@,
        },
    decreases pairs,
{
    let ghost all = pairs_view(pairs@);
    let ghost frame = expected(parent@);
    let mut out: Vec<AyNode<Statement>> = Vec::new();
    let mut i: usize = 0;
    assert(statements_view(out@) =~= Seq::<NodeView<StatementView>>::empty());
    while i < pairs.len()
        invariant
            i <= pairs.len(),
            all == pairs_view(pairs@),
            frame == expected(parent@),
            lower_statements(frame, all, i as int) matches Ok(v) && v == statements_view(out@),
        decreases pairs.len() - i,
    {
        assert(all[i as int] == pair_view(pairs[i as int]));
        match handle(parent, build_ast_from_statement(&pairs[i])) {
            Ok(s) => {
                let ghost before = statements_view(out@);
                out.push(s);
                assert(statements_view(out@) =~= before.push(statement_node_view(s)));
            },
            Err(trace) => {
                proof {
                    lemma_lower_statements_prefix(frame, all, i + 1, pairs.len() as int);
                }
                return Err(trace);
            },
        }
        i += 1;
    }
    Ok(out)
}

/// Whether `text` ends with `suffix`.
pub open spec fn ends_with(text: Seq<char>, suffix: Seq<char>) -> bool {
    suffix.len() <= text.len() && text.skip(text.len() - suffix.len()) == suffix
}

/// The name of a directory, taken from the possessive that names it: the
/// possessive without its ending, `yä` or, failing that, `ä`.
pub open spec fn possessor(text: Seq<char>) -> Option<Seq<char>> {
    if ends_with(text, "yä"@) {
        Some(text.take(text.len() - "yä"@.len()))
    } else if ends_with(text, "ä"@) {
        Some(text.take(text.len() - "ä"@.len()))
    } else {
        None
    }
}

/// What a part of an import adds to the path: a possessive names a
/// directory, an identifier the file.
pub open spec fn module_part(pair: PairView) -> Option<Seq<char>> {
    match pair.rule {
        RuleView::Possessive => match possessor(pair.span.line) {
            Some(directory) => Some(directory + "/"@),
            None => None,
        },
        RuleView::Ident => Some(pair.span.line + ".ay"@),
        _ => None,
    }
}

/// The path that the first `upto` parts of an import name, if each of them
/// names a part of one.
pub open spec fn module_parts(pairs: Seq<PairView>, upto: int) -> Option<Seq<char>>
    decreases upto,
{
    if upto <= 0 || upto > pairs.len() {
        Some(Seq::<char>::empty())
    } else {
        match module_parts(pairs, upto - 1) {
            Some(before) => match module_part(pairs[upto - 1]) {
                Some(part) => Some(before + part),
                None => None,
            },
            None => None,
        }
    }
}

/// A part that names nothing leaves the import without a path.
pub proof fn lemma_module_parts_prefix(pairs: Seq<PairView>, failing: int, upto: int)
    requires
        0 <= failing <= upto <= pairs.len(),
        module_parts(pairs, failing) is None,
    ensures
        module_parts(pairs, upto) is None,
    decreases upto - failing,
{
    if failing < upto {
        lemma_module_parts_prefix(pairs, failing, upto - 1);
    }
}

fn has_suffix(text: &Vec<char>, suffix: &Vec<char>) -> (r: bool)
    ensures
        r == ends_with(text@, suffix@),
{
    if suffix.len() > text.len() {
        return false;
    }
    let from: usize = text.len() - suffix.len();
    let mut i: usize = 0;
    while i < suffix.len()
        invariant
            i <= suffix.len(),
            from + suffix.len() == text.len(),
            forall|k: int| 0 <= k < i ==> text[from + k] == suffix[k],
        decreases suffix.len() - i,
    {
        if text[from + i] != suffix[i] {
            assert(text@.skip(from as int)[i as int] != suffix@[i as int]);
            return false;
        }
        i += 1;
    }
    assert(text@.skip(from as int) =~= suffix@);
    true
}

/// The path of the module that an import names, from the directory of the
/// importing file: a directory for each possessive, then the file. `None`
/// where a part of the import names neither.
pub fn import_path(pair: &Pair) -> (r: Option<String>)
    ensures
        match r {
            Some(path) => module_parts(pair@.inner, pair@.inner.len() as int) == Some(path@),
            None => module_parts(pair@.inner, pair@.inner.len() as int) is None,
        },
{
    let ghost all = pair@.inner;
    let long = chars_of("yä");
    let short = chars_of("ä");
    let mut out = String::new();
    let mut i: usize = 0;
    while i < pair.inner.len()
        invariant
            i <= pair.inner.len(),
            all == pair@.inner,
            long@ == "yä"@,
            short@ == "ä"@,
            module_parts(all, i as int) == Some(out@),
        decreases pair.inner.len() - i,
    {
        let part = &pair.inner[i];
        assert(all[i as int] == part@);
        let text = chars_of(part.span.as_str());
        match &part.rule {
            Rule::Possessive => {
                let keep: usize = if has_suffix(&text, &long) {
                    text.len() - long.len()
                } else if has_suffix(&text, &short) {
                    text.len() - short.len()
                } else {
                    proof {
                        lemma_module_parts_prefix(all, i + 1, all.len() as int);
                    }
                    return None;
                };
                let mut directory = String::new();
                crate::text::push_chars(&mut directory, &text, 0, keep);
                assert(directory@ =~= text@.take(keep as int));
                directory.append("/");
                out.append(directory.as_str());
            },
            Rule::Ident => {
                let mut file = part.span.as_str().to_owned();
                file.append(".ay");
                out.append(file.as_str());
            },
            _ => {
                proof {
                    lemma_module_parts_prefix(all, i + 1, all.len() as int);
                }
                return None;
            },
        }
        i += 1;
    }
    Some(out)
}

/// What a pair at the top of a program asks for.
#[derive(Debug, PartialEq, Eq)]
pub enum Step {
    /// A statement of the program.
    Statement(AyNode<Statement>),
    /// An import: the statements of another file stand here.
    Module,
    /// The end of the input, which adds nothing.
    Nothing,
}

/// A step as a plain value.
pub enum StepView {
    Statement(NodeView<StatementView>),
    Module,
    Nothing,
}

impl View for Step {
    type V = StepView;

    open spec fn view(&self) -> StepView {
        match self {
            Step::Statement(node) => StepView::Statement(statement_node_view(*node)),
            Step::Module => StepView::Module,
            Step::Nothing => StepView::Nothing,
        }
    }
}

/// What a pair at the top of a program asks for. An import can be followed
/// only from a file, whose directory it starts from; in a text without a
/// file it is a failure. A rule that has no place at the top is one too.
pub open spec fn top_level(pair: PairView, in_file: bool) -> Result<StepView, Frames> {
    match pair.rule {
        RuleView::ModUse => if in_file {
            Ok(StepView::Module)
        } else {
            Err(
                trace_new(
                    Stage::AstBuilding,
                    custom(pair, "Missing script directory information"@),
                ),
            )
        },
        RuleView::Statement => match lower_statement(pair) {
            Ok(node) => Ok(StepView::Statement(node)),
            Err(trace) => Err(trace),
        },
        RuleView::EOI => Ok(StepView::Nothing),
        _ => Err(
            trace_new(Stage::Unknown, custom(pair, "Unknown rule: "@ + rule_name(pair.rule))),
        ),
    }
}

/// Reads one pair from the top of a program: see `top_level`.
pub fn parse_pair(pair: &Pair, in_file: bool) -> (r: Result<Step, Trace>)
    ensures
        match r {
            Ok(step) => top_level(pair@, in_file) matches Ok(v) && v == step@,
            Err(trace) => top_level(pair@, in_file) matches Err(e) && e == trace@,
        },
{
    match &pair.rule {
        Rule::ModUse => if in_file {
            Ok(Step::Module)
        } else {
            Err(
                Trace::new(
                    Stage::AstBuilding,
                    report_custom(pair, "Missing script directory information"),
                ),
            )
        },
        Rule::Statement => match build_ast_from_statement(pair) {
            Ok(node) => Ok(Step::Statement(node)),
            Err(trace) => Err(trace),
        },
        Rule::EOI => Ok(Step::Nothing),
        _ => {
            let mut message = "Unknown rule: ".to_owned();
            message.append(pair.rule.name().as_str());
            Err(Trace::new(Stage::Unknown, report_custom(pair, message.as_str())))
        },
    }
}

} // verus!
