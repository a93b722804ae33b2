//! Script text of conditions, token by token.
use crate::etl::script::ast::{
    bare_dsl, cond_dsl, conds_dsl, expr_dsl, list_dsl, not_word, op_symbol, precedence, CmpOp,
    ComparisonView, CondView, ExprView, IsEmptyView,
};
use crate::etl::script::grammar::{expr, Env};
use crate::etl::script::lexer::{in_run, symbol_at, word_tok, Kw, Run, Sym, TokView};
use crate::etl::script::readback::expressions::{expr_at, lemma_reads_expr};
use crate::etl::script::readback::values::{
    expr_ok, expr_toks, is_word, lemma_int_text, lemma_reads_both, lemma_reads_space,
    lemma_reads_sym, lemma_reads_word, lemma_words, reads_as, stops,
};
use vstd::prelude::*;

verus! {

/// A condition as scripts can hold it: every expression can be written, AND and
/// OR join at least two conditions of another kind, and a list is not empty.
pub open spec fn cond_ok(c: CondView, env: Env) -> bool
    decreases c,
{
    match c {
        CondView::And(v) => v.len() >= 2 && forall|i: int|
            0 <= i < v.len() ==> !(v[i] is And) && cond_ok(#[trigger] v[i], env),
        CondView::Or(v) => v.len() >= 2 && forall|i: int|
            0 <= i < v.len() ==> !(v[i] is Or) && cond_ok(#[trigger] v[i], env),
        CondView::Not(b) => cond_ok(*b, env),
        CondView::Compare(x) => expr_ok(x.left, env) && expr_ok(x.right, env),
        CondView::IsEmpty(x) => expr_ok(x.expr, env),
        CondView::In { expr, list, .. } => expr_ok(expr, env) && list.len() > 0 && forall|i: int|
            0 <= i < list.len() ==> expr_ok(#[trigger] list[i], env),
        CondView::Like { expr, pattern, .. } => expr_ok(expr, env) && expr_ok(pattern, env),
        CondView::Between { expr, low, high, .. } => expr_ok(expr, env) && expr_ok(low, env)
            && expr_ok(high, env),
    }
}

pub open spec fn op_sym(op: CmpOp) -> Sym {
    match op {
        CmpOp::Eq => Sym::Eq,
        CmpOp::Ne => Sym::Ne,
        CmpOp::Gt => Sym::Gt,
        CmpOp::Lt => Sym::Lt,
        CmpOp::Ge => Sym::Ge,
        CmpOp::Le => Sym::Le,
    }
}

pub open spec fn not_toks(negated: bool) -> Seq<TokView> {
    if negated {
        seq![TokView::Kw(Kw::Not)]
    } else {
        seq![]
    }
}

/// The tokens of expressions with commas between neighbours.
pub open spec fn list_toks(v: Seq<ExprView>) -> Seq<TokView>
    decreases v.len(),
{
    if v.len() == 0 {
        seq![]
    } else if v.len() == 1 {
        expr_toks(v[0])
    } else {
        list_toks(v.drop_last()) + (seq![TokView::Sym(Sym::Comma)] + expr_toks(v.last()))
    }
}

/// The tokens of conditions with `sep` between neighbours.
pub open spec fn conds_toks(v: Seq<CondView>, parent: int, sep: Sym) -> Seq<TokView>
    decreases v, 0int,
{
    if v.len() == 0 {
        seq![]
    } else if v.len() == 1 {
        cond_toks(v[0], parent)
    } else {
        conds_toks(v.drop_last(), parent, sep) + (seq![TokView::Sym(sep)] + cond_toks(
            v.last(),
            parent,
        ))
    }
}

/// The tokens of a condition without parentheses around it.
pub open spec fn bare_toks(c: CondView) -> Seq<TokView>
    decreases c, 0int,
{
    match c {
        CondView::Or(v) => conds_toks(v, 1, Sym::OrOr),
        CondView::And(v) => conds_toks(v, 2, Sym::AndAnd),
        CondView::Not(b) => seq![TokView::Sym(Sym::Bang)] + cond_toks(*b, 3),
        CondView::Compare(x) => expr_toks(x.left) + (seq![TokView::Sym(op_sym(x.op))] + expr_toks(
            x.right,
        )),
        CondView::IsEmpty(x) => expr_toks(x.expr) + (seq![TokView::Kw(Kw::Is)] + (not_toks(
            x.negated,
        ) + seq![TokView::Kw(Kw::Empty)])),
        CondView::In { expr, list, negated, .. } => expr_toks(expr) + (not_toks(negated) + (seq![
            TokView::Kw(Kw::In),
            TokView::Sym(Sym::LParen),
        ] + (list_toks(list) + seq![TokView::Sym(Sym::RParen)]))),
        CondView::Like { expr, pattern, negated, .. } => expr_toks(expr) + (not_toks(negated) + (
        seq![TokView::Kw(Kw::Like)] + expr_toks(pattern))),
        CondView::Between { expr, low, high, negated, .. } => expr_toks(expr) + (not_toks(negated)
            + (seq![TokView::Kw(Kw::Between)] + (expr_toks(low) + (seq![TokView::Ident("AND"@)]
            + expr_toks(high))))),
    }
}

/// The tokens of a condition below an operator of precedence `parent`.
pub open spec fn cond_toks(c: CondView, parent: int) -> Seq<TokView>
    decreases c, 1int,
{
    if precedence(c) < parent {
        seq![TokView::Sym(Sym::LParen)] + (bare_toks(c) + seq![TokView::Sym(Sym::RParen)])
    } else {
        bare_toks(c)
    }
}

/// A condition with the line that it was read on.
pub open spec fn cond_at(c: CondView, line: usize) -> CondView
    decreases c,
{
    match c {
        CondView::And(v) => CondView::And(conds_at(v, line)),
        CondView::Or(v) => CondView::Or(conds_at(v, line)),
        CondView::Not(b) => CondView::Not(Box::new(cond_at(*b, line))),
        CondView::Compare(x) => CondView::Compare(
            ComparisonView {
                left: expr_at(x.left, line),
                op: x.op,
                right: expr_at(x.right, line),
                line,
            },
        ),
        CondView::IsEmpty(x) => CondView::IsEmpty(
            IsEmptyView { expr: expr_at(x.expr, line), negated: x.negated, line },
        ),
        CondView::In { expr, list, negated, .. } => CondView::In {
            expr: expr_at(expr, line),
            list: Seq::new(list.len(), |i: int| expr_at(list[i], line)),
            negated,
            line,
        },
        CondView::Like { expr, pattern, negated, .. } => CondView::Like {
            expr: expr_at(expr, line),
            pattern: expr_at(pattern, line),
            negated,
            line,
        },
        CondView::Between { expr, low, high, negated, .. } => CondView::Between {
            expr: expr_at(expr, line),
            low: expr_at(low, line),
            high: expr_at(high, line),
            negated,
            line,
        },
    }
}

pub open spec fn conds_at(v: Seq<CondView>, line: usize) -> Seq<CondView>
    decreases v,
{
    if v.len() == 0 {
        seq![]
    } else {
        conds_at(v.drop_last(), line).push(cond_at(v.last(), line))
    }
}

pub(crate) proof fn lemma_conds_at(v: Seq<CondView>, line: usize)
    ensures
        conds_at(v, line).len() == v.len(),
        forall|i: int| 0 <= i < v.len() ==> #[trigger] conds_at(v, line)[i] == cond_at(v[i], line),
    decreases v.len(),
{
    if v.len() > 0 {
        lemma_conds_at(v.drop_last(), line);
    }
}

proof fn lemma_space_before(w: Seq<char>, toks: Seq<TokView>, rest: Seq<char>, line: usize)
    requires
        reads_as(w, toks, rest, line),
    ensures
        reads_as(seq![' '] + w, toks, rest, line),
{
    lemma_reads_space(w + rest, line);
    lemma_reads_both(seq![' '], seq![], w, toks, rest, line);
    assert(Seq::<TokView>::empty() + toks =~= toks);
}

proof fn lemma_word_before(
    word: Seq<char>,
    w: Seq<char>,
    toks: Seq<TokView>,
    rest: Seq<char>,
    line: usize,
)
    requires
        is_word(word),
        reads_as(w, toks, rest, line),
        w.len() > 0 && w[0] == ' ' || w.len() == 0 && stops(rest),
    ensures
        reads_as(word + w, seq![word_tok(word)] + toks, rest, line),
{
    let tail = w + rest;
    if w.len() > 0 {
        assert(tail[0] == ' ');
    } else {
        assert(tail =~= rest);
    }
    lemma_reads_word(word, tail, line);
    lemma_reads_both(word, seq![word_tok(word)], w, toks, rest, line);
}

proof fn lemma_expr_before(
    e: ExprView,
    env: Env,
    w: Seq<char>,
    toks: Seq<TokView>,
    rest: Seq<char>,
    line: usize,
)
    requires
        expr_ok(e, env),
        reads_as(w, toks, rest, line),
        w.len() > 0,
        stops(w),
    ensures
        reads_as(expr_dsl(e) + w, expr_toks(e) + toks, rest, line),
{
    assert((w + rest)[0] == w[0]);
    lemma_reads_expr(e, env, w + rest, line);
    lemma_reads_both(expr_dsl(e), expr_toks(e), w, toks, rest, line);
}

proof fn lemma_sym_before(
    sign: Seq<char>,
    sym: Sym,
    w: Seq<char>,
    toks: Seq<TokView>,
    rest: Seq<char>,
    line: usize,
)
    requires
        sign.len() > 0,
        symbol_at(sign + (w + rest)) == Some((sym, sign.len())),
        reads_as(w, toks, rest, line),
    ensures
        reads_as(sign + w, seq![TokView::Sym(sym)] + toks, rest, line),
{
    lemma_reads_sym(sign, sym, w + rest, line);
    lemma_reads_both(sign, seq![TokView::Sym(sym)], w, toks, rest, line);
}

/// The fixed pieces between the operands of a test.
proof fn lemma_pieces()
    ensures
        " "@ == seq![' '],
        ""@ == Seq::<char>::empty(),
        " IS "@ == seq![' '] + ("IS"@ + seq![' ']),
        "NOT "@ == "NOT"@ + seq![' '],
        "IN ("@ == "IN"@ + (seq![' '] + seq!['(']),
        "LIKE "@ == "LIKE"@ + seq![' '],
        "BETWEEN "@ == "BETWEEN"@ + seq![' '],
        " AND "@ == seq![' '] + ("AND"@ + seq![' ']),
        " || "@ == seq![' '] + (seq!['|', '|'] + seq![' ']),
        " && "@ == seq![' '] + (seq!['&', '&'] + seq![' ']),
        ", "@ == seq![','] + seq![' '],
        "("@ == seq!['('],
        ")"@ == seq![')'],
        "!"@ == seq!['!'],
{
    reveal_strlit(" ");
    reveal_strlit("");
    reveal_strlit(" IS ");
    reveal_strlit("IS");
    reveal_strlit("NOT ");
    reveal_strlit("NOT");
    reveal_strlit("IN (");
    reveal_strlit("IN");
    reveal_strlit("LIKE ");
    reveal_strlit("LIKE");
    reveal_strlit("BETWEEN ");
    reveal_strlit("BETWEEN");
    reveal_strlit(" AND ");
    reveal_strlit("AND");
    reveal_strlit(" || ");
    reveal_strlit(" && ");
    reveal_strlit(", ");
    reveal_strlit("(");
    reveal_strlit(")");
    reveal_strlit("!");
}

proof fn lemma_not_before(
    negated: bool,
    w: Seq<char>,
    toks: Seq<TokView>,
    rest: Seq<char>,
    line: usize,
)
    requires
        reads_as(w, toks, rest, line),
    ensures
        reads_as(not_word(negated) + w, not_toks(negated) + toks, rest, line),
{
    lemma_pieces();
    lemma_words();
    if negated {
        lemma_space_before(w, toks, rest, line);
        lemma_word_before("NOT"@, seq![' '] + w, toks, rest, line);
        assert(not_word(negated) + w =~= "NOT"@ + (seq![' '] + w));
    } else {
        assert(not_word(negated) + w =~= w);
        assert(not_toks(negated) + toks =~= toks);
    }
}

proof fn lemma_reads_compare(x: ComparisonView, env: Env, rest: Seq<char>, line: usize)
    requires
        expr_ok(x.left, env),
        expr_ok(x.right, env),
        stops(rest),
    ensures
        reads_as(
            bare_dsl(CondView::Compare(x)),
            bare_toks(CondView::Compare(x)),
            rest,
            line,
        ),
{
    lemma_pieces();
    reveal_strlit("==");
    reveal_strlit("!=");
    reveal_strlit(">");
    reveal_strlit("<");
    reveal_strlit(">=");
    reveal_strlit("<=");
    let right = expr_dsl(x.right);
    let sign = op_symbol(x.op);
    lemma_reads_expr(x.right, env, rest, line);
    lemma_space_before(right, expr_toks(x.right), rest, line);
    let w = seq![' '] + right;
    let cs = sign + (w + rest);
    assert(cs[0] == sign[0]);
    assert(cs[1] == (if sign.len() > 1 {
        sign[1]
    } else {
        ' '
    }));
    lemma_sym_before(sign, op_sym(x.op), w, expr_toks(x.right), rest, line);
    let toks = seq![TokView::Sym(op_sym(x.op))] + expr_toks(x.right);
    lemma_space_before(sign + w, toks, rest, line);
    let tail = seq![' '] + (sign + w);
    lemma_expr_before(x.left, env, tail, toks, rest, line);
    assert(bare_dsl(CondView::Compare(x)) =~= expr_dsl(x.left) + tail);
}

proof fn lemma_reads_empty(x: IsEmptyView, env: Env, rest: Seq<char>, line: usize)
    requires
        expr_ok(x.expr, env),
        stops(rest),
    ensures
        reads_as(
            bare_dsl(CondView::IsEmpty(x)),
            bare_toks(CondView::IsEmpty(x)),
            rest,
            line,
        ),
{
    lemma_pieces();
    lemma_words();
    let last = seq![TokView::Kw(Kw::Empty)];
    lemma_reads_word("EMPTY"@, rest, line);
    lemma_not_before(x.negated, "EMPTY"@, last, rest, line);
    let w = not_word(x.negated) + "EMPTY"@;
    let toks = not_toks(x.negated) + last;
    lemma_space_before(w, toks, rest, line);
    lemma_word_before("IS"@, seq![' '] + w, toks, rest, line);
    let is_toks = seq![TokView::Kw(Kw::Is)] + toks;
    lemma_space_before("IS"@ + (seq![' '] + w), is_toks, rest, line);
    let tail = seq![' '] + ("IS"@ + (seq![' '] + w));
    lemma_expr_before(x.expr, env, tail, is_toks, rest, line);
    assert(bare_dsl(CondView::IsEmpty(x)) =~= expr_dsl(x.expr) + tail);
}

proof fn lemma_reads_like(
    e: ExprView,
    pattern: ExprView,
    negated: bool,
    env: Env,
    rest: Seq<char>,
    line: usize,
)
    requires
        expr_ok(e, env),
        expr_ok(pattern, env),
        stops(rest),
    ensures
        reads_as(
            expr_dsl(e) + " "@ + not_word(negated) + "LIKE "@ + expr_dsl(pattern),
            expr_toks(e) + (not_toks(negated) + (seq![TokView::Kw(Kw::Like)] + expr_toks(pattern))),
            rest,
            line,
        ),
{
    lemma_pieces();
    lemma_words();
    let right = expr_dsl(pattern);
    lemma_reads_expr(pattern, env, rest, line);
    lemma_space_before(right, expr_toks(pattern), rest, line);
    lemma_word_before("LIKE"@, seq![' '] + right, expr_toks(pattern), rest, line);
    let w = "LIKE"@ + (seq![' '] + right);
    let toks = seq![TokView::Kw(Kw::Like)] + expr_toks(pattern);
    lemma_not_before(negated, w, toks, rest, line);
    lemma_space_before(not_word(negated) + w, not_toks(negated) + toks, rest, line);
    let tail = seq![' '] + (not_word(negated) + w);
    lemma_expr_before(e, env, tail, not_toks(negated) + toks, rest, line);
    assert(expr_dsl(e) + " "@ + not_word(negated) + "LIKE "@ + right =~= expr_dsl(e) + tail);
}

#[verifier::rlimit(40)]
proof fn lemma_reads_between(
    e: ExprView,
    low: ExprView,
    high: ExprView,
    negated: bool,
    env: Env,
    rest: Seq<char>,
    line: usize,
)
    requires
        expr_ok(e, env),
        expr_ok(low, env),
        expr_ok(high, env),
        stops(rest),
    ensures
        reads_as(
            expr_dsl(e) + " "@ + not_word(negated) + "BETWEEN "@ + expr_dsl(low) + " AND "@
                + expr_dsl(high),
            expr_toks(e) + (not_toks(negated) + (seq![TokView::Kw(Kw::Between)] + (expr_toks(low)
                + (seq![TokView::Ident("AND"@)] + expr_toks(high))))),
            rest,
            line,
        ),
{
    lemma_pieces();
    lemma_words();
    let right = expr_dsl(high);
    lemma_reads_expr(high, env, rest, line);
    lemma_space_before(right, expr_toks(high), rest, line);
    lemma_word_before("AND"@, seq![' '] + right, expr_toks(high), rest, line);
    let and_text = "AND"@ + (seq![' '] + right);
    let and_toks = seq![TokView::Ident("AND"@)] + expr_toks(high);
    lemma_space_before(and_text, and_toks, rest, line);
    lemma_expr_before(low, env, seq![' '] + and_text, and_toks, rest, line);
    let low_text = expr_dsl(low) + (seq![' '] + and_text);
    let low_toks = expr_toks(low) + and_toks;
    lemma_space_before(low_text, low_toks, rest, line);
    lemma_word_before("BETWEEN"@, seq![' '] + low_text, low_toks, rest, line);
    let w = "BETWEEN"@ + (seq![' '] + low_text);
    let toks = seq![TokView::Kw(Kw::Between)] + low_toks;
    lemma_not_before(negated, w, toks, rest, line);
    lemma_space_before(not_word(negated) + w, not_toks(negated) + toks, rest, line);
    let tail = seq![' '] + (not_word(negated) + w);
    lemma_expr_before(e, env, tail, not_toks(negated) + toks, rest, line);
    assert(expr_dsl(e) + " "@ + not_word(negated) + "BETWEEN "@ + expr_dsl(low) + " AND "@ + right
        =~= expr_dsl(e) + tail);
}

proof fn lemma_reads_list(v: Seq<ExprView>, env: Env, rest: Seq<char>, line: usize)
    requires
        v.len() > 0,
        forall|i: int| 0 <= i < v.len() ==> expr_ok(#[trigger] v[i], env),
        stops(rest),
    ensures
        reads_as(list_dsl(v), list_toks(v), rest, line),
    decreases v.len(),
{
    lemma_pieces();
    assert(expr_ok(v.last(), env));
    if v.len() == 1 {
        lemma_reads_expr(v[0], env, rest, line);
    } else {
        let front = v.drop_last();
        assert forall|i: int| 0 <= i < front.len() implies expr_ok(#[trigger] front[i], env) by {
            assert(front[i] == v[i]);
        }
        let e = v.last();
        lemma_reads_expr(e, env, rest, line);
        lemma_space_before(expr_dsl(e), expr_toks(e), rest, line);
        let w = seq![' '] + expr_dsl(e);
        assert((seq![','] + (w + rest))[0] == ',');
        lemma_sym_before(seq![','], Sym::Comma, w, expr_toks(e), rest, line);
        let tail = seq![','] + w;
        let toks = seq![TokView::Sym(Sym::Comma)] + expr_toks(e);
        assert((tail + rest)[0] == ',');
        lemma_reads_list(front, env, tail + rest, line);
        lemma_reads_both(list_dsl(front), list_toks(front), tail, toks, rest, line);
        assert(list_dsl(v) =~= list_dsl(front) + tail);
    }
}

#[verifier::rlimit(40)]
proof fn lemma_reads_in(
    e: ExprView,
    list: Seq<ExprView>,
    negated: bool,
    env: Env,
    rest: Seq<char>,
    line: usize,
)
    requires
        expr_ok(e, env),
        list.len() > 0,
        forall|i: int| 0 <= i < list.len() ==> expr_ok(#[trigger] list[i], env),
        stops(rest),
    ensures
        reads_as(
            expr_dsl(e) + " "@ + not_word(negated) + "IN ("@ + list_dsl(list) + ")"@,
            expr_toks(e) + (not_toks(negated) + (seq![
                TokView::Kw(Kw::In),
                TokView::Sym(Sym::LParen),
            ] + (list_toks(list) + seq![TokView::Sym(Sym::RParen)]))),
            rest,
            line,
        ),
{
    lemma_pieces();
    lemma_words();
    let close = seq![')'];
    let close_toks = seq![TokView::Sym(Sym::RParen)];
    assert((close + rest)[0] == ')');
    lemma_reads_sym(close, Sym::RParen, rest, line);
    lemma_reads_list(list, env, close + rest, line);
    lemma_reads_both(list_dsl(list), list_toks(list), close, close_toks, rest, line);
    let items = list_dsl(list) + close;
    let item_toks = list_toks(list) + close_toks;
    let open = seq!['('];
    assert((open + (items + rest))[0] == '(');
    lemma_sym_before(open, Sym::LParen, items, item_toks, rest, line);
    let group = open + items;
    let group_toks = seq![TokView::Sym(Sym::LParen)] + item_toks;
    lemma_space_before(group, group_toks, rest, line);
    lemma_word_before("IN"@, seq![' '] + group, group_toks, rest, line);
    let w = "IN"@ + (seq![' '] + group);
    let toks = seq![TokView::Kw(Kw::In)] + group_toks;
    assert(toks =~= seq![TokView::Kw(Kw::In), TokView::Sym(Sym::LParen)] + item_toks);
    lemma_not_before(negated, w, toks, rest, line);
    lemma_space_before(not_word(negated) + w, not_toks(negated) + toks, rest, line);
    let tail = seq![' '] + (not_word(negated) + w);
    lemma_expr_before(e, env, tail, not_toks(negated) + toks, rest, line);
    assert(expr_dsl(e) + " "@ + not_word(negated) + "IN ("@ + list_dsl(list) + ")"@ =~= expr_dsl(e)
        + tail);
}

proof fn lemma_expr_start(e: ExprView, env: Env)
    requires
        expr_ok(e, env),
    ensures
        expr_dsl(e).len() > 0,
        expr_dsl(e)[0] != '=',
{
    match e {
        ExprView::Col(r) => {
            assert(expr_dsl(e)[0] == r.alias[0]);
            assert(in_run(r.alias[0], Run::Word));
        },
        ExprView::Text(_) => {},
        ExprView::Concat(_) => {},
        ExprView::Int(v) => {
            lemma_int_text(v);
        },
        ExprView::Gen(_) => {
            reveal_strlit("Gen.");
        },
        ExprView::Bool(_) => {
            reveal_strlit("TRUE");
            reveal_strlit("FALSE");
        },
        ExprView::Null => {
            reveal_strlit("NULL");
        },
        _ => {},
    }
}

/// No condition starts with `=`.
proof fn lemma_cond_start(c: CondView, parent: int, env: Env)
    requires
        cond_ok(c, env),
    ensures
        cond_dsl(c, parent).len() > 0,
        cond_dsl(c, parent)[0] != '=',
    decreases c, 1int,
{
    lemma_pieces();
    let bare = bare_dsl(c);
    match c {
        CondView::Or(v) => {
            lemma_conds_start(v, 1, " || "@, env);
        },
        CondView::And(v) => {
            lemma_conds_start(v, 2, " && "@, env);
        },
        CondView::Not(b) => {
            assert(bare[0] == '!');
        },
        CondView::Compare(x) => {
            lemma_expr_start(x.left, env);
            assert(bare[0] == expr_dsl(x.left)[0]);
        },
        CondView::IsEmpty(x) => {
            lemma_expr_start(x.expr, env);
            assert(bare[0] == expr_dsl(x.expr)[0]);
        },
        CondView::In { expr, .. } => {
            lemma_expr_start(expr, env);
            assert(bare[0] == expr_dsl(expr)[0]);
        },
        CondView::Like { expr, .. } => {
            lemma_expr_start(expr, env);
            assert(bare[0] == expr_dsl(expr)[0]);
        },
        CondView::Between { expr, .. } => {
            lemma_expr_start(expr, env);
            assert(bare[0] == expr_dsl(expr)[0]);
        },
    }
    if precedence(c) < parent {
        assert(cond_dsl(c, parent)[0] == '(');
    }
}

proof fn lemma_conds_start(v: Seq<CondView>, parent: int, sep: Seq<char>, env: Env)
    requires
        v.len() > 0,
        forall|i: int| 0 <= i < v.len() ==> cond_ok(#[trigger] v[i], env),
    ensures
        conds_dsl(v, parent, sep).len() > 0,
        conds_dsl(v, parent, sep)[0] != '=',
    decreases v, 0int,
{
    if v.len() == 1 {
        lemma_cond_start(v[0], parent, env);
    } else {
        let front = v.drop_last();
        assert forall|i: int| 0 <= i < front.len() implies cond_ok(#[trigger] front[i], env) by {
            assert(front[i] == v[i]);
        }
        lemma_conds_start(front, parent, sep, env);
        assert(conds_dsl(v, parent, sep)[0] == conds_dsl(front, parent, sep)[0]);
    }
}

/// How `&&` and `||` are written.
pub open spec fn joiner(sep: Sym) -> Seq<char> {
    if sep == Sym::AndAnd {
        " && "@
    } else {
        " || "@
    }
}

/// A condition is read as its tokens.
proof fn lemma_reads_cond(c: CondView, parent: int, env: Env, rest: Seq<char>, line: usize)
    requires
        cond_ok(c, env),
        stops(rest),
    ensures
        reads_as(cond_dsl(c, parent), cond_toks(c, parent), rest, line),
    decreases c, 1int,
{
    if precedence(c) < parent {
        lemma_pieces();
        let close = seq![')'];
        let close_toks = seq![TokView::Sym(Sym::RParen)];
        assert((close + rest)[0] == ')');
        lemma_reads_sym(close, Sym::RParen, rest, line);
        lemma_reads_bare(c, env, close + rest, line);
        lemma_reads_both(bare_dsl(c), bare_toks(c), close, close_toks, rest, line);
        let w = bare_dsl(c) + close;
        let open = seq!['('];
        assert((open + (w + rest))[0] == '(');
        lemma_sym_before(open, Sym::LParen, w, bare_toks(c) + close_toks, rest, line);
        assert(cond_dsl(c, parent) =~= open + w);
    } else {
        lemma_reads_bare(c, env, rest, line);
    }
}

pub(crate) proof fn lemma_reads_bare(c: CondView, env: Env, rest: Seq<char>, line: usize)
    requires
        cond_ok(c, env),
        stops(rest),
    ensures
        reads_as(bare_dsl(c), bare_toks(c), rest, line),
    decreases c, 0int,
{
    match c {
        CondView::Or(v) => {
            lemma_reads_conds(v, 1, Sym::OrOr, env, rest, line);
        },
        CondView::And(v) => {
            lemma_reads_conds(v, 2, Sym::AndAnd, env, rest, line);
        },
        CondView::Not(b) => {
            lemma_pieces();
            lemma_reads_cond(*b, 3, env, rest, line);
            lemma_cond_start(*b, 3, env);
            let w = cond_dsl(*b, 3);
            let cs = seq!['!'] + (w + rest);
            assert(cs[0] == '!' && cs[1] == w[0]);
            lemma_sym_before(seq!['!'], Sym::Bang, w, cond_toks(*b, 3), rest, line);
        },
        CondView::Compare(x) => {
            lemma_reads_compare(x, env, rest, line);
        },
        CondView::IsEmpty(x) => {
            lemma_reads_empty(x, env, rest, line);
        },
        CondView::In { expr, list, negated, .. } => {
            lemma_reads_in(expr, list, negated, env, rest, line);
        },
        CondView::Like { expr, pattern, negated, .. } => {
            lemma_reads_like(expr, pattern, negated, env, rest, line);
        },
        CondView::Between { expr, low, high, negated, .. } => {
            lemma_reads_between(expr, low, high, negated, env, rest, line);
        },
    }
}

proof fn lemma_reads_conds(
    v: Seq<CondView>,
    parent: int,
    sep: Sym,
    env: Env,
    rest: Seq<char>,
    line: usize,
)
    requires
        v.len() > 0,
        sep == Sym::AndAnd || sep == Sym::OrOr,
        forall|i: int| 0 <= i < v.len() ==> cond_ok(#[trigger] v[i], env),
        stops(rest),
    ensures
        reads_as(conds_dsl(v, parent, joiner(sep)), conds_toks(v, parent, sep), rest, line),
    decreases v, 0int,
{
    lemma_pieces();
    let c = v.last();
    assert(cond_ok(v[v.len() - 1], env));
    if v.len() == 1 {
        lemma_reads_cond(v[0], parent, env, rest, line);
    } else {
        let front = v.drop_last();
        assert forall|i: int| 0 <= i < front.len() implies cond_ok(#[trigger] front[i], env) by {
            assert(front[i] == v[i]);
        }
        lemma_reads_cond(c, parent, env, rest, line);
        let toks = cond_toks(c, parent);
        lemma_space_before(cond_dsl(c, parent), toks, rest, line);
        let w = seq![' '] + cond_dsl(c, parent);
        let sign = if sep == Sym::AndAnd {
            seq!['&', '&']
        } else {
            seq!['|', '|']
        };
        let cs = sign + (w + rest);
        assert(cs[0] == sign[0] && cs[1] == sign[1]);
        lemma_sym_before(sign, sep, w, toks, rest, line);
        let tail_toks = seq![TokView::Sym(sep)] + toks;
        lemma_space_before(sign + w, tail_toks, rest, line);
        let tail = seq![' '] + (sign + w);
        assert((tail + rest)[0] == ' ');
        lemma_reads_conds(front, parent, sep, env, tail + rest, line);
        lemma_reads_both(
            conds_dsl(front, parent, joiner(sep)),
            conds_toks(front, parent, sep),
            tail,
            tail_toks,
            rest,
            line,
        );
        assert(conds_dsl(v, parent, joiner(sep)) =~= conds_dsl(front, parent, joiner(sep)) + tail);
    }
}

} // verus!
