//! Conditions from script text, and what comes back of what was written.
use crate::etl::script::ast::{
    bare_dsl, cond_dsl, expr_dsl, ComparisonView, CondView, ExprView, IsEmptyView,
};
use crate::etl::script::clauses::IssueView;
use crate::etl::script::grammar::{
    and_cond, and_terms, comma_exprs, expr, is_kw, is_sym, line_at, not_cond, or_cond, or_terms,
    primary, simple_test, test_rest, Env,
};
use crate::etl::script::lexer::{lex_spec, Kw, Sym, TokView, TokenView};
use crate::etl::script::readback::conditions::{
    bare_toks, cond_at, cond_ok, cond_toks, conds_at, conds_toks, lemma_conds_at, lemma_reads_bare,
    list_toks, not_toks, op_sym,
};
use crate::etl::script::readback::expressions::{
    ends_operand, expr_at, holds_at, lemma_expr_parses, lemma_holds_parts, lemma_reads_all,
    lemma_reads_expr, lemma_tok,
};
use crate::etl::script::readback::values::{expr_ok, expr_toks, lined};
use vstd::prelude::*;

verus! {

/// All tokens are on one line.
pub open spec fn one_line(ts: Seq<TokenView>, line: usize) -> bool {
    forall|i: int| 0 <= i < ts.len() ==> (#[trigger] ts[i]).line == line
}

proof fn lemma_list_prefix(v: Seq<ExprView>, i: int, ts: Seq<TokenView>, p: nat)
    requires
        0 < i <= v.len(),
        holds_at(ts, p, list_toks(v)),
    ensures
        holds_at(ts, p, list_toks(v.take(i))),
    decreases v.len(),
{
    if i < v.len() {
        let front = v.drop_last();
        lemma_holds_parts(
            ts,
            p,
            list_toks(front),
            seq![TokView::Sym(Sym::Comma)] + expr_toks(v.last()),
        );
        lemma_list_prefix(front, i, ts, p);
        assert(front.take(i) =~= v.take(i));
    } else {
        assert(v.take(i) =~= v);
    }
}

proof fn lemma_list_step(v: Seq<ExprView>, i: int)
    requires
        0 < i < v.len(),
    ensures
        list_toks(v.take(i + 1)) == list_toks(v.take(i)) + (seq![TokView::Sym(Sym::Comma)]
            + expr_toks(v[i])),
{
    assert(v.take(i + 1).drop_last() =~= v.take(i));
}

/// The rest of a list behind its first `i` expressions.
#[verifier::rlimit(40)]
proof fn lemma_list_parses(
    v: Seq<ExprView>,
    i: int,
    ts: Seq<TokenView>,
    p: nat,
    env: Env,
    line: usize,
)
    requires
        0 < i <= v.len(),
        !env.scope.legacy,
        one_line(ts, line),
        forall|k: int| 0 <= k < v.len() ==> expr_ok(#[trigger] v[k], env),
        holds_at(ts, p, list_toks(v)),
        is_sym(ts, p + list_toks(v).len(), Sym::RParen),
    ensures
        comma_exprs(ts, p + list_toks(v.take(i)).len(), env) == Ok::<
            (Seq<ExprView>, nat),
            IssueView,
        >((Seq::new((v.len() - i) as nat, |k: int| expr_at(v[i + k], line)), p + list_toks(v).len())),
    decreases v.len() - i,
{
    let out = Seq::new((v.len() - i) as nat, |k: int| expr_at(v[i + k], line));
    let at = p + list_toks(v.take(i)).len();
    if i == v.len() {
        assert(v.take(i) =~= v);
        assert(out =~= seq![]);
    } else {
        let e = v[i];
        let comma = seq![TokView::Sym(Sym::Comma)];
        lemma_list_step(v, i);
        lemma_list_prefix(v, i + 1, ts, p);
        lemma_holds_parts(ts, p, list_toks(v.take(i)), comma + expr_toks(e));
        lemma_holds_parts(ts, at, comma, expr_toks(e));
        lemma_tok(ts, at, comma, 0);
        let next = at + 1 + expr_toks(e).len();
        assert(next == p + list_toks(v.take(i + 1)).len());
        if i + 1 < v.len() {
            lemma_list_step(v, i + 1);
            lemma_list_prefix(v, i + 2, ts, p);
            lemma_holds_parts(ts, p, list_toks(v.take(i + 1)), comma + expr_toks(v[i + 1]));
            lemma_holds_parts(ts, next, comma, expr_toks(v[i + 1]));
            lemma_tok(ts, next, comma, 0);
        } else {
            assert(v.take(i + 1) =~= v);
        }
        lemma_expr_parses(e, ts, at + 1, env);
        lemma_list_parses(v, i + 1, ts, p, env, line);
        let rest = Seq::new((v.len() - (i + 1)) as nat, |k: int| expr_at(v[i + 1 + k], line));
        assert(out =~= seq![expr_at(e, line)] + rest);
    }
}

/// A test starts with its first operand.
proof fn lemma_test_start(left: ExprView, ts: Seq<TokenView>, p: nat, env: Env, line: usize)
    requires
        expr_ok(left, env),
        !env.scope.legacy,
        one_line(ts, line),
        holds_at(ts, p, expr_toks(left)),
        ends_operand(ts, p + expr_toks(left).len()),
    ensures
        not_cond(ts, p, env) == test_rest(
            ts,
            p + expr_toks(left).len(),
            env,
            expr_at(left, line),
            line,
        ),
{
    lemma_tok(ts, p, expr_toks(left), 0);
    assert(!(expr_toks(left)[0] is Sym));
    assert(line_at(ts, p) == line);
    lemma_expr_parses(left, ts, p, env);
    assert(primary(ts, p, env) == simple_test(ts, p, env));
    assert(not_cond(ts, p, env) == primary(ts, p, env));
}

proof fn lemma_compare_parses(x: ComparisonView, ts: Seq<TokenView>, p: nat, env: Env, line: usize)
    requires
        expr_ok(x.left, env),
        expr_ok(x.right, env),
        !env.scope.legacy,
        one_line(ts, line),
        holds_at(ts, p, bare_toks(CondView::Compare(x))),
        ends_operand(ts, p + bare_toks(CondView::Compare(x)).len()),
    ensures
        not_cond(ts, p, env) == Ok::<(CondView, nat), IssueView>(
            (
                cond_at(CondView::Compare(x), line),
                p + bare_toks(CondView::Compare(x)).len(),
            ),
        ),
{
    let sign = seq![TokView::Sym(op_sym(x.op))];
    let tail = sign + expr_toks(x.right);
    let q = p + expr_toks(x.left).len();
    lemma_holds_parts(ts, p, expr_toks(x.left), tail);
    lemma_holds_parts(ts, q, sign, expr_toks(x.right));
    lemma_tok(ts, q, sign, 0);
    lemma_test_start(x.left, ts, p, env, line);
    lemma_expr_parses(x.right, ts, q + 1, env);
}

proof fn lemma_empty_parses(x: IsEmptyView, ts: Seq<TokenView>, p: nat, env: Env, line: usize)
    requires
        expr_ok(x.expr, env),
        !env.scope.legacy,
        one_line(ts, line),
        holds_at(ts, p, bare_toks(CondView::IsEmpty(x))),
    ensures
        not_cond(ts, p, env) == Ok::<(CondView, nat), IssueView>(
            (
                cond_at(CondView::IsEmpty(x), line),
                p + bare_toks(CondView::IsEmpty(x)).len(),
            ),
        ),
{
    let is = seq![TokView::Kw(Kw::Is)];
    let empty = seq![TokView::Kw(Kw::Empty)];
    let q = p + expr_toks(x.expr).len();
    lemma_holds_parts(ts, p, expr_toks(x.expr), is + (not_toks(x.negated) + empty));
    lemma_holds_parts(ts, q, is, not_toks(x.negated) + empty);
    lemma_tok(ts, q, is, 0);
    lemma_test_start(x.expr, ts, p, env, line);
    lemma_holds_parts(ts, q + 1, not_toks(x.negated), empty);
    let r = q + 1 + not_toks(x.negated).len();
    lemma_tok(ts, r, empty, 0);
    if x.negated {
        lemma_tok(ts, q + 1, not_toks(x.negated), 0);
    }
}

/// The place of the word behind NOT, or of the first word where there is no NOT.
proof fn lemma_not_parses(
    negated: bool,
    word: Kw,
    more: Seq<TokView>,
    ts: Seq<TokenView>,
    q: nat,
)
    requires
        word != Kw::Not && word != Kw::Is,
        holds_at(ts, q, not_toks(negated) + (seq![TokView::Kw(word)] + more)),
    ensures
        is_kw(ts, q, Kw::Not) == negated,
        !is_kw(ts, q, Kw::Is),
        ends_operand(ts, q),
        is_kw(ts, q + not_toks(negated).len(), word),
        holds_at(ts, q + not_toks(negated).len() + 1, more),
{
    let w = seq![TokView::Kw(word)];
    lemma_holds_parts(ts, q, not_toks(negated), w + more);
    let r = q + not_toks(negated).len();
    lemma_holds_parts(ts, r, w, more);
    lemma_tok(ts, r, w, 0);
    if negated {
        lemma_tok(ts, q, not_toks(negated), 0);
    }
}

/// A list in parentheses.
#[verifier::rlimit(40)]
proof fn lemma_group_parses(list: Seq<ExprView>, ts: Seq<TokenView>, at: nat, env: Env, line: usize)
    requires
        list.len() > 0,
        forall|k: int| 0 <= k < list.len() ==> expr_ok(#[trigger] list[k], env),
        !env.scope.legacy,
        one_line(ts, line),
        holds_at(ts, at, list_toks(list) + seq![TokView::Sym(Sym::RParen)]),
    ensures
        expr(ts, at, env) == Ok::<(ExprView, nat), IssueView>(
            (expr_at(list[0], line), at + expr_toks(list[0]).len()),
        ),
        comma_exprs(ts, at + expr_toks(list[0]).len(), env) == Ok::<
            (Seq<ExprView>, nat),
            IssueView,
        >(
            (
                Seq::new((list.len() - 1) as nat, |k: int| expr_at(list[1 + k], line)),
                at + list_toks(list).len(),
            ),
        ),
        is_sym(ts, at + list_toks(list).len(), Sym::RParen),
{
    let close = seq![TokView::Sym(Sym::RParen)];
    lemma_holds_parts(ts, at, list_toks(list), close);
    let end = at + list_toks(list).len();
    lemma_tok(ts, end, close, 0);
    lemma_list_prefix(list, 1, ts, at);
    assert(list.take(1) =~= seq![list[0]]);
    assert(list_toks(list.take(1)) == expr_toks(list[0]));
    let next = at + expr_toks(list[0]).len();
    if list.len() > 1 {
        let comma = seq![TokView::Sym(Sym::Comma)];
        lemma_list_step(list, 1);
        lemma_list_prefix(list, 2, ts, at);
        lemma_holds_parts(ts, at, list_toks(list.take(1)), comma + expr_toks(list[1]));
        lemma_holds_parts(ts, next, comma, expr_toks(list[1]));
        lemma_tok(ts, next, comma, 0);
    } else {
        assert(list.take(1) =~= list);
    }
    assert(expr_ok(list[0], env));
    lemma_expr_parses(list[0], ts, at, env);
    lemma_tok(ts, at, expr_toks(list[0]), 0);
    lemma_list_parses(list, 1, ts, at, env, line);
}

#[verifier::rlimit(40)]
proof fn lemma_in_parses(c: CondView, ts: Seq<TokenView>, p: nat, env: Env, line: usize)
    requires
        c is In,
        cond_ok(c, env),
        !env.scope.legacy,
        one_line(ts, line),
        holds_at(ts, p, bare_toks(c)),
    ensures
        not_cond(ts, p, env) == Ok::<(CondView, nat), IssueView>(
            (cond_at(c, line), p + bare_toks(c).len()),
        ),
{
    if let CondView::In { expr: left, list, negated, line: _ } = c {
        let items = list_toks(list) + seq![TokView::Sym(Sym::RParen)];
        let open = seq![TokView::Sym(Sym::LParen)];
        let more = open + items;
        assert(seq![TokView::Kw(Kw::In), TokView::Sym(Sym::LParen)] + items =~= seq![
            TokView::Kw(Kw::In),
        ] + more);
        let q = p + expr_toks(left).len();
        lemma_holds_parts(
            ts,
            p,
            expr_toks(left),
            not_toks(negated) + (seq![TokView::Kw(Kw::In)] + more),
        );
        lemma_not_parses(negated, Kw::In, more, ts, q);
        lemma_test_start(left, ts, p, env, line);
        let r = q + not_toks(negated).len() + 1;
        lemma_holds_parts(ts, r, open, items);
        lemma_tok(ts, r, open, 0);
        lemma_group_parses(list, ts, r + 1, env, line);
        assert(Seq::new(list.len(), |k: int| expr_at(list[k], line)) =~= seq![
            expr_at(list[0], line),
        ] + Seq::new((list.len() - 1) as nat, |k: int| expr_at(list[1 + k], line)));
    }
}

proof fn lemma_like_parses(c: CondView, ts: Seq<TokenView>, p: nat, env: Env, line: usize)
    requires
        c is Like,
        cond_ok(c, env),
        !env.scope.legacy,
        one_line(ts, line),
        holds_at(ts, p, bare_toks(c)),
        ends_operand(ts, p + bare_toks(c).len()),
    ensures
        not_cond(ts, p, env) == Ok::<(CondView, nat), IssueView>(
            (cond_at(c, line), p + bare_toks(c).len()),
        ),
{
    if let CondView::Like { expr: left, pattern, negated, line: _ } = c {
        let more = expr_toks(pattern);
        let q = p + expr_toks(left).len();
        lemma_holds_parts(
            ts,
            p,
            expr_toks(left),
            not_toks(negated) + (seq![TokView::Kw(Kw::Like)] + more),
        );
        lemma_not_parses(negated, Kw::Like, more, ts, q);
        lemma_test_start(left, ts, p, env, line);
        let r = q + not_toks(negated).len() + 1;
        lemma_tok(ts, r, more, 0);
        lemma_expr_parses(pattern, ts, r, env);
    }
}

#[verifier::rlimit(40)]
proof fn lemma_between_parses(c: CondView, ts: Seq<TokenView>, p: nat, env: Env, line: usize)
    requires
        c is Between,
        cond_ok(c, env),
        !env.scope.legacy,
        one_line(ts, line),
        holds_at(ts, p, bare_toks(c)),
        ends_operand(ts, p + bare_toks(c).len()),
    ensures
        not_cond(ts, p, env) == Ok::<(CondView, nat), IssueView>(
            (cond_at(c, line), p + bare_toks(c).len()),
        ),
{
    if let CondView::Between { expr: left, low, high, negated, line: _ } = c {
        let and = seq![TokView::Ident("AND"@)];
        let more = expr_toks(low) + (and + expr_toks(high));
        let q = p + expr_toks(left).len();
        lemma_holds_parts(
            ts,
            p,
            expr_toks(left),
            not_toks(negated) + (seq![TokView::Kw(Kw::Between)] + more),
        );
        lemma_not_parses(negated, Kw::Between, more, ts, q);
        lemma_test_start(left, ts, p, env, line);
        let r = q + not_toks(negated).len() + 1;
        lemma_holds_parts(ts, r, expr_toks(low), and + expr_toks(high));
        let m = r + expr_toks(low).len();
        lemma_holds_parts(ts, m, and, expr_toks(high));
        lemma_tok(ts, m, and, 0);
        lemma_tok(ts, r, expr_toks(low), 0);
        lemma_tok(ts, m + 1, expr_toks(high), 0);
        lemma_expr_parses(low, ts, r, env);
        lemma_expr_parses(high, ts, m + 1, env);
    }
}

/// The tokens of a test stand for it.
proof fn lemma_test_parses(c: CondView, ts: Seq<TokenView>, p: nat, env: Env, line: usize)
    requires
        !(c is And) && !(c is Or) && !(c is Not),
        cond_ok(c, env),
        !env.scope.legacy,
        one_line(ts, line),
        holds_at(ts, p, bare_toks(c)),
        ends_operand(ts, p + bare_toks(c).len()),
    ensures
        not_cond(ts, p, env) == Ok::<(CondView, nat), IssueView>(
            (cond_at(c, line), p + bare_toks(c).len()),
        ),
{
    match c {
        CondView::Compare(x) => {
            lemma_compare_parses(x, ts, p, env, line);
        },
        CondView::IsEmpty(x) => {
            lemma_empty_parses(x, ts, p, env, line);
        },
        CondView::In { .. } => {
            lemma_in_parses(c, ts, p, env, line);
        },
        CondView::Like { .. } => {
            lemma_like_parses(c, ts, p, env, line);
        },
        CondView::Between { .. } => {
            lemma_between_parses(c, ts, p, env, line);
        },
        _ => {},
    }
}

proof fn lemma_cond_has_toks(c: CondView, parent: int, env: Env)
    requires
        cond_ok(c, env),
    ensures
        bare_toks(c).len() > 0,
        cond_toks(c, parent).len() > 0,
{
    match c {
        CondView::And(v) => {
            assert(conds_toks(v, 2, Sym::AndAnd).len() > 0);
        },
        CondView::Or(v) => {
            assert(conds_toks(v, 1, Sym::OrOr).len() > 0);
        },
        _ => {},
    }
    assert(bare_toks(c).len() > 0);
}

proof fn lemma_conds_prefix(
    v: Seq<CondView>,
    parent: int,
    sep: Sym,
    i: int,
    ts: Seq<TokenView>,
    p: nat,
)
    requires
        0 < i <= v.len(),
        holds_at(ts, p, conds_toks(v, parent, sep)),
    ensures
        holds_at(ts, p, conds_toks(v.take(i), parent, sep)),
    decreases v.len(),
{
    if i < v.len() {
        let front = v.drop_last();
        lemma_holds_parts(
            ts,
            p,
            conds_toks(front, parent, sep),
            seq![TokView::Sym(sep)] + cond_toks(v.last(), parent),
        );
        lemma_conds_prefix(front, parent, sep, i, ts, p);
        assert(front.take(i) =~= v.take(i));
    } else {
        assert(v.take(i) =~= v);
    }
}

/// Where the condition at `i` stands behind those before it.
proof fn lemma_conds_step(
    v: Seq<CondView>,
    parent: int,
    sep: Sym,
    i: int,
    ts: Seq<TokenView>,
    p: nat,
)
    requires
        0 < i < v.len(),
        holds_at(ts, p, conds_toks(v, parent, sep)),
    ensures
        is_sym(ts, p + conds_toks(v.take(i), parent, sep).len(), sep),
        holds_at(
            ts,
            p + conds_toks(v.take(i), parent, sep).len() + 1,
            cond_toks(v[i], parent),
        ),
        conds_toks(v.take(i + 1), parent, sep).len() == conds_toks(v.take(i), parent, sep).len() + 1
            + cond_toks(v[i], parent).len(),
        p + conds_toks(v.take(i + 1), parent, sep).len() <= ts.len(),
{
    let sign = seq![TokView::Sym(sep)];
    let next = v.take(i + 1);
    assert(next.drop_last() =~= v.take(i));
    assert(next.last() == v[i]);
    lemma_conds_prefix(v, parent, sep, i + 1, ts, p);
    lemma_holds_parts(ts, p, conds_toks(v.take(i), parent, sep), sign + cond_toks(v[i], parent));
    let at = p + conds_toks(v.take(i), parent, sep).len();
    lemma_holds_parts(ts, at, sign, cond_toks(v[i], parent));
    lemma_tok(ts, at, sign, 0);
}

/// Nothing joins a further condition here.
pub(crate) open spec fn ends_and(ts: Seq<TokenView>, p: nat) -> bool {
    ends_operand(ts, p) && !is_sym(ts, p, Sym::AndAnd)
}

pub(crate) open spec fn ends_or(ts: Seq<TokenView>, p: nat) -> bool {
    ends_and(ts, p) && !is_sym(ts, p, Sym::OrOr)
}

/// One more condition joined by `&&`.
proof fn lemma_and_term(
    ts: Seq<TokenView>,
    p: nat,
    env: Env,
    c: CondView,
    q: nat,
    rest: Seq<CondView>,
    r: nat,
)
    requires
        is_sym(ts, p, Sym::AndAnd),
        not_cond(ts, p + 1, env) == Ok::<(CondView, nat), IssueView>((c, q)),
        p < q <= ts.len(),
        and_terms(ts, q, env) == Ok::<(Seq<CondView>, nat), IssueView>((rest, r)),
    ensures
        and_terms(ts, p, env) == Ok::<(Seq<CondView>, nat), IssueView>((seq![c] + rest, r)),
{
}

proof fn lemma_and_chain(
    ts: Seq<TokenView>,
    p: nat,
    env: Env,
    c: CondView,
    q: nat,
    rest: Seq<CondView>,
    r: nat,
)
    requires
        not_cond(ts, p, env) == Ok::<(CondView, nat), IssueView>((c, q)),
        p < q <= ts.len(),
        and_terms(ts, q, env) == Ok::<(Seq<CondView>, nat), IssueView>((rest, r)),
    ensures
        and_cond(ts, p, env) == Ok::<(CondView, nat), IssueView>(
            (
                if rest.len() == 0 {
                    c
                } else {
                    CondView::And(seq![c] + rest)
                },
                r,
            ),
        ),
{
}

/// One more condition joined by `||`.
proof fn lemma_or_term(
    ts: Seq<TokenView>,
    p: nat,
    env: Env,
    c: CondView,
    q: nat,
    rest: Seq<CondView>,
    r: nat,
)
    requires
        is_sym(ts, p, Sym::OrOr),
        and_cond(ts, p + 1, env) == Ok::<(CondView, nat), IssueView>((c, q)),
        p < q <= ts.len(),
        or_terms(ts, q, env) == Ok::<(Seq<CondView>, nat), IssueView>((rest, r)),
    ensures
        or_terms(ts, p, env) == Ok::<(Seq<CondView>, nat), IssueView>((seq![c] + rest, r)),
{
}

proof fn lemma_or_chain(
    ts: Seq<TokenView>,
    p: nat,
    env: Env,
    c: CondView,
    q: nat,
    rest: Seq<CondView>,
    r: nat,
)
    requires
        and_cond(ts, p, env) == Ok::<(CondView, nat), IssueView>((c, q)),
        p < q <= ts.len(),
        or_terms(ts, q, env) == Ok::<(Seq<CondView>, nat), IssueView>((rest, r)),
    ensures
        or_cond(ts, p, env) == Ok::<(CondView, nat), IssueView>(
            (
                if rest.len() == 0 {
                    c
                } else {
                    CondView::Or(seq![c] + rest)
                },
                r,
            ),
        ),
{
}

/// Groups are parsed by way of their content, tests on their own.
spec fn unit_rank(c: CondView) -> int {
    if c is And || c is Or {
        3
    } else {
        0
    }
}

/// A condition as it stands below `!` or `&&` is parsed as itself.
#[verifier::rlimit(40)]
proof fn lemma_unit_parses(c: CondView, ts: Seq<TokenView>, p: nat, env: Env, line: usize)
    requires
        cond_ok(c, env),
        !env.scope.legacy,
        one_line(ts, line),
        holds_at(ts, p, cond_toks(c, 3)),
        ends_operand(ts, p + cond_toks(c, 3).len()),
    ensures
        not_cond(ts, p, env) == Ok::<(CondView, nat), IssueView>(
            (cond_at(c, line), p + cond_toks(c, 3).len()),
        ),
        p + cond_toks(c, 3).len() <= ts.len(),
    decreases c, unit_rank(c), 0int,
{
    lemma_cond_has_toks(c, 3, env);
    lemma_tok(ts, p, cond_toks(c, 3), 0);
    if c is And || c is Or {
        let open = seq![TokView::Sym(Sym::LParen)];
        let close = seq![TokView::Sym(Sym::RParen)];
        lemma_holds_parts(ts, p, open, bare_toks(c) + close);
        lemma_holds_parts(ts, p + 1, bare_toks(c), close);
        let end = p + 1 + bare_toks(c).len();
        lemma_tok(ts, end, close, 0);
        lemma_or_parses(c, ts, p + 1, env, line);
        assert(primary(ts, p, env) == Ok::<(CondView, nat), IssueView>((cond_at(c, line), end + 1)));
        assert(not_cond(ts, p, env) == primary(ts, p, env));
    } else if let CondView::Not(b) = c {
        let bang = seq![TokView::Sym(Sym::Bang)];
        lemma_holds_parts(ts, p, bang, cond_toks(*b, 3));
        lemma_unit_parses(*b, ts, p + 1, env, line);
    } else {
        lemma_test_parses(c, ts, p, env, line);
    }
}

/// A condition as it stands below `||` is parsed as itself.
#[verifier::rlimit(40)]
proof fn lemma_and_parses(c: CondView, ts: Seq<TokenView>, p: nat, env: Env, line: usize)
    requires
        !(c is Or),
        cond_ok(c, env),
        !env.scope.legacy,
        one_line(ts, line),
        holds_at(ts, p, bare_toks(c)),
        ends_and(ts, p + bare_toks(c).len()),
    ensures
        and_cond(ts, p, env) == Ok::<(CondView, nat), IssueView>(
            (cond_at(c, line), p + bare_toks(c).len()),
        ),
        p + bare_toks(c).len() <= ts.len(),
    decreases c, 1int, 0int,
{
    lemma_cond_has_toks(c, 3, env);
    lemma_tok(ts, p, bare_toks(c), 0);
    if let CondView::And(v) = c {
        lemma_conds_prefix(v, 2, Sym::AndAnd, 1, ts, p);
        assert(v.take(1)[0] == v[0]);
        assert(conds_toks(v.take(1), 2, Sym::AndAnd) == cond_toks(v[0], 2));
        lemma_conds_step(v, 2, Sym::AndAnd, 1, ts, p);
        assert(cond_ok(v[0], env) && !(v[0] is And));
        assert(cond_toks(v[0], 2) == cond_toks(v[0], 3));
        lemma_unit_parses(v[0], ts, p, env, line);
        lemma_cond_has_toks(v[0], 3, env);
        lemma_and_terms_parse(v, 1, ts, p, env, line);
        lemma_conds_at(v, line);
        lemma_conds_at(v.skip(1), line);
        assert(conds_at(v, line) =~= seq![cond_at(v[0], line)] + conds_at(v.skip(1), line));
        lemma_and_chain(
            ts,
            p,
            env,
            cond_at(v[0], line),
            p + cond_toks(v[0], 2).len(),
            conds_at(v.skip(1), line),
            p + bare_toks(c).len(),
        );
    } else {
        assert(bare_toks(c) == cond_toks(c, 3));
        lemma_unit_parses(c, ts, p, env, line);
        let q = p + bare_toks(c).len();
        assert(and_terms(ts, q, env) == Ok::<(Seq<CondView>, nat), IssueView>((seq![], q)));
        lemma_and_chain(ts, p, env, cond_at(c, line), q, seq![], q);
    }
}

#[verifier::rlimit(40)]
proof fn lemma_and_terms_parse(
    v: Seq<CondView>,
    i: int,
    ts: Seq<TokenView>,
    p: nat,
    env: Env,
    line: usize,
)
    requires
        0 < i <= v.len(),
        forall|k: int| 0 <= k < v.len() ==> !(v[k] is And) && cond_ok(#[trigger] v[k], env),
        !env.scope.legacy,
        one_line(ts, line),
        holds_at(ts, p, conds_toks(v, 2, Sym::AndAnd)),
        ends_and(ts, p + conds_toks(v, 2, Sym::AndAnd).len()),
    ensures
        and_terms(ts, p + conds_toks(v.take(i), 2, Sym::AndAnd).len(), env) == Ok::<
            (Seq<CondView>, nat),
            IssueView,
        >((conds_at(v.skip(i), line), p + conds_toks(v, 2, Sym::AndAnd).len())),
    decreases v, 0int, v.len() - i,
{
    let at = p + conds_toks(v.take(i), 2, Sym::AndAnd).len();
    if i == v.len() {
        assert(v.take(i) =~= v);
        assert(v.skip(i) =~= seq![]);
    } else {
        let c = v[i];
        assert(cond_ok(c, env) && !(c is And));
        lemma_conds_step(v, 2, Sym::AndAnd, i, ts, p);
        assert(cond_toks(c, 2) == cond_toks(c, 3));
        if i + 1 < v.len() {
            lemma_conds_step(v, 2, Sym::AndAnd, i + 1, ts, p);
        } else {
            assert(v.take(i + 1) =~= v);
        }
        lemma_unit_parses(c, ts, at + 1, env, line);
        lemma_and_terms_parse(v, i + 1, ts, p, env, line);
        lemma_conds_at(v.skip(i), line);
        lemma_conds_at(v.skip(i + 1), line);
        assert(conds_at(v.skip(i), line) =~= seq![cond_at(c, line)] + conds_at(
            v.skip(i + 1),
            line,
        ));
        lemma_and_term(
            ts,
            at,
            env,
            cond_at(c, line),
            at + 1 + cond_toks(c, 2).len(),
            conds_at(v.skip(i + 1), line),
            p + conds_toks(v, 2, Sym::AndAnd).len(),
        );
    }
}

/// A condition is parsed as itself.
#[verifier::rlimit(40)]
pub(crate) proof fn lemma_or_parses(c: CondView, ts: Seq<TokenView>, p: nat, env: Env, line: usize)
    requires
        cond_ok(c, env),
        !env.scope.legacy,
        one_line(ts, line),
        holds_at(ts, p, bare_toks(c)),
        ends_or(ts, p + bare_toks(c).len()),
    ensures
        or_cond(ts, p, env) == Ok::<(CondView, nat), IssueView>(
            (cond_at(c, line), p + bare_toks(c).len()),
        ),
        p + bare_toks(c).len() <= ts.len(),
    decreases c, 2int, 0int,
{
    lemma_cond_has_toks(c, 3, env);
    lemma_tok(ts, p, bare_toks(c), 0);
    if let CondView::Or(v) = c {
        lemma_conds_prefix(v, 1, Sym::OrOr, 1, ts, p);
        assert(v.take(1)[0] == v[0]);
        assert(conds_toks(v.take(1), 1, Sym::OrOr) == cond_toks(v[0], 1));
        lemma_conds_step(v, 1, Sym::OrOr, 1, ts, p);
        assert(cond_ok(v[0], env) && !(v[0] is Or));
        assert(cond_toks(v[0], 1) == bare_toks(v[0]));
        lemma_and_parses(v[0], ts, p, env, line);
        lemma_cond_has_toks(v[0], 1, env);
        lemma_or_terms_parse(v, 1, ts, p, env, line);
        lemma_conds_at(v, line);
        lemma_conds_at(v.skip(1), line);
        assert(conds_at(v, line) =~= seq![cond_at(v[0], line)] + conds_at(v.skip(1), line));
        lemma_or_chain(
            ts,
            p,
            env,
            cond_at(v[0], line),
            p + cond_toks(v[0], 1).len(),
            conds_at(v.skip(1), line),
            p + bare_toks(c).len(),
        );
    } else {
        lemma_and_parses(c, ts, p, env, line);
        let q = p + bare_toks(c).len();
        assert(or_terms(ts, q, env) == Ok::<(Seq<CondView>, nat), IssueView>((seq![], q)));
        lemma_or_chain(ts, p, env, cond_at(c, line), q, seq![], q);
    }
}

#[verifier::rlimit(40)]
proof fn lemma_or_terms_parse(
    v: Seq<CondView>,
    i: int,
    ts: Seq<TokenView>,
    p: nat,
    env: Env,
    line: usize,
)
    requires
        0 < i <= v.len(),
        forall|k: int| 0 <= k < v.len() ==> !(v[k] is Or) && cond_ok(#[trigger] v[k], env),
        !env.scope.legacy,
        one_line(ts, line),
        holds_at(ts, p, conds_toks(v, 1, Sym::OrOr)),
        ends_or(ts, p + conds_toks(v, 1, Sym::OrOr).len()),
    ensures
        or_terms(ts, p + conds_toks(v.take(i), 1, Sym::OrOr).len(), env) == Ok::<
            (Seq<CondView>, nat),
            IssueView,
        >((conds_at(v.skip(i), line), p + conds_toks(v, 1, Sym::OrOr).len())),
    decreases v, 0int, v.len() - i,
{
    let at = p + conds_toks(v.take(i), 1, Sym::OrOr).len();
    if i == v.len() {
        assert(v.take(i) =~= v);
        assert(v.skip(i) =~= seq![]);
    } else {
        let c = v[i];
        assert(cond_ok(c, env) && !(c is Or));
        lemma_conds_step(v, 1, Sym::OrOr, i, ts, p);
        assert(cond_toks(c, 1) == bare_toks(c));
        if i + 1 < v.len() {
            lemma_conds_step(v, 1, Sym::OrOr, i + 1, ts, p);
        } else {
            assert(v.take(i + 1) =~= v);
        }
        lemma_and_parses(c, ts, at + 1, env, line);
        lemma_or_terms_parse(v, i + 1, ts, p, env, line);
        lemma_conds_at(v.skip(i), line);
        lemma_conds_at(v.skip(i + 1), line);
        assert(conds_at(v.skip(i), line) =~= seq![cond_at(c, line)] + conds_at(
            v.skip(i + 1),
            line,
        ));
        lemma_or_term(
            ts,
            at,
            env,
            cond_at(c, line),
            at + 1 + cond_toks(c, 1).len(),
            conds_at(v.skip(i + 1), line),
            p + conds_toks(v, 1, Sym::OrOr).len(),
        );
    }
}

/// Written as script text and read again, an expression is the same, but for
/// the lines that its columns are noted to stand on.
pub proof fn law_expression_text_reads_back(e: ExprView, line: usize, env: Env)
    requires
        expr_ok(e, env),
        !env.scope.legacy,
    ensures
        lex_spec(expr_dsl(e), line) matches Ok(ts) && expr(ts, 0, env) == Ok::<
            (ExprView, nat),
            IssueView,
        >((expr_at(e, line), ts.len())),
{
    lemma_reads_expr(e, env, seq![], line);
    lemma_reads_all(expr_dsl(e), expr_toks(e), line);
    let ts = lined(expr_toks(e), line);
    reveal(holds_at);
    lemma_expr_parses(e, ts, 0, env);
}

/// Written as script text and read again, a condition is the same, but for the
/// lines that it and its columns are noted to stand on.
pub proof fn law_condition_text_reads_back(c: CondView, line: usize, env: Env)
    requires
        cond_ok(c, env),
        !env.scope.legacy,
    ensures
        lex_spec(cond_dsl(c, 0), line) matches Ok(ts) && or_cond(ts, 0, env) == Ok::<
            (CondView, nat),
            IssueView,
        >((cond_at(c, line), ts.len())),
{
    lemma_reads_bare(c, env, seq![], line);
    lemma_reads_all(bare_dsl(c), bare_toks(c), line);
    let ts = lined(bare_toks(c), line);
    assert(holds_at(ts, 0, bare_toks(c))) by {
        reveal(holds_at);
    }
    lemma_or_parses(c, ts, 0, env, line);
}

} // verus!
