//! Conditions of a script on one line stand on that line.
use crate::double::Reading;
use crate::etl::script::ast::{CondView, ExprView};
use crate::etl::script::clauses::WorkView;
use crate::etl::script::grammar::{
    and_cond, and_terms, brace_len, comma_exprs, eat_kw, expr, flat, hole, is_kw, is_sym,
    lemma_brace_len, lemma_expr_progress, lemma_longest_text, lemma_tokens_shorter,
    lemma_trim_shorter, line_at, longest_text, not_cond, or_cond, or_terms, part_exprs, plus_terms,
    primary, quoted_text, simple_test, template_parts, term, test_rest, with_text, Env, Part,
};
use crate::etl::script::jobs::{
    binding, from_scope, header_decls, join_clauses, new_work, no_header, one_work, parse_spec,
    skip_go, work_list,
};
use crate::etl::script::lexer::{
    at, lemma_lexeme, lex_spec, lexeme, line_after, quoted, Kw, Lexeme, Sym, TokView, TokenView,
};
use crate::etl::script::readback::conditions::{cond_at, conds_at, lemma_conds_at};
use crate::etl::script::readback::expressions::expr_at;
use crate::text;
use vstd::prelude::*;

verus! {

/// All tokens are on one line, and so are the texts among them.
pub open spec fn plain_line(ts: Seq<TokenView>, line: usize) -> bool {
    forall|i: int|
        0 <= i < ts.len() ==> (#[trigger] ts[i]).line == line && (ts[i].tok matches TokView::Str(s)
            ==> !s.contains('\n'))
}

proof fn lemma_part_plain(cs: Seq<char>, from: int, to: int)
    requires
        !cs.contains('\n'),
        0 <= from <= to <= cs.len(),
    ensures
        !cs.subrange(from, to).contains('\n'),
        !cs.skip(from).contains('\n'),
{
    let part = cs.subrange(from, to);
    if part.contains('\n') {
        let i = choose|i: int| 0 <= i < part.len() && part[i] == '\n';
        assert(cs[from + i] == '\n');
    }
    let back = cs.skip(from);
    if back.contains('\n') {
        let i = choose|i: int| 0 <= i < back.len() && back[i] == '\n';
        assert(cs[from + i] == '\n');
    }
}

proof fn lemma_line_stays(line: usize, cs: Seq<char>)
    requires
        !cs.contains('\n'),
    ensures
        line_after(line, cs) == line,
    decreases cs.len(),
{
    if cs.len() > 0 {
        assert(cs.contains(cs[0]));
        lemma_part_plain(cs, 1, cs.len() as int);
        lemma_line_stays(line, cs.skip(1));
    }
}

proof fn lemma_quoted_plain(cs: Seq<char>)
    ensures
        quoted(cs) matches Some((s, _)) ==> !s.contains('\n'),
    decreases cs.len(),
{
    if cs.len() > 0 {
        let k: int = if cs[0] == '\'' && at(cs, 1, '\'') {
            2
        } else {
            1
        };
        lemma_quoted_plain(cs.skip(k));
        if let (Some((s, n)), Some((t, m))) = (quoted(cs), quoted(cs.skip(k))) {
            if s.contains('\n') && s.len() > 0 {
                let i = choose|i: int| 0 <= i < s.len() && s[i] == '\n';
                assert(i > 0 && s[i] == t[i - 1]);
            }
        }
    }
}

/// The tokens of a text without line ends are on its line.
pub(crate) proof fn lemma_lex_plain(cs: Seq<char>, line: usize)
    requires
        !cs.contains('\n'),
    ensures
        lex_spec(cs, line) matches Ok(ts) ==> plain_line(ts, line),
    decreases cs.len(),
{
    if cs.len() > 0 {
        lemma_lexeme(cs, line);
        assert(cs.contains(cs[0]));
        match lexeme(cs, line) {
            Lexeme::Gap { n, line: l } => {
                if l != line {
                    lemma_line_stays(line, cs.subrange(3, n as int));
                    lemma_part_plain(cs, 3, n as int);
                    assert(false);
                }
                lemma_part_plain(cs, n as int, cs.len() as int);
                lemma_lex_plain(cs.skip(n as int), line);
            },
            Lexeme::Emit { tok, n } => {
                lemma_part_plain(cs, n as int, cs.len() as int);
                lemma_lex_plain(cs.skip(n as int), line);
                lemma_quoted_plain(cs.skip(1));
                if cs.len() > 1 {
                    lemma_quoted_plain(cs.skip(2));
                }
                if let Ok(rest) = lex_spec(cs.skip(n as int), line) {
                    let ts = seq![TokenView { tok, line }] + rest;
                    assert forall|i: int| 0 <= i < ts.len() implies (#[trigger] ts[i]).line == line
                        && (ts[i].tok matches TokView::Str(s) ==> !s.contains('\n')) by {
                        if i > 0 {
                            assert(ts[i] == rest[i - 1]);
                        }
                    }
                }
            },
            Lexeme::Fail(_) => {},
        }
    }
}

/// The columns among the expressions stand on the line.
spec fn cols_on(v: Seq<ExprView>, line: usize) -> bool {
    forall|i: int| 0 <= i < v.len() ==> (#[trigger] v[i] matches ExprView::Col(r) ==> r.line == line)
}

/// The columns of the expression stand on the line.
spec fn on_line(e: ExprView, line: usize) -> bool {
    cols_on(flat(e), line)
}

proof fn lemma_on_line(e: ExprView, line: usize)
    requires
        on_line(e, line),
    ensures
        expr_at(e, line) == e,
{
    match e {
        ExprView::Concat(v) => {
            assert(expr_at(e, line)->Concat_0 =~= v);
        },
        _ => {
            assert(flat(e)[0] == e);
        },
    }
}

spec fn holes_on(v: Seq<Part>, line: usize) -> bool {
    forall|i: int|
        0 <= i < v.len() ==> (#[trigger] v[i] matches Part::Hole(e) ==> on_line(e, line))
}

proof fn lemma_with_text_holes(t: Seq<char>, v: Seq<Part>, line: usize)
    requires
        holes_on(v, line),
    ensures
        holes_on(with_text(t, v), line),
{
    let w = with_text(t, v);
    assert forall|i: int| 0 <= i < w.len() implies (#[trigger] w[i] matches Part::Hole(e) ==> on_line(
        e,
        line,
    )) by {
        if t.len() > 0 && i > 0 {
            if v.len() > 0 && v[0] is Fixed {
                assert(w[i] == v[i]);
            } else {
                assert(w[i] == v[i - 1]);
            }
        } else if t.len() == 0 {
            assert(w[i] == v[i]);
        }
    }
}

proof fn lemma_parts_on(s: Seq<char>, line: usize, env: Env)
    requires
        !s.contains('\n'),
    ensures
        template_parts(s, line, env) matches Ok(v) ==> holes_on(v, line),
    decreases s.len() + 1, 2nat, 0int, 0nat,
{
    if s.len() > 0 {
        if s[0] == '{' && s.len() > 1 && s[1] == '{' {
            lemma_part_plain(s, 2, s.len() as int);
            lemma_parts_on(s.skip(2), line, env);
            if let Ok(v) = template_parts(s.skip(2), line, env) {
                lemma_with_text_holes(seq!['{'], v, line);
            }
        } else if s[0] == '}' && s.len() > 1 && s[1] == '}' {
            lemma_part_plain(s, 2, s.len() as int);
            lemma_parts_on(s.skip(2), line, env);
            if let Ok(v) = template_parts(s.skip(2), line, env) {
                lemma_with_text_holes(seq!['}'], v, line);
            }
        } else if s[0] == '{' {
            lemma_brace_len(s.skip(1));
            let n = brace_len(s.skip(1)) as int;
            if n + 1 < s.len() {
                lemma_part_plain(s, 1, n + 1);
                lemma_part_plain(s, n + 2, s.len() as int);
                lemma_hole_on(s.subrange(1, n + 1), line, env);
                lemma_parts_on(s.skip(n + 2), line, env);
                if let (Ok(e), Ok(v)) = (
                    hole(s.subrange(1, n + 1), line, env),
                    template_parts(s.skip(n + 2), line, env),
                ) {
                    let w = seq![Part::Hole(e)] + v;
                    assert forall|i: int| 0 <= i < w.len() implies (#[trigger] w[i] matches Part::Hole(
                        x,
                    ) ==> on_line(x, line)) by {
                        if i > 0 {
                            assert(w[i] == v[i - 1]);
                        }
                    }
                }
            }
        } else if s[0] != '}' {
            lemma_part_plain(s, 1, s.len() as int);
            lemma_parts_on(s.skip(1), line, env);
            if let Ok(v) = template_parts(s.skip(1), line, env) {
                lemma_with_text_holes(seq![s[0]], v, line);
            }
        }
    }
}

proof fn lemma_trim_plain(s: Seq<char>)
    requires
        !s.contains('\n'),
    ensures
        !text::trim(s).contains('\n'),
{
    lemma_trim_start_plain(s);
    lemma_trim_end_plain(text::trim_start(s));
    lemma_trim_end_plain(s);
    lemma_trim_start_plain(text::trim_end(s));
}

proof fn lemma_trim_start_plain(s: Seq<char>)
    requires
        !s.contains('\n'),
    ensures
        !text::trim_start(s).contains('\n'),
    decreases s.len(),
{
    if s.len() > 0 && text::is_space(s[0]) {
        lemma_part_plain(s, 1, s.len() as int);
        lemma_trim_start_plain(s.skip(1));
    }
}

proof fn lemma_trim_end_plain(s: Seq<char>)
    requires
        !s.contains('\n'),
    ensures
        !text::trim_end(s).contains('\n'),
    decreases s.len(),
{
    if s.len() > 0 && text::is_space(s.last()) {
        lemma_part_plain(s, 0, s.len() - 1);
        assert(s.subrange(0, s.len() - 1) =~= s.drop_last());
        lemma_trim_end_plain(s.drop_last());
    }
}

proof fn lemma_hole_on(inner: Seq<char>, line: usize, env: Env)
    requires
        !inner.contains('\n'),
    ensures
        hole(inner, line, env) matches Ok(e) ==> on_line(e, line),
    decreases inner.len() + 1, 2nat, 0int, 0nat,
{
    let t = text::trim(inner);
    lemma_trim_shorter(inner);
    lemma_tokens_shorter(t, line);
    lemma_trim_plain(inner);
    lemma_lex_plain(t, line);
    if let Ok(ts) = lex_spec(t, line) {
        lemma_expr_on(ts, 0, env, line);
    }
}

proof fn lemma_term_on(ts: Seq<TokenView>, p: nat, env: Env, line: usize)
    requires
        plain_line(ts, line),
    ensures
        term(ts, p, env) matches Ok((e, _)) ==> on_line(e, line),
    decreases longest_text(ts), 3nat, ts.len() - p, 0nat,
{
    if p < ts.len() {
        if let TokView::Str(s) = ts[p as int].tok {
            lemma_longest_text(ts, p as int);
            lemma_parts_on(s, line, env);
            if let Ok(v) = template_parts(s, line, env) {
                let w = part_exprs(v);
                assert forall|i: int| 0 <= i < w.len() implies (#[trigger] w[i] matches ExprView::Col(
                    r,
                ) ==> r.line == line) by {
                    if let Part::Hole(e) = v[i] {
                        assert(on_line(e, line));
                        assert(w[i] == e);
                        if e is Col {
                            assert(flat(e)[0] == e);
                        }
                    }
                }
            }
        }
    }
}

proof fn lemma_plus_on(ts: Seq<TokenView>, p: nat, env: Env, line: usize)
    requires
        plain_line(ts, line),
    ensures
        plus_terms(ts, p, env) matches Ok((v, _)) ==> cols_on(v, line),
    decreases longest_text(ts), 3nat, ts.len() - p, 1nat,
{
    if p < ts.len() {
        lemma_term_on(ts, p + 1, env, line);
        if let Ok((t, q)) = term(ts, p + 1, env) {
            if p < q <= ts.len() {
                lemma_plus_on(ts, q, env, line);
            }
        }
    }
}

proof fn lemma_expr_on(ts: Seq<TokenView>, p: nat, env: Env, line: usize)
    requires
        plain_line(ts, line),
    ensures
        expr(ts, p, env) matches Ok((e, _)) ==> on_line(e, line),
    decreases longest_text(ts), 3nat, ts.len() - p, 2nat,
{
    lemma_term_on(ts, p, env, line);
    if let Ok((t, q)) = term(ts, p, env) {
        if p < q <= ts.len() {
            lemma_plus_on(ts, q, env, line);
        }
    }
}

/// What expression comes from the tokens is the same when it is put on their line.
proof fn lemma_expr_stays(ts: Seq<TokenView>, p: nat, env: Env, line: usize)
    requires
        plain_line(ts, line),
    ensures
        expr(ts, p, env) matches Ok((e, _)) ==> expr_at(e, line) == e && p < ts.len(),
{
    lemma_expr_on(ts, p, env, line);
    if let Ok((e, q)) = expr(ts, p, env) {
        lemma_on_line(e, line);
    }
}

proof fn lemma_commas_stay(ts: Seq<TokenView>, p: nat, env: Env, line: usize)
    requires
        plain_line(ts, line),
    ensures
        comma_exprs(ts, p, env) matches Ok((v, _)) ==> forall|i: int|
            0 <= i < v.len() ==> expr_at(#[trigger] v[i], line) == v[i],
    decreases ts.len() - p,
{
    if p < ts.len() {
        lemma_expr_stays(ts, p + 1, env, line);
        lemma_expr_progress(ts, p + 1, env);
        if let Ok((x, q)) = expr(ts, p + 1, env) {
            lemma_commas_stay(ts, q, env, line);
        }
    }
}

#[verifier::rlimit(40)]
proof fn lemma_test_stays(ts: Seq<TokenView>, p: nat, env: Env, line: usize)
    requires
        plain_line(ts, line),
    ensures
        simple_test(ts, p, env) matches Ok((c, _)) ==> cond_at(c, line) == c,
{
    lemma_expr_stays(ts, p, env, line);
    if let Ok((left, q)) = expr(ts, p, env) {
        assert(line_at(ts, p) == line);
        lemma_expr_stays(ts, q + 1, env, line);
        lemma_expr_stays(ts, q + 2, env, line);
        lemma_rest_stays(ts, q, env, left, line);
    }
}

#[verifier::rlimit(40)]
proof fn lemma_rest_stays(ts: Seq<TokenView>, p: nat, env: Env, left: ExprView, line: usize)
    requires
        plain_line(ts, line),
        expr_at(left, line) == left,
    ensures
        test_rest(ts, p, env, left, line) matches Ok((c, _)) ==> cond_at(c, line) == c,
{
    let q = if is_kw(ts, p, Kw::Not) {
        p + 1
    } else {
        p
    };
    lemma_expr_stays(ts, q + 1, env, line);
    if is_kw(ts, p, Kw::Is) {
    } else if is_kw(ts, q, Kw::In) {
        lemma_expr_stays(ts, q + 2, env, line);
        if let Ok((first, r)) = expr(ts, q + 2, env) {
            lemma_commas_stay(ts, r, env, line);
            if let Ok((more, s)) = comma_exprs(ts, r, env) {
                let list = seq![first] + more;
                assert forall|i: int| 0 <= i < list.len() implies expr_at(
                    #[trigger] list[i],
                    line,
                ) == list[i] by {
                    if i > 0 {
                        assert(list[i] == more[i - 1]);
                    }
                }
                assert(Seq::new(list.len(), |i: int| expr_at(list[i], line)) =~= list);
            }
        }
    } else if is_kw(ts, q, Kw::Between) {
        if let Ok((low, r)) = expr(ts, q + 1, env) {
            lemma_expr_stays(ts, r + 1, env, line);
        }
    }
}

spec fn all_stay(v: Seq<CondView>, line: usize) -> bool {
    forall|i: int| 0 <= i < v.len() ==> cond_at(#[trigger] v[i], line) == v[i]
}

proof fn lemma_all_stay(v: Seq<CondView>, line: usize)
    requires
        all_stay(v, line),
    ensures
        conds_at(v, line) == v,
{
    lemma_conds_at(v, line);
    assert(conds_at(v, line) =~= v);
}

proof fn lemma_one_more(c: CondView, v: Seq<CondView>, line: usize)
    requires
        cond_at(c, line) == c,
        all_stay(v, line),
    ensures
        all_stay(seq![c] + v, line),
{
    let w = seq![c] + v;
    assert forall|i: int| 0 <= i < w.len() implies cond_at(#[trigger] w[i], line) == w[i] by {
        if i > 0 {
            assert(w[i] == v[i - 1]);
        }
    }
}

proof fn lemma_primary_stays(ts: Seq<TokenView>, p: nat, env: Env, line: usize)
    requires
        plain_line(ts, line),
    ensures
        primary(ts, p, env) matches Ok((c, _)) ==> cond_at(c, line) == c,
    decreases ts.len() - p, 0nat,
{
    if is_sym(ts, p, Sym::LParen) {
        lemma_or_stays(ts, p + 1, env, line);
    } else {
        lemma_test_stays(ts, p, env, line);
    }
}

proof fn lemma_not_stays(ts: Seq<TokenView>, p: nat, env: Env, line: usize)
    requires
        plain_line(ts, line),
    ensures
        not_cond(ts, p, env) matches Ok((c, _)) ==> cond_at(c, line) == c,
    decreases ts.len() - p, 1nat,
{
    if is_sym(ts, p, Sym::Bang) {
        lemma_not_stays(ts, p + 1, env, line);
    } else {
        lemma_primary_stays(ts, p, env, line);
    }
}

proof fn lemma_and_terms_stay(ts: Seq<TokenView>, p: nat, env: Env, line: usize)
    requires
        plain_line(ts, line),
    ensures
        and_terms(ts, p, env) matches Ok((v, _)) ==> all_stay(v, line),
    decreases ts.len() - p, 2nat,
{
    if is_sym(ts, p, Sym::AndAnd) {
        lemma_not_stays(ts, p + 1, env, line);
        if let Ok((c, q)) = not_cond(ts, p + 1, env) {
            if p < q <= ts.len() {
                lemma_and_terms_stay(ts, q, env, line);
                if let Ok((v, r)) = and_terms(ts, q, env) {
                    lemma_one_more(c, v, line);
                }
            }
        }
    }
}

proof fn lemma_and_stays(ts: Seq<TokenView>, p: nat, env: Env, line: usize)
    requires
        plain_line(ts, line),
    ensures
        and_cond(ts, p, env) matches Ok((c, _)) ==> cond_at(c, line) == c,
    decreases ts.len() - p, 3nat,
{
    lemma_not_stays(ts, p, env, line);
    if let Ok((c, q)) = not_cond(ts, p, env) {
        if p < q <= ts.len() {
            lemma_and_terms_stay(ts, q, env, line);
            if let Ok((v, r)) = and_terms(ts, q, env) {
                lemma_one_more(c, v, line);
                lemma_all_stay(seq![c] + v, line);
            }
        }
    }
}

proof fn lemma_or_terms_stay(ts: Seq<TokenView>, p: nat, env: Env, line: usize)
    requires
        plain_line(ts, line),
    ensures
        or_terms(ts, p, env) matches Ok((v, _)) ==> all_stay(v, line),
    decreases ts.len() - p, 4nat,
{
    if is_sym(ts, p, Sym::OrOr) {
        lemma_and_stays(ts, p + 1, env, line);
        if let Ok((c, q)) = and_cond(ts, p + 1, env) {
            if p < q <= ts.len() {
                lemma_or_terms_stay(ts, q, env, line);
                if let Ok((v, r)) = or_terms(ts, q, env) {
                    lemma_one_more(c, v, line);
                }
            }
        }
    }
}

proof fn lemma_or_stays(ts: Seq<TokenView>, p: nat, env: Env, line: usize)
    requires
        plain_line(ts, line),
    ensures
        or_cond(ts, p, env) matches Ok((c, _)) ==> cond_at(c, line) == c,
    decreases ts.len() - p, 5nat,
{
    lemma_and_stays(ts, p, env, line);
    if let Ok((c, q)) = and_cond(ts, p, env) {
        if p < q <= ts.len() {
            lemma_or_terms_stay(ts, q, env, line);
            if let Ok((v, r)) = or_terms(ts, q, env) {
                lemma_one_more(c, v, line);
                lemma_all_stay(seq![c] + v, line);
            }
        }
    }
}

spec fn where_stays(w: WorkView, line: usize) -> bool {
    w.where_ matches Some(c) ==> cond_at(c, line) == c
}

proof fn lemma_new_work_stays(
    ts: Seq<TokenView>,
    p: nat,
    name: Option<Seq<char>>,
    noted: usize,
    rd: Reading,
    line: usize,
)
    requires
        plain_line(ts, line),
    ensures
        new_work(ts, p, name, noted, rd) matches Ok((w, _)) ==> where_stays(w, line),
{
    if let Ok(q) = eat_kw(ts, p, Kw::From, "FROM"@) {
        if let Ok((from, r)) = binding(ts, q) {
            if let Ok(((joins, scope), s)) = join_clauses(
                ts,
                r,
                from_scope(from.alias, from.table, false),
                rd,
            ) {
                lemma_or_stays(ts, s + 1, Env { scope, rd }, line);
            }
        }
    }
}

proof fn lemma_one_work_stays(ts: Seq<TokenView>, p: nat, rd: Reading, line: usize)
    requires
        plain_line(ts, line),
    ensures
        one_work(ts, p, rd) matches Ok((w, _)) ==> where_stays(w, line),
{
    reveal(one_work);
    let noted = line_at(ts, p);
    lemma_new_work_stays(ts, p, None, noted, rd, line);
    if let Ok((name, q)) = quoted_text(
        ts,
        p + 1,
        noted,
        "WORK 之後預期 '作業名稱'（字串）"@,
    ) {
        lemma_new_work_stays(ts, q + 1, Some(name), noted, rd, line);
    }
}

/// The condition that the first job of a script filters by, where the text is a
/// script and there is one.
#[verifier::opaque]
pub open spec fn first_filter(input: Seq<char>, rd: Reading) -> Option<CondView> {
    match parse_spec(input, rd) {
        Ok(s) => s.works[0].where_,
        Err(_) => None,
    }
}

/// A condition that a script on one line filters by stands on line 1.
pub proof fn law_one_line_conditions_stand_on_it(input: Seq<char>, rd: Reading)
    requires
        !input.contains('\n'),
    ensures
        first_filter(input, rd) matches Some(c) ==> cond_at(c, 1) == c,
{
    reveal(first_filter);
    lemma_lex_plain(input, 1);
    if let Ok(ts) = lex_spec(input, 1) {
        if let Ok((h, p)) = header_decls(ts, 0, no_header()) {
            let q = skip_go(ts, p);
            lemma_one_work_stays(ts, q, rd, 1);
            if let Ok(works) = work_list(ts, p, rd) {
                if works.len() > 0 {
                    assert(one_work(ts, q, rd) matches Ok((w, _)) && works[0] == w);
                }
            }
        }
    }
}

} // verus!
