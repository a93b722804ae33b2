//! Expressions from script text: operands and templates.
use crate::etl::script::ast::{
    double_marks, double_quotes, expr_dsl, template_dsl, ColRefView, ExprView, GenKind,
};
use crate::etl::script::clauses::IssueView;
use crate::etl::script::grammar::{
    brace_len, dotted, expr, hole, is_sym, lemma_brace_len, line_at, part_exprs, template_parts,
    tok_at, with_text, Env, Part,
};
use crate::etl::script::lexer::{in_run, lex_spec, Run, Sym, TokView, TokenView};
use crate::etl::script::readback::values::{
    double_braces, expr_ok, expr_toks, gen_name, gives_text, is_number, lemma_gen_word,
    lemma_gen_words, lemma_int_text, lemma_reads_text, lemma_reads_value, lined, part_body, part_ok,
    reads_as, stops, template_body, value_ok,
};
use crate::text;
use vstd::prelude::*;

verus! {

/// The tokens stand in the list from `p` on.
#[verifier::opaque]
pub open spec fn holds_at(ts: Seq<TokenView>, p: nat, toks: Seq<TokView>) -> bool {
    &&& p + toks.len() <= ts.len()
    &&& forall|i: int| p <= i < p + toks.len() ==> (#[trigger] ts[i]).tok == toks[i - p]
}

pub(crate) proof fn lemma_holds_parts(ts: Seq<TokenView>, p: nat, a: Seq<TokView>, b: Seq<TokView>)
    requires
        holds_at(ts, p, a + b),
    ensures
        holds_at(ts, p, a),
        holds_at(ts, p + a.len(), b),
        p + a.len() + b.len() <= ts.len(),
{
    reveal(holds_at);
    assert forall|i: int| p <= i < p + a.len() implies (#[trigger] ts[i]).tok == a[i - p] by {
        assert((a + b)[i - p] == a[i - p]);
    }
    let q = p + a.len();
    assert forall|i: int| q <= i < q + b.len() implies (#[trigger] ts[i]).tok == b[i - q] by {
        assert((a + b)[i - p] == b[i - q]);
    }
}

pub(crate) proof fn lemma_tok(ts: Seq<TokenView>, p: nat, toks: Seq<TokView>, i: nat)
    requires
        holds_at(ts, p, toks),
        i < toks.len(),
    ensures
        p + toks.len() <= ts.len(),
        tok_at(ts, p + i) == Some(toks[i as int]),
{
    reveal(holds_at);
}

/// No operand goes on here.
pub open spec fn ends_operand(ts: Seq<TokenView>, p: nat) -> bool {
    !is_sym(ts, p, Sym::Dot) && !is_sym(ts, p, Sym::LParen) && !is_sym(ts, p, Sym::Plus)
}

/// An operand with the line that its column was read on.
pub open spec fn value_at(e: ExprView, line: usize) -> ExprView {
    match e {
        ExprView::Col(r) => ExprView::Col(ColRefView { alias: r.alias, column: r.column, line }),
        other => other,
    }
}

/// The tokens of an operand without quotes stand for it.
proof fn lemma_value_parses(e: ExprView, ts: Seq<TokenView>, p: nat, env: Env)
    requires
        value_ok(e, env),
        !env.scope.legacy,
        holds_at(ts, p, expr_toks(e)),
        ends_operand(ts, p + expr_toks(e).len()),
    ensures
        expr(ts, p, env) == Ok::<(ExprView, nat), IssueView>(
            (value_at(e, line_at(ts, p)), p + expr_toks(e).len()),
        ),
{
    reveal(holds_at);
    let toks = expr_toks(e);
    assert(ts[p as int].tok == toks[0]);
    match e {
        ExprView::Col(r) => {
            assert(ts[p as int + 1].tok == toks[1]);
            assert(ts[p as int + 2].tok == toks[2]);
            let what = "`.` 之後的識別字"@;
            assert(dotted(ts, p + 3, what) == Ok::<(Seq<Seq<char>>, nat), IssueView>((seq![], p + 3)));
            let rest = seq![r.column] + Seq::<Seq<char>>::empty();
            assert(dotted(ts, p + 1, what) == Ok::<(Seq<Seq<char>>, nat), IssueView>((rest, p + 3)));
            let parts = seq![r.alias] + rest;
            assert(parts.len() == 2 && parts[0] == r.alias && parts[1] == r.column);
        },
        ExprView::Int(v) => {
            lemma_int_text(v);
        },
        ExprView::Gen(k) => {
            lemma_gen_words();
            lemma_gen_word(k);
            assert(ts[p as int + 1].tok == toks[1]);
            assert(ts[p as int + 2].tok == toks[2]);
            if gives_text(k) {
                assert(ts[p as int + 3].tok == toks[3]);
                assert(ts[p as int + 4].tok == toks[4]);
                assert(ts[p as int + 5].tok == toks[5]);
            }
            let what = "`.` 之後的識別字"@;
            assert(dotted(ts, p + 3, what) == Ok::<(Seq<Seq<char>>, nat), IssueView>((seq![], p + 3)));
            let rest = seq![gen_name(k)] + Seq::<Seq<char>>::empty();
            assert(dotted(ts, p + 1, what) == Ok::<(Seq<Seq<char>>, nat), IssueView>((rest, p + 3)));
            let parts = seq!["Gen"@] + rest;
            assert(parts.len() == 2 && parts[0] == "Gen"@ && parts[1] == gen_name(k));
        },
        _ => {},
    }
}

/// A text that is read as those tokens has just them.
pub(crate) proof fn lemma_reads_all(w: Seq<char>, toks: Seq<TokView>, line: usize)
    requires
        reads_as(w, toks, seq![], line),
    ensures
        lex_spec(w, line) == Ok::<Seq<TokenView>, IssueView>(lined(toks, line)),
{
    reveal(reads_as);
    assert(w + seq![] =~= w);
    assert(lined(toks, line) + seq![] =~= lined(toks, line));
}

proof fn lemma_double_quotes_both(a: Seq<char>, b: Seq<char>)
    ensures
        double_quotes(a + b) == double_quotes(a) + double_quotes(b),
    decreases a.len(),
{
    if a.len() == 0 {
        assert(a + b =~= b);
        assert(double_quotes(a) + double_quotes(b) =~= double_quotes(b));
    } else {
        lemma_double_quotes_both(a.skip(1), b);
        assert((a + b).skip(1) =~= a.skip(1) + b);
        assert((a + b)[0] == a[0]);
        assert(double_quotes(a + b) =~= double_quotes(a) + double_quotes(b));
    }
}

/// Characters that mean nothing inside a hole of a template.
pub open spec fn is_plain(s: Seq<char>) -> bool {
    forall|i: int|
        0 <= i < s.len() ==> #[trigger] s[i] != '\'' && s[i] != '}' && s[i] != '\n'
}

proof fn lemma_double_quotes_none(s: Seq<char>)
    requires
        forall|i: int| 0 <= i < s.len() ==> #[trigger] s[i] != '\'',
    ensures
        double_quotes(s) == s,
    decreases s.len(),
{
    if s.len() > 0 {
        assert forall|i: int| 0 <= i < s.skip(1).len() implies #[trigger] s.skip(1)[i] != '\'' by {
            assert(s.skip(1)[i] == s[i + 1]);
        }
        lemma_double_quotes_none(s.skip(1));
        assert(seq![s[0]] + s.skip(1) =~= s);
    }
}

/// Doubling the braces first and the quotes next is doubling both.
proof fn lemma_double_marks(t: Seq<char>)
    ensures
        double_quotes(double_braces(t)) == double_marks(t),
    decreases t.len(),
{
    if t.len() > 0 {
        lemma_double_marks(t.skip(1));
        let d = double_braces(t.skip(1));
        if t[0] == '{' || t[0] == '}' {
            let two = seq![t[0], t[0]];
            lemma_double_quotes_both(two, d);
            lemma_double_quotes_none(two);
        } else {
            let one = seq![t[0]];
            lemma_double_quotes_both(one, d);
            assert(one.skip(1) =~= seq![]);
            assert(double_quotes(one.skip(1)) =~= seq![]);
            assert(double_quotes(one) =~= (if t[0] == '\'' {
                seq!['\'', '\'']
            } else {
                one
            }));
        }
    }
}

proof fn lemma_trim_ends(s: Seq<char>)
    requires
        s.len() > 0,
        !text::is_space(s[0]),
        !text::is_space(s.last()),
    ensures
        text::trim(s) == s,
{
}

/// How an operand of a template looks: no quote, no closing brace, no line end,
/// no space at either end, and no brace at its start.
#[verifier::rlimit(40)]
proof fn lemma_hole_text(e: ExprView, env: Env)
    requires
        part_ok(e, env),
        !(e is Text),
    ensures
        expr_dsl(e).len() > 0,
        is_plain(expr_dsl(e)),
        expr_dsl(e)[0] != '{',
        text::trim(expr_dsl(e)) == expr_dsl(e),
{
    let d = expr_dsl(e);
    match e {
        ExprView::Col(r) => {
            let n = r.alias.len() as int;
            let m = r.column.len() as int;
            assert(in_run(r.alias[0], Run::Word));
            assert forall|i: int| 0 <= i < d.len() implies #[trigger] d[i] != '\'' && d[i] != '}'
                && d[i] != '\n' by {
                if i < n {
                    assert(d[i] == r.alias[i]);
                    assert(in_run(r.alias[i], Run::Word));
                } else if n + 2 <= i < n + 2 + m {
                    assert(d[i] == r.column[i - n - 2]);
                    assert(r.column.contains(r.column[i - n - 2]));
                }
            }
            assert(d[0] == r.alias[0]);
            assert(d.last() == ']');
        },
        ExprView::Int(v) => {
            lemma_int_text(v);
            lemma_number_text(d);
        },
        ExprView::Float(v) => {
            lemma_number_text(d);
        },
        ExprView::Bool(b) => {
            reveal_strlit("TRUE");
            reveal_strlit("FALSE");
        },
        ExprView::Null => {
            reveal_strlit("NULL");
        },
        ExprView::Gen(k) => {
            lemma_gen_words();
            lemma_gen_word(k);
            reveal_strlit("Gen");
            reveal_strlit("(Text)");
            let name = gen_name(k);
            assert(d.len() >= 4 + name.len());
            assert forall|i: int| 0 <= i < d.len() implies #[trigger] d[i] != '\'' && d[i] != '}'
                && d[i] != '\n' && !text::is_space(d[i]) by {
                if 4 <= i < 4 + name.len() {
                    assert(d[i] == name[i - 4]);
                    lemma_gen_letters(k);
                    assert(text::is_ascii_char(name[i - 4]) && in_run(name[i - 4], Run::Word));
                } else if i >= 4 + name.len() {
                    assert(d[i] == "(Text)"@[i - 4 - name.len()]);
                } else {
                    assert(d[i] == "Gen."@[i]);
                }
            }
            assert(d[0] == 'G');
            assert(!text::is_space(d[d.len() - 1]));
        },
        _ => {},
    }
    lemma_trim_ends(d);
}

proof fn lemma_gen_letters(k: GenKind)
    ensures
        text::is_ascii_text(gen_name(k)),
{
    reveal_strlit("GUID");
    reveal_strlit("ULID");
    reveal_strlit("Date");
    reveal_strlit("DateTime");
    reveal_strlit("DateTimeOffset");
    reveal_strlit("SHA256");
    reveal_strlit("SHA512");
    reveal_strlit("MD5");
}

proof fn lemma_number_text(t: Seq<char>)
    requires
        is_number(t),
    ensures
        is_plain(t),
        t[0] != '{',
        !text::is_space(t[0]),
        !text::is_space(t.last()),
{
    assert forall|i: int| 0 <= i < t.len() implies #[trigger] t[i] != '\'' && t[i] != '}' && t[i]
        != '\n' && !text::is_space(t[i]) by {
        if i > 0 {
            assert(in_run(t[i], Run::Number));
        }
    }
}

proof fn lemma_no_line_end(t: Seq<char>)
    requires
        !t.contains('\n'),
    ensures
        !double_braces(t).contains('\n'),
    decreases t.len(),
{
    if t.len() > 0 {
        let u = t.skip(1);
        assert(t.contains(t[0]));
        assert(!u.contains('\n')) by {
            if u.contains('\n') {
                let i = choose|i: int| 0 <= i < u.len() && u[i] == '\n';
                assert(t[i + 1] == '\n');
            }
        }
        lemma_no_line_end(u);
        let d = double_braces(t);
        let r = double_braces(u);
        assert forall|i: int| 0 <= i < d.len() implies d[i] != '\n' by {
            let k: int = d.len() - r.len();
            if i >= k {
                assert(d[i] == r[i - k]);
                assert(r.contains(r[i - k]));
            }
        }
    }
}

/// The text of a template has its content with the quotes doubled.
proof fn lemma_template_text(v: Seq<ExprView>, env: Env)
    requires
        forall|i: int| 0 <= i < v.len() ==> part_ok(#[trigger] v[i], env),
    ensures
        template_dsl(v) == double_quotes(template_body(v)),
        !template_body(v).contains('\n'),
    decreases v.len(),
{
    if v.len() > 0 {
        let front = v.drop_last();
        assert forall|i: int| 0 <= i < front.len() implies part_ok(#[trigger] front[i], env) by {
            assert(front[i] == v[i]);
        }
        lemma_template_text(front, env);
        let e = v.last();
        let body = part_body(e);
        assert(part_ok(e, env));
        if let ExprView::Text(t) = e {
            lemma_double_marks(t);
            lemma_no_line_end(t);
        } else {
            lemma_hole_text(e, env);
            assert forall|i: int| 0 <= i < body.len() implies #[trigger] body[i] != '\''
                && body[i] != '\n' by {
                if 0 < i < body.len() - 1 {
                    assert(body[i] == expr_dsl(e)[i - 1]);
                }
            }
            lemma_double_quotes_none(body);
        }
        lemma_double_quotes_both(template_body(front), body);
        let all = template_body(v);
        assert forall|i: int| 0 <= i < all.len() implies all[i] != '\n' by {
            let k = template_body(front).len() as int;
            if i < k {
                assert(template_body(front).contains(template_body(front)[i]));
            } else {
                assert(all[i] == body[i - k]);
                assert(body.contains(body[i - k]));
            }
        }
    }
}

/// An expression is read as its tokens.
pub(crate) proof fn lemma_reads_expr(e: ExprView, env: Env, rest: Seq<char>, line: usize)
    requires
        expr_ok(e, env),
        stops(rest),
    ensures
        reads_as(expr_dsl(e), expr_toks(e), rest, line),
{
    match e {
        ExprView::Text(t) => {
            lemma_double_marks(t);
            lemma_no_line_end(t);
            lemma_reads_text(double_braces(t), rest, line);
        },
        ExprView::Concat(v) => {
            lemma_template_text(v, env);
            lemma_reads_text(template_body(v), rest, line);
        },
        _ => {
            lemma_reads_value(e, env, rest, line);
        },
    }
}

proof fn lemma_body_front(v: Seq<ExprView>)
    requires
        v.len() > 0,
    ensures
        template_body(v) == part_body(v[0]) + template_body(v.skip(1)),
    decreases v.len(),
{
    let front = v.drop_last();
    if v.len() == 1 {
        assert(front =~= seq![]);
        assert(v.skip(1) =~= seq![]);
        assert(template_body(front) =~= seq![]);
        assert(template_body(v.skip(1)) =~= seq![]);
        assert(template_body(v) =~= part_body(v[0]));
        assert(part_body(v[0]) + template_body(v.skip(1)) =~= part_body(v[0]));
    } else {
        lemma_body_front(front);
        assert(front[0] == v[0]);
        assert(front.skip(1) =~= v.skip(1).drop_last());
        assert(template_body(v) =~= part_body(v[0]) + template_body(v.skip(1)));
    }
}

proof fn lemma_with_text(a: Seq<char>, b: Seq<char>, v: Seq<Part>)
    requires
        v.len() > 0 ==> !(v[0] is Fixed),
    ensures
        with_text(a, with_text(b, v)) == with_text(a + b, v),
{
    let inner = with_text(b, v);
    if a.len() == 0 {
        assert(a + b =~= b);
    } else if b.len() == 0 {
        assert(a + b =~= a);
    } else {
        assert(inner.skip(1) =~= v);
        assert(with_text(a, inner) =~= with_text(a + b, v));
    }
}

/// Fixed text in front of something else comes out as it was.
proof fn lemma_fixed_parses(t: Seq<char>, rest: Seq<char>, line: usize, env: Env, v: Seq<Part>)
    requires
        template_parts(rest, line, env) == Ok::<Seq<Part>, IssueView>(v),
        v.len() > 0 ==> !(v[0] is Fixed),
    ensures
        template_parts(double_braces(t) + rest, line, env) == Ok::<Seq<Part>, IssueView>(
            with_text(t, v),
        ),
    decreases t.len(),
{
    if t.len() == 0 {
        assert(double_braces(t) + rest =~= rest);
    } else {
        let u = t.skip(1);
        lemma_fixed_parses(u, rest, line, env, v);
        let inner = double_braces(u) + rest;
        let s = double_braces(t) + rest;
        lemma_with_text(seq![t[0]], u, v);
        assert(seq![t[0]] + u =~= t);
        if t[0] == '{' || t[0] == '}' {
            assert(s =~= seq![t[0], t[0]] + inner);
            assert(s.skip(2) =~= inner);
            assert(s[0] == t[0] && s[1] == t[0]);
        } else {
            assert(s =~= seq![t[0]] + inner);
            assert(s.skip(1) =~= inner);
            assert(s[0] == t[0]);
        }
    }
}

/// The operand of a hole is read back.
proof fn lemma_hole_parses(e: ExprView, line: usize, env: Env)
    requires
        part_ok(e, env),
        !(e is Text),
        !env.scope.legacy,
    ensures
        hole(expr_dsl(e), line, env) == Ok::<ExprView, IssueView>(value_at(e, line)),
{
    let d = expr_dsl(e);
    lemma_hole_text(e, env);
    lemma_reads_value(e, env, seq![], line);
    lemma_reads_all(d, expr_toks(e), line);
    reveal(holds_at);
    let ts = lined(expr_toks(e), line);
    lemma_value_parses(e, ts, 0, env);
}

/// A part of a template as the parser sees it.
pub open spec fn part_of(e: ExprView, line: usize) -> Part {
    match e {
        ExprView::Text(t) => Part::Fixed(t),
        other => Part::Hole(value_at(other, line)),
    }
}

pub open spec fn parts_of(v: Seq<ExprView>, line: usize) -> Seq<Part> {
    Seq::new(v.len(), |i: int| part_of(v[i], line))
}

/// The content of a template is taken apart into the parts it was made from.
proof fn lemma_template_parses(v: Seq<ExprView>, line: usize, env: Env)
    requires
        !env.scope.legacy,
        forall|i: int| 0 <= i < v.len() ==> part_ok(#[trigger] v[i], env),
        forall|i: int, j: int|
            0 <= i < v.len() && j == i + 1 && j < v.len() ==> !(#[trigger] v[i] is Text
                && #[trigger] v[j] is Text),
    ensures
        template_parts(template_body(v), line, env) == Ok::<Seq<Part>, IssueView>(parts_of(v, line)),
    decreases v.len(),
{
    if v.len() == 0 {
        assert(parts_of(v, line) =~= seq![]);
    } else {
        let e = v[0];
        let w = v.skip(1);
        assert forall|i: int| 0 <= i < w.len() implies part_ok(#[trigger] w[i], env) by {
            assert(w[i] == v[i + 1]);
        }
        assert forall|i: int, j: int| 0 <= i < w.len() && j == i + 1 && j < w.len() implies !(
        #[trigger] w[i] is Text && #[trigger] w[j] is Text) by {
            assert(w[i] == v[i + 1] && w[j] == v[j + 1]);
        }
        lemma_template_parses(w, line, env);
        lemma_body_front(v);
        let rest = template_body(w);
        let s = template_body(v);
        assert(parts_of(v, line) =~= seq![part_of(e, line)] + parts_of(w, line));
        assert(part_ok(e, env));
        if let ExprView::Text(t) = e {
            if w.len() > 0 {
                assert(w[0] == v[1]);
                assert(!(v[0] is Text && v[1] is Text));
            }
            lemma_fixed_parses(t, rest, line, env, parts_of(w, line));
        } else {
            let d = expr_dsl(e);
            lemma_hole_text(e, env);
            lemma_hole_parses(e, line, env);
            assert(s =~= seq!['{'] + d + seq!['}'] + rest);
            assert(s[0] == '{' && s[1] == d[0]);
            let tail = s.skip(1);
            assert(tail =~= d + seq!['}'] + rest);
            lemma_brace_len(tail);
            let n = brace_len(tail) as int;
            if n < d.len() {
                assert(tail[n] == d[n]);
            }
            if n > d.len() {
                assert(tail[d.len() as int] == '}');
            }
            assert(s.subrange(1, n + 1) =~= d);
            assert(s.skip(n + 2) =~= rest);
        }
    }
}

/// An expression with the line that its columns were read on.
pub open spec fn expr_at(e: ExprView, line: usize) -> ExprView {
    match e {
        ExprView::Concat(v) => ExprView::Concat(Seq::new(v.len(), |i: int| value_at(v[i], line))),
        other => value_at(other, line),
    }
}

/// The tokens of an expression stand for it.
pub(crate) proof fn lemma_expr_parses(e: ExprView, ts: Seq<TokenView>, p: nat, env: Env)
    requires
        expr_ok(e, env),
        !env.scope.legacy,
        holds_at(ts, p, expr_toks(e)),
        ends_operand(ts, p + expr_toks(e).len()),
    ensures
        expr(ts, p, env) == Ok::<(ExprView, nat), IssueView>(
            (expr_at(e, line_at(ts, p)), p + expr_toks(e).len()),
        ),
{
    let line = line_at(ts, p);
    match e {
        ExprView::Text(t) => {
            lemma_tok(ts, p, expr_toks(e), 0);
            assert(template_parts(seq![], line, env) == Ok::<Seq<Part>, IssueView>(seq![]));
            lemma_fixed_parses(t, seq![], line, env, seq![]);
            assert(double_braces(t) + seq![] =~= double_braces(t));
            if t.len() == 0 {
                assert(t =~= seq![]);
            }
        },
        ExprView::Concat(v) => {
            lemma_tok(ts, p, expr_toks(e), 0);
            lemma_template_parses(v, line, env);
            let parts = parts_of(v, line);
            let k = choose|i: int| 0 <= i < v.len() && !(#[trigger] v[i] is Text);
            assert(!(parts[k] is Fixed));
            assert(part_exprs(parts) =~= Seq::new(v.len(), |i: int| value_at(v[i], line)));
        },
        _ => {
            lemma_value_parses(e, ts, p, env);
        },
    }
}

} // verus!
