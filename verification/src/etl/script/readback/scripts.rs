//! Whole scripts around a condition and an expression, and what comes back of them.
use crate::double::Reading;
use crate::etl::script::ast::{bare_dsl, cond_dsl, double_quotes, expr_dsl, CondView, ExprView};
use crate::etl::script::clauses::{
    ActionView, AssignmentView, BindingView, ConnRef, HeaderView, IntoView, IssueView, JoinView,
    MergeView, ScriptView, WorkView,
};
use crate::etl::script::grammar::{dotted, is_kw, is_sym, line_at, or_cond, tok_at, Env};
use crate::etl::script::jobs::{
    action, assignment, assignments_rest, binding, from_scope, header_decls, into_clause,
    join_clauses, new_work, no_header, one_work, parse_spec, script_of, skip_go, where_clause, work_block,
    work_list, write_clause,
};
use crate::etl::script::lexer::{kw_of, lex_spec, word_tok, Kw, Sym, TokView, TokenView};
use crate::etl::script::readback::conditions::{bare_toks, cond_at, cond_ok, lemma_reads_bare};
use crate::etl::script::readback::expressions::{
    expr_at, holds_at, lemma_expr_parses, lemma_holds_parts, lemma_reads_all, lemma_reads_expr,
    lemma_tok,
};
use crate::etl::script::readback::laws::{ends_or, lemma_or_parses, one_line};
use crate::etl::script::readback::lines::{first_filter, law_one_line_conditions_stand_on_it};
use crate::etl::script::readback::values::{
    expr_ok, expr_toks, is_bracketed, is_word, lemma_job_words, lemma_reads_both, lemma_reads_name,
    lemma_reads_plain_text, lemma_reads_space, lemma_reads_sym, lemma_reads_word, lined, reads_as,
};
use crate::etl::script::scope::ScopeView;
use crate::text;
use vstd::prelude::*;

verus! {

/// What a job is made of besides its condition and the value that it writes.
pub struct Frame {
    pub name: Seq<char>,
    pub alias: Seq<char>,
    pub from: Seq<char>,
    pub into: Seq<char>,
    pub column: Seq<char>,
}

/// The name is on one line, the alias is a bare word that is no keyword, and
/// tables and column can stand between brackets.
pub open spec fn frame_ok(f: Frame) -> bool {
    &&& !f.name.contains('\n')
    &&& is_word(f.alias)
    &&& kw_of(text::upper(f.alias)) is None
    &&& is_bracketed(f.from)
    &&& is_bracketed(f.into)
    &&& is_bracketed(f.column)
}

/// What the columns of the job mean.
pub open spec fn frame_env(f: Frame, rd: Reading) -> Env {
    Env { scope: from_scope(f.alias, seq![f.from], false), rd }
}

/// `WORK 'name' { FROM alias = SOURCE.[from] WHERE `.
pub open spec fn head_text(f: Frame) -> Seq<char> {
    "WORK '"@ + double_quotes(f.name) + "' { FROM "@ + f.alias + " = SOURCE.["@ + f.from
        + "] WHERE "@
}

/// ` INTO TARGET.[into] ADD { [column] = `.
pub open spec fn middle_text(f: Frame) -> Seq<char> {
    " INTO TARGET.["@ + f.into + "] ADD { ["@ + f.column + "] = "@
}

/// The script of one job, with any text as what it filters by.
pub open spec fn filtered_by(f: Frame, x: Seq<char>, e: ExprView) -> Seq<char> {
    head_text(f) + x + middle_text(f) + expr_dsl(e) + " } }"@
}

/// The script of one job that filters by a condition and writes one value.
pub open spec fn script_text(f: Frame, c: CondView, e: ExprView) -> Seq<char> {
    filtered_by(f, cond_dsl(c, 0), e)
}

/// The script that the text stands for, all of it on line 1.
pub open spec fn framed_script(f: Frame, c: CondView, e: ExprView) -> ScriptView {
    ScriptView {
        header: no_header(),
        works: seq![
            WorkView {
                name: Some(f.name),
                from: BindingView {
                    alias: f.alias,
                    conn: ConnRef::Source,
                    table: seq![f.from],
                    line: 1,
                },
                joins: seq![],
                where_: Some(cond_at(c, 1)),
                into: IntoView {
                    conn: ConnRef::Target,
                    table: seq![f.into],
                    alias: None,
                    line: 1,
                },
                merge: None,
                action: Some(
                    ActionView::Add(
                        seq![
                            AssignmentView {
                                target_column: f.column,
                                value: expr_at(e, 1),
                                line: 1,
                            },
                        ],
                    ),
                ),
                line: 1,
            },
        ],
    }
}

spec fn head_toks(f: Frame) -> Seq<TokView> {
    seq![
        TokView::Kw(Kw::Work),
        TokView::Str(f.name),
        TokView::Sym(Sym::LBrace),
        TokView::Kw(Kw::From),
        TokView::Ident(f.alias),
        TokView::Sym(Sym::Assign),
        TokView::Kw(Kw::Source),
        TokView::Sym(Sym::Dot),
        TokView::Ident(f.from),
        TokView::Kw(Kw::Where),
    ]
}

spec fn middle_toks(f: Frame) -> Seq<TokView> {
    seq![
        TokView::Kw(Kw::Into),
        TokView::Kw(Kw::Target),
        TokView::Sym(Sym::Dot),
        TokView::Ident(f.into),
        TokView::Kw(Kw::Add),
        TokView::Sym(Sym::LBrace),
        TokView::Ident(f.column),
        TokView::Sym(Sym::Assign),
    ]
}

spec fn tail_toks() -> Seq<TokView> {
    seq![TokView::Sym(Sym::RBrace), TokView::Sym(Sym::RBrace)]
}

/// Something and a space, in front of something else.
proof fn lemma_item(
    w: Seq<char>,
    toks: Seq<TokView>,
    more: Seq<char>,
    more_toks: Seq<TokView>,
    rest: Seq<char>,
    line: usize,
)
    requires
        reads_as(w, toks, seq![' '] + (more + rest), line),
        reads_as(more, more_toks, rest, line),
    ensures
        reads_as(w + (seq![' '] + more), toks + more_toks, rest, line),
{
    lemma_reads_space(more + rest, line);
    lemma_reads_both(seq![' '], seq![], more, more_toks, rest, line);
    assert(seq![] + more_toks =~= more_toks);
    assert((seq![' '] + more) + rest =~= seq![' '] + (more + rest));
    lemma_reads_both(w, toks, seq![' '] + more, more_toks, rest, line);
}

proof fn lemma_word_item(
    w: Seq<char>,
    more: Seq<char>,
    more_toks: Seq<TokView>,
    rest: Seq<char>,
    line: usize,
)
    requires
        is_word(w),
        reads_as(more, more_toks, rest, line),
    ensures
        reads_as(w + (seq![' '] + more), seq![word_tok(w)] + more_toks, rest, line),
{
    let follows = seq![' '] + (more + rest);
    assert(follows[0] == ' ');
    lemma_reads_word(w, follows, line);
    lemma_item(w, seq![word_tok(w)], more, more_toks, rest, line);
}

proof fn lemma_sym_item(
    c: char,
    sym: Sym,
    more: Seq<char>,
    more_toks: Seq<TokView>,
    rest: Seq<char>,
    line: usize,
)
    requires
        (c == '{' && sym == Sym::LBrace) || (c == '}' && sym == Sym::RBrace) || (c == '=' && sym
            == Sym::Assign),
        reads_as(more, more_toks, rest, line),
    ensures
        reads_as(seq![c] + (seq![' '] + more), seq![TokView::Sym(sym)] + more_toks, rest, line),
{
    let follows = seq![' '] + (more + rest);
    let cs = seq![c] + follows;
    assert(cs[0] == c && cs[1] == ' ');
    lemma_reads_sym(seq![c], sym, follows, line);
    lemma_item(seq![c], seq![TokView::Sym(sym)], more, more_toks, rest, line);
}

proof fn lemma_name_item(
    name: Seq<char>,
    more: Seq<char>,
    more_toks: Seq<TokView>,
    rest: Seq<char>,
    line: usize,
)
    requires
        is_bracketed(name),
        reads_as(more, more_toks, rest, line),
    ensures
        reads_as(
            (seq!['['] + name + seq![']']) + (seq![' '] + more),
            seq![TokView::Ident(name)] + more_toks,
            rest,
            line,
        ),
{
    lemma_reads_name(name, seq![' '] + (more + rest), line);
    lemma_item(
        seq!['['] + name + seq![']'],
        seq![TokView::Ident(name)],
        more,
        more_toks,
        rest,
        line,
    );
}

/// `word.[name]`.
proof fn lemma_path_item(
    w: Seq<char>,
    name: Seq<char>,
    more: Seq<char>,
    more_toks: Seq<TokView>,
    rest: Seq<char>,
    line: usize,
)
    requires
        is_word(w),
        is_bracketed(name),
        reads_as(more, more_toks, rest, line),
    ensures
        reads_as(
            w + (seq!['.'] + ((seq!['['] + name + seq![']']) + (seq![' '] + more))),
            seq![word_tok(w)] + (seq![TokView::Sym(Sym::Dot)] + (seq![TokView::Ident(name)]
                + more_toks)),
            rest,
            line,
        ),
{
    let named = (seq!['['] + name + seq![']']) + (seq![' '] + more);
    let named_toks = seq![TokView::Ident(name)] + more_toks;
    lemma_name_item(name, more, more_toks, rest, line);
    let dot = seq!['.'];
    assert((dot + (named + rest))[0] == '.');
    lemma_reads_sym(dot, Sym::Dot, named + rest, line);
    lemma_reads_both(dot, seq![TokView::Sym(Sym::Dot)], named, named_toks, rest, line);
    let tail = dot + named;
    assert((tail + rest)[0] == '.');
    lemma_reads_word(w, tail + rest, line);
    lemma_reads_both(
        w,
        seq![word_tok(w)],
        tail,
        seq![TokView::Sym(Sym::Dot)] + named_toks,
        rest,
        line,
    );
}

proof fn lemma_reads_nothing(rest: Seq<char>, line: usize)
    ensures
        reads_as(seq![], seq![], rest, line),
{
    reveal(reads_as);
    assert(seq![] + rest =~= rest);
    assert(lined(seq![], line) =~= seq![]);
    if let Ok(v) = lex_spec(rest, line) {
        assert(lined(seq![], line) + v =~= v);
    }
}

/// The parts of the start of a script, from the last to the first.
spec fn head_parts(f: Frame) -> Seq<char> {
    let w1 = "WHERE"@ + (seq![' '] + Seq::<char>::empty());
    let w2 = "SOURCE"@ + (seq!['.'] + ((seq!['['] + f.from + seq![']']) + (seq![' '] + w1)));
    let w3 = seq!['='] + (seq![' '] + w2);
    let w4 = f.alias + (seq![' '] + w3);
    let w5 = "FROM"@ + (seq![' '] + w4);
    let w6 = seq!['{'] + (seq![' '] + w5);
    let w7 = (seq!['\''] + double_quotes(f.name) + seq!['\'']) + (seq![' '] + w6);
    "WORK"@ + (seq![' '] + w7)
}

#[verifier::rlimit(40)]
proof fn lemma_head_text(f: Frame)
    ensures
        head_text(f) == head_parts(f),
{
    reveal_strlit("WORK '");
    reveal_strlit("' { FROM ");
    reveal_strlit(" = SOURCE.[");
    reveal_strlit("] WHERE ");
    reveal_strlit("WORK");
    reveal_strlit("FROM");
    reveal_strlit("SOURCE");
    reveal_strlit("WHERE");
    assert("WORK '"@ =~= "WORK"@ + seq![' ', '\'']);
    assert("' { FROM "@ =~= seq!['\'', ' ', '{', ' '] + "FROM"@ + seq![' ']);
    assert(" = SOURCE.["@ =~= seq![' ', '=', ' '] + "SOURCE"@ + seq!['.', '[']);
    assert("] WHERE "@ =~= seq![']', ' '] + "WHERE"@ + seq![' ']);
    assert(head_text(f) =~= head_parts(f));
}

/// The parts of the middle of a script, from the last to the first.
spec fn middle_parts(f: Frame) -> Seq<char> {
    let w1 = seq!['='] + (seq![' '] + Seq::<char>::empty());
    let w2 = (seq!['['] + f.column + seq![']']) + (seq![' '] + w1);
    let w3 = seq!['{'] + (seq![' '] + w2);
    let w4 = "ADD"@ + (seq![' '] + w3);
    let w5 = "TARGET"@ + (seq!['.'] + ((seq!['['] + f.into + seq![']']) + (seq![' '] + w4)));
    seq![' '] + ("INTO"@ + (seq![' '] + w5))
}

#[verifier::rlimit(40)]
proof fn lemma_middle_text(f: Frame)
    ensures
        middle_text(f) == middle_parts(f),
{
    reveal_strlit(" INTO TARGET.[");
    reveal_strlit("] ADD { [");
    reveal_strlit("] = ");
    reveal_strlit("INTO");
    reveal_strlit("TARGET");
    reveal_strlit("ADD");
    assert(" INTO TARGET.["@ =~= seq![' '] + "INTO"@ + seq![' '] + "TARGET"@ + seq!['.', '[']);
    assert("] ADD { ["@ =~= seq![']', ' '] + "ADD"@ + seq![' ', '{', ' ', '[']);
    assert("] = "@ =~= seq![']', ' ', '=', ' ']);
    assert(middle_text(f) =~= middle_parts(f));
}

proof fn lemma_reads_head(f: Frame, rest: Seq<char>)
    requires
        frame_ok(f),
    ensures
        reads_as(head_text(f), head_toks(f), rest, 1),
{
    lemma_job_words();
    lemma_head_text(f);
    let w0 = Seq::<char>::empty();
    let t0 = Seq::<TokView>::empty();
    lemma_reads_nothing(rest, 1);
    let w1 = "WHERE"@ + (seq![' '] + w0);
    let t1 = seq![word_tok("WHERE"@)] + t0;
    lemma_word_item("WHERE"@, w0, t0, rest, 1);
    let w2 = "SOURCE"@ + (seq!['.'] + ((seq!['['] + f.from + seq![']']) + (seq![' '] + w1)));
    let t2 = seq![word_tok("SOURCE"@)] + (seq![TokView::Sym(Sym::Dot)] + (seq![
        TokView::Ident(f.from),
    ] + t1));
    lemma_path_item("SOURCE"@, f.from, w1, t1, rest, 1);
    let w3 = seq!['='] + (seq![' '] + w2);
    let t3 = seq![TokView::Sym(Sym::Assign)] + t2;
    lemma_sym_item('=', Sym::Assign, w2, t2, rest, 1);
    let w4 = f.alias + (seq![' '] + w3);
    let t4 = seq![word_tok(f.alias)] + t3;
    lemma_word_item(f.alias, w3, t3, rest, 1);
    let w5 = "FROM"@ + (seq![' '] + w4);
    let t5 = seq![word_tok("FROM"@)] + t4;
    lemma_word_item("FROM"@, w4, t4, rest, 1);
    let w6 = seq!['{'] + (seq![' '] + w5);
    let t6 = seq![TokView::Sym(Sym::LBrace)] + t5;
    lemma_sym_item('{', Sym::LBrace, w5, t5, rest, 1);
    let name = seq!['\''] + double_quotes(f.name) + seq!['\''];
    let w7 = name + (seq![' '] + w6);
    let t7 = seq![TokView::Str(f.name)] + t6;
    let follows = seq![' '] + (w6 + rest);
    assert(follows[0] == ' ');
    lemma_reads_plain_text(f.name, follows, 1);
    lemma_item(name, seq![TokView::Str(f.name)], w6, t6, rest, 1);
    lemma_word_item("WORK"@, w7, t7, rest, 1);
    assert(head_text(f) == "WORK"@ + (seq![' '] + w7));
    assert(head_toks(f) =~= seq![word_tok("WORK"@)] + t7);
}

proof fn lemma_reads_middle(f: Frame, rest: Seq<char>)
    requires
        frame_ok(f),
    ensures
        reads_as(middle_text(f), middle_toks(f), rest, 1),
{
    lemma_job_words();
    lemma_middle_text(f);
    let w0 = Seq::<char>::empty();
    let t0 = Seq::<TokView>::empty();
    lemma_reads_nothing(rest, 1);
    let w1 = seq!['='] + (seq![' '] + w0);
    let t1 = seq![TokView::Sym(Sym::Assign)] + t0;
    lemma_sym_item('=', Sym::Assign, w0, t0, rest, 1);
    let w2 = (seq!['['] + f.column + seq![']']) + (seq![' '] + w1);
    let t2 = seq![TokView::Ident(f.column)] + t1;
    lemma_name_item(f.column, w1, t1, rest, 1);
    let w3 = seq!['{'] + (seq![' '] + w2);
    let t3 = seq![TokView::Sym(Sym::LBrace)] + t2;
    lemma_sym_item('{', Sym::LBrace, w2, t2, rest, 1);
    let w4 = "ADD"@ + (seq![' '] + w3);
    let t4 = seq![word_tok("ADD"@)] + t3;
    lemma_word_item("ADD"@, w3, t3, rest, 1);
    let w5 = "TARGET"@ + (seq!['.'] + ((seq!['['] + f.into + seq![']']) + (seq![' '] + w4)));
    let t5 = seq![word_tok("TARGET"@)] + (seq![TokView::Sym(Sym::Dot)] + (seq![
        TokView::Ident(f.into),
    ] + t4));
    lemma_path_item("TARGET"@, f.into, w4, t4, rest, 1);
    let w6 = "INTO"@ + (seq![' '] + w5);
    let t6 = seq![word_tok("INTO"@)] + t5;
    lemma_word_item("INTO"@, w5, t5, rest, 1);
    lemma_reads_space(w6 + rest, 1);
    lemma_reads_both(seq![' '], seq![], w6, t6, rest, 1);
    assert(middle_text(f) == seq![' '] + w6);
    assert(middle_toks(f) =~= seq![] + t6);
}

proof fn lemma_reads_tail()
    ensures
        reads_as(" } }"@, tail_toks(), seq![], 1),
{
    reveal_strlit(" } }");
    let close = seq!['}'];
    assert((close + seq![])[0] == '}');
    lemma_reads_sym(close, Sym::RBrace, seq![], 1);
    let w1 = seq!['}'] + (seq![' '] + close);
    let t1 = seq![TokView::Sym(Sym::RBrace)] + seq![TokView::Sym(Sym::RBrace)];
    lemma_sym_item('}', Sym::RBrace, close, seq![TokView::Sym(Sym::RBrace)], seq![], 1);
    lemma_reads_space(w1 + seq![], 1);
    lemma_reads_both(seq![' '], seq![], w1, t1, seq![], 1);
    assert(" } }"@ =~= seq![' '] + w1);
    assert(tail_toks() =~= seq![] + t1);
}

spec fn script_toks(f: Frame, c: CondView, e: ExprView) -> Seq<TokView> {
    head_toks(f) + (bare_toks(c) + (middle_toks(f) + (expr_toks(e) + tail_toks())))
}

proof fn lemma_reads_script(f: Frame, c: CondView, e: ExprView, rd: Reading)
    requires
        frame_ok(f),
        cond_ok(c, frame_env(f, rd)),
        expr_ok(e, frame_env(f, rd)),
    ensures
        reads_as(script_text(f, c, e), script_toks(f, c, e), seq![], 1),
{
    let env = frame_env(f, rd);
    let none = Seq::<char>::empty();
    let tail = " } }"@;
    lemma_reads_tail();
    assert(tail + none =~= tail);
    assert(tail[0] == ' ') by {
        reveal_strlit(" } }");
    }
    assert(tail.len() > 0) by {
        reveal_strlit(" } }");
    }
    lemma_reads_expr(e, env, tail + none, 1);
    let w1 = expr_dsl(e) + tail;
    let t1 = expr_toks(e) + tail_toks();
    lemma_reads_both(expr_dsl(e), expr_toks(e), tail, tail_toks(), none, 1);
    lemma_reads_middle(f, w1 + none);
    let w2 = middle_text(f) + w1;
    let t2 = middle_toks(f) + t1;
    lemma_reads_both(middle_text(f), middle_toks(f), w1, t1, none, 1);
    assert((w2 + none)[0] == ' ') by {
        lemma_middle_text(f);
    }
    lemma_reads_bare(c, env, w2 + none, 1);
    let w3 = bare_dsl(c) + w2;
    let t3 = bare_toks(c) + t2;
    lemma_reads_both(bare_dsl(c), bare_toks(c), w2, t2, none, 1);
    lemma_reads_head(f, w3 + none);
    lemma_reads_both(head_text(f), head_toks(f), w3, t3, none, 1);
    assert(script_text(f, c, e) =~= head_text(f) + w3);
}

/// `FROM alias = SOURCE.[from]`, where no `.` follows.
proof fn lemma_binding_parses(f: Frame, ts: Seq<TokenView>)
    requires
        holds_at(ts, 0, head_toks(f)),
        one_line(ts, 1),
    ensures
        binding(ts, 4) == Ok::<(BindingView, nat), IssueView>(
            (
                BindingView {
                    alias: f.alias,
                    conn: ConnRef::Source,
                    table: seq![f.from],
                    line: 1,
                },
                9,
            ),
        ),
        is_kw(ts, 9, Kw::Where),
{
    let toks = head_toks(f);
    lemma_tok(ts, 0, toks, 4);
    lemma_tok(ts, 0, toks, 5);
    lemma_tok(ts, 0, toks, 6);
    lemma_tok(ts, 0, toks, 7);
    lemma_tok(ts, 0, toks, 8);
    lemma_tok(ts, 0, toks, 9);
    let what = "`.` 之後的資料表段"@;
    let none = Seq::<Seq<char>>::empty();
    assert(dotted(ts, 9, what) == Ok::<(Seq<Seq<char>>, nat), IssueView>((none, 9)));
    assert(seq![f.from] + none =~= seq![f.from]);
    assert(dotted(ts, 7, what) == Ok::<(Seq<Seq<char>>, nat), IssueView>((seq![f.from], 9)));
    assert(line_at(ts, 4) == 1);
}

/// ` INTO TARGET.[into]`, where ADD follows.
proof fn lemma_into_parses(f: Frame, ts: Seq<TokenView>, q: nat)
    requires
        holds_at(ts, q, middle_toks(f)),
        one_line(ts, 1),
    ensures
        into_clause(ts, q) == Ok::<(IntoView, nat), IssueView>(
            (
                IntoView { conn: ConnRef::Target, table: seq![f.into], alias: None, line: 1 },
                q + 4,
            ),
        ),
        is_kw(ts, q, Kw::Into),
{
    let toks = middle_toks(f);
    lemma_tok(ts, q, toks, 0);
    lemma_tok(ts, q, toks, 1);
    lemma_tok(ts, q, toks, 2);
    lemma_tok(ts, q, toks, 3);
    lemma_tok(ts, q, toks, 4);
    let what = "`.` 之後的資料表段"@;
    let none = Seq::<Seq<char>>::empty();
    assert(dotted(ts, q + 4, what) == Ok::<(Seq<Seq<char>>, nat), IssueView>((none, q + 4)));
    assert(seq![f.into] + none =~= seq![f.into]);
    assert(dotted(ts, q + 2, what) == Ok::<(Seq<Seq<char>>, nat), IssueView>(
        (seq![f.into], q + 4),
    ));
    assert(line_at(ts, q) == 1);
}

/// `ADD { [column] = value }`.
#[verifier::rlimit(40)]
proof fn lemma_add_parses(f: Frame, e: ExprView, ts: Seq<TokenView>, q: nat, env: Env)
    requires
        expr_ok(e, env),
        !env.scope.legacy,
        holds_at(ts, q, middle_toks(f) + (expr_toks(e) + tail_toks())),
        one_line(ts, 1),
    ensures
        action(ts, q + 4, env) == Ok::<(ActionView, nat), IssueView>(
            (
                ActionView::Add(
                    seq![AssignmentView { target_column: f.column, value: expr_at(e, 1), line: 1 }],
                ),
                q + 9 + expr_toks(e).len(),
            ),
        ),
        is_kw(ts, q + 4, Kw::Add),
        is_sym(ts, q + 9 + expr_toks(e).len(), Sym::RBrace),
        q + 10 + expr_toks(e).len() <= ts.len(),
{
    let toks = middle_toks(f);
    let n = expr_toks(e).len();
    let z = q + 8 + n;
    lemma_holds_parts(ts, q, toks, expr_toks(e) + tail_toks());
    lemma_holds_parts(ts, q + 8, expr_toks(e), tail_toks());
    lemma_tok(ts, q, toks, 4);
    lemma_tok(ts, q, toks, 5);
    lemma_tok(ts, q, toks, 6);
    lemma_tok(ts, q, toks, 7);
    lemma_tok(ts, z, tail_toks(), 0);
    lemma_tok(ts, z, tail_toks(), 1);
    lemma_expr_parses(e, ts, q + 8, env);
    assert(line_at(ts, q + 6) == 1);
    assert(line_at(ts, q + 8) == 1);
    let a = AssignmentView { target_column: f.column, value: expr_at(e, 1), line: 1 };
    assert(assignment(ts, q + 6, env) == Ok::<(AssignmentView, nat), IssueView>((a, z)));
    let none = Seq::<AssignmentView>::empty();
    assert(assignments_rest(ts, z, env, false) == Ok::<(Seq<AssignmentView>, nat), IssueView>(
        (none, z + 1),
    ));
    assert(seq![a] + none =~= seq![a]);
    assert(assignments_rest(ts, q + 6, env, true) == Ok::<(Seq<AssignmentView>, nat), IssueView>(
        (seq![a], z + 1),
    ));
}

/// The clauses of a job make up the job.
#[verifier::rlimit(40)]
proof fn lemma_clauses_parse(
    f: Frame,
    c: CondView,
    e: ExprView,
    ts: Seq<TokenView>,
    q: nat,
    z: nat,
    rd: Reading,
)
    requires
        is_kw(ts, 3, Kw::From),
        binding(ts, 4) == Ok::<(BindingView, nat), IssueView>(
            (framed_script(f, c, e).works[0].from, 9),
        ),
        is_kw(ts, 9, Kw::Where),
        or_cond(ts, 10, frame_env(f, rd)) == Ok::<(CondView, nat), IssueView>((cond_at(c, 1), q)),
        into_clause(ts, q) == Ok::<(IntoView, nat), IssueView>(
            (framed_script(f, c, e).works[0].into, q + 4),
        ),
        is_kw(ts, q + 4, Kw::Add),
        action(ts, q + 4, frame_env(f, rd)) == Ok::<(ActionView, nat), IssueView>(
            (framed_script(f, c, e).works[0].action->0, z),
        ),
    ensures
        new_work(ts, 3, Some(f.name), 1, rd) == Ok::<(WorkView, nat), IssueView>(
            (framed_script(f, c, e).works[0], z),
        ),
{
    let env = frame_env(f, rd);
    let w = framed_script(f, c, e).works[0];
    assert(join_clauses(ts, 9, env.scope, rd) == Ok::<
        ((Seq<JoinView>, ScopeView), nat),
        IssueView,
    >(((seq![], env.scope), 9)));
    assert(where_clause(ts, 9, env) == Ok::<(Option<CondView>, nat), IssueView>((w.where_, q)));
    assert(write_clause(ts, q + 4, env, 1) == Ok::<
        ((Option<MergeView>, Option<ActionView>), nat),
        IssueView,
    >(((None, w.action), z)));
}

/// How many tokens the script has.
spec fn script_len(c: CondView, e: ExprView) -> nat {
    20 + bare_toks(c).len() + expr_toks(e).len()
}

#[verifier::rlimit(40)]
proof fn lemma_body_parses(f: Frame, c: CondView, e: ExprView, ts: Seq<TokenView>, rd: Reading)
    requires
        cond_ok(c, frame_env(f, rd)),
        expr_ok(e, frame_env(f, rd)),
        holds_at(ts, 0, script_toks(f, c, e)),
        one_line(ts, 1),
    ensures
        new_work(ts, 3, Some(f.name), 1, rd) == Ok::<(WorkView, nat), IssueView>(
            (framed_script(f, c, e).works[0], (script_len(c, e) - 1) as nat),
        ),
        is_sym(ts, (script_len(c, e) - 1) as nat, Sym::RBrace),
{
    let env = frame_env(f, rd);
    let q = 10 + bare_toks(c).len();
    let z = q + 9 + expr_toks(e).len();
    let back = expr_toks(e) + tail_toks();
    lemma_holds_parts(ts, 0, head_toks(f), bare_toks(c) + (middle_toks(f) + back));
    lemma_holds_parts(ts, 10, bare_toks(c), middle_toks(f) + back);
    lemma_holds_parts(ts, q, middle_toks(f), back);
    lemma_tok(ts, 0, head_toks(f), 3);
    lemma_binding_parses(f, ts);
    lemma_into_parses(f, ts, q);
    assert(ends_or(ts, q));
    lemma_or_parses(c, ts, 10, env, 1);
    lemma_add_parses(f, e, ts, q, env);
    lemma_clauses_parse(f, c, e, ts, q, z, rd);
}

/// A named block around the clauses of a job.
proof fn lemma_block_parses(
    ts: Seq<TokenView>,
    name: Seq<char>,
    w: WorkView,
    z: nat,
    rd: Reading,
)
    requires
        line_at(ts, 0) == 1,
        tok_at(ts, 1) == Some(TokView::Str(name)),
        is_sym(ts, 2, Sym::LBrace),
        is_kw(ts, 3, Kw::From),
        new_work(ts, 3, Some(name), 1, rd) == Ok::<(WorkView, nat), IssueView>((w, z)),
        is_sym(ts, z, Sym::RBrace),
    ensures
        work_block(ts, 0, rd) == Ok::<(WorkView, nat), IssueView>((w, z + 1)),
{
}

#[verifier::rlimit(40)]
proof fn lemma_work_parses(f: Frame, c: CondView, e: ExprView, ts: Seq<TokenView>, rd: Reading)
    requires
        cond_ok(c, frame_env(f, rd)),
        expr_ok(e, frame_env(f, rd)),
        holds_at(ts, 0, script_toks(f, c, e)),
        ts.len() == script_len(c, e),
        one_line(ts, 1),
    ensures
        work_block(ts, 0, rd) == Ok::<(WorkView, nat), IssueView>(
            (framed_script(f, c, e).works[0], ts.len()),
        ),
        is_kw(ts, 0, Kw::Work),
{
    let toks = head_toks(f);
    lemma_body_parses(f, c, e, ts, rd);
    lemma_holds_parts(
        ts,
        0,
        toks,
        bare_toks(c) + (middle_toks(f) + (expr_toks(e) + tail_toks())),
    );
    lemma_tok(ts, 0, toks, 0);
    lemma_tok(ts, 0, toks, 1);
    lemma_tok(ts, 0, toks, 2);
    lemma_tok(ts, 0, toks, 3);
    assert(line_at(ts, 0) == 1);
    lemma_block_parses(
        ts,
        f.name,
        framed_script(f, c, e).works[0],
        (script_len(c, e) - 1) as nat,
        rd,
    );
}

/// A script of one block has that one job.
proof fn lemma_one_block(ts: Seq<TokenView>, w: WorkView, rd: Reading)
    requires
        is_kw(ts, 0, Kw::Work),
        work_block(ts, 0, rd) == Ok::<(WorkView, nat), IssueView>((w, ts.len())),
    ensures
        script_of(ts, rd) == Ok::<ScriptView, IssueView>(
            ScriptView { header: no_header(), works: seq![w] },
        ),
{
    assert(header_decls(ts, 0, no_header()) == Ok::<(HeaderView, nat), IssueView>(
        (no_header(), 0),
    ));
    assert(skip_go(ts, 0) == 0);
    assert(one_work(ts, 0, rd) == Ok::<(WorkView, nat), IssueView>((w, ts.len()))) by {
        reveal(one_work);
    }
    assert(skip_go(ts, ts.len()) == ts.len());
    let none = Seq::<WorkView>::empty();
    assert(work_list(ts, ts.len(), rd) == Ok::<Seq<WorkView>, IssueView>(none));
    assert(seq![w] + none =~= seq![w]);
    assert(work_list(ts, 0, rd) == Ok::<Seq<WorkView>, IssueView>(seq![w]));
}

proof fn lemma_script_parses(f: Frame, c: CondView, e: ExprView, ts: Seq<TokenView>, rd: Reading)
    requires
        cond_ok(c, frame_env(f, rd)),
        expr_ok(e, frame_env(f, rd)),
        ts == lined(script_toks(f, c, e), 1),
    ensures
        script_of(ts, rd) == Ok::<ScriptView, IssueView>(framed_script(f, c, e)),
{
    let w = framed_script(f, c, e).works[0];
    assert(holds_at(ts, 0, script_toks(f, c, e))) by {
        reveal(holds_at);
    }
    assert(work_block(ts, 0, rd) == Ok::<(WorkView, nat), IssueView>((w, ts.len())) && is_kw(
        ts,
        0,
        Kw::Work,
    )) by {
        lemma_work_parses(f, c, e, ts, rd);
    }
    lemma_one_block(ts, w, rd);
    assert(framed_script(f, c, e).works =~= seq![w]);
}

/// A whole script reads back: what a job filters by and what it writes, put
/// into a script as script text, come out of it as they were, but for the line
/// that they are noted to stand on, which is that of the script. What already
/// stands on that line comes out as it was.
pub proof fn law_script_text_reads_back(f: Frame, c: CondView, e: ExprView, rd: Reading)
    requires
        frame_ok(f),
        cond_ok(c, frame_env(f, rd)),
        expr_ok(e, frame_env(f, rd)),
    ensures
        parse_spec(script_text(f, c, e), rd) == Ok::<ScriptView, IssueView>(framed_script(f, c, e)),
        cond_at(c, 1) == c ==> framed_script(f, c, e).works[0].where_ == Some(c),
{
    let ts = lined(script_toks(f, c, e), 1);
    lemma_reads_script(f, c, e, rd);
    lemma_reads_all(script_text(f, c, e), script_toks(f, c, e), 1);
    lemma_script_parses(f, c, e, ts, rd);
}

proof fn lemma_first_filter(f: Frame, c: CondView, e: ExprView, rd: Reading)
    requires
        frame_ok(f),
        cond_ok(c, frame_env(f, rd)),
        expr_ok(e, frame_env(f, rd)),
    ensures
        first_filter(script_text(f, c, e), rd) == Some(cond_at(c, 1)),
{
    law_script_text_reads_back(f, c, e, rd);
    reveal(first_filter);
}

/// Whatever text a one-line script filters by: the condition that was read from
/// it, written as script text in its place, is read as the same condition.
pub proof fn law_parsed_condition_reads_back(
    f: Frame,
    x: Seq<char>,
    c: CondView,
    e: ExprView,
    rd: Reading,
)
    requires
        frame_ok(f),
        !filtered_by(f, x, e).contains('\n'),
        first_filter(filtered_by(f, x, e), rd) == Some(c),
        cond_ok(c, frame_env(f, rd)),
        expr_ok(e, frame_env(f, rd)),
    ensures
        first_filter(filtered_by(f, cond_dsl(c, 0), e), rd) == Some(c),
{
    law_one_line_conditions_stand_on_it(filtered_by(f, x, e), rd);
    lemma_first_filter(f, c, e, rd);
}

} // verus!
