//! Script text of operands without quotes, token by token.
use crate::etl::script::alias::lemma_nat_text;
use crate::etl::script::ast::{
    double_quotes, expr_dsl, gen_label, gen_of, ColRefView, ExprView, GenKind,
};
use crate::etl::script::clauses::IssueView;
use crate::etl::script::grammar::Env;
use crate::etl::script::lexer::{
    at, in_run, kw_of, lemma_run_len, lex_spec, lexeme, quoted, run_len, symbol_at, word_tok, Kw,
    Lexeme, Run, Sym, TokView, TokenView,
};
use crate::etl::script::scope::alias_named;
use crate::text;
use vstd::prelude::*;

verus! {

/// Tokens on one line.
pub open spec fn lined(toks: Seq<TokView>, line: usize) -> Seq<TokenView> {
    Seq::new(toks.len(), |i: int| TokenView { tok: toks[i], line })
}

/// The tokens with some more in front.
pub open spec fn prepend(
    toks: Seq<TokView>,
    line: usize,
    r: Result<Seq<TokenView>, IssueView>,
) -> Result<Seq<TokenView>, IssueView> {
    match r {
        Ok(v) => Ok(lined(toks, line) + v),
        Err(e) => Err(e),
    }
}

/// In front of `rest` the text is read as those tokens.
#[verifier::opaque]
pub open spec fn reads_as(w: Seq<char>, toks: Seq<TokView>, rest: Seq<char>, line: usize) -> bool {
    lex_spec(w + rest, line) == prepend(toks, line, lex_spec(rest, line))
}

pub(crate) proof fn lemma_reads_both(
    a: Seq<char>,
    ta: Seq<TokView>,
    b: Seq<char>,
    tb: Seq<TokView>,
    rest: Seq<char>,
    line: usize,
)
    requires
        reads_as(a, ta, b + rest, line),
        reads_as(b, tb, rest, line),
    ensures
        reads_as(a + b, ta + tb, rest, line),
{
    reveal(reads_as);
    assert((a + b) + rest =~= a + (b + rest));
    assert(lined(ta + tb, line) =~= lined(ta, line) + lined(tb, line));
    if let Ok(v) = lex_spec(rest, line) {
        assert(lined(ta, line) + (lined(tb, line) + v) =~= lined(ta + tb, line) + v);
    }
}

proof fn lemma_reads_one(w: Seq<char>, tok: TokView, rest: Seq<char>, line: usize)
    requires
        w.len() > 0,
        lexeme(w + rest, line) == (Lexeme::Emit { tok, n: w.len() }),
    ensures
        reads_as(w, seq![tok], rest, line),
{
    reveal(reads_as);
    assert((w + rest).skip(w.len() as int) =~= rest);
    assert(lined(seq![tok], line) =~= seq![TokenView { tok, line }]);
}

pub(crate) proof fn lemma_reads_space(rest: Seq<char>, line: usize)
    ensures
        reads_as(seq![' '], seq![], rest, line),
{
    reveal(reads_as);
    let cs = seq![' '] + rest;
    assert(cs.skip(1) =~= rest);
    assert(lined(seq![], line) =~= seq![]);
    if let Ok(v) = lex_spec(rest, line) {
        assert(lined(seq![], line) + v =~= v);
    }
}

/// The character goes on with no word, number, quote, name or symbol before it.
pub open spec fn stops(rest: Seq<char>) -> bool {
    rest.len() == 0 || rest[0] == ' ' || rest[0] == ')' || rest[0] == ','
}

/// How far a run of characters reaches where something else follows.
proof fn lemma_run_stops(w: Seq<char>, rest: Seq<char>, run: Run)
    requires
        forall|i: int| 0 <= i < w.len() ==> in_run(#[trigger] w[i], run),
        rest.len() > 0 ==> !in_run(rest[0], run),
    ensures
        run_len(w + rest, run) == w.len(),
{
    let cs = w + rest;
    lemma_run_len(cs, run);
    let n = run_len(cs, run) as int;
    if n < w.len() {
        assert(cs[n] == w[n]);
        assert(false);
    }
    if n > w.len() {
        assert(in_run(cs[w.len() as int], run));
        assert(cs[w.len() as int] == rest[0]);
        assert(false);
    }
}

/// A word that is written bare: letters, digits and underscores, not starting
/// with a digit.
pub open spec fn is_word(w: Seq<char>) -> bool {
    &&& w.len() > 0
    &&& forall|i: int| 0 <= i < w.len() ==> in_run(#[trigger] w[i], Run::Word)
    &&& !text::is_digit(w[0])
    &&& !text::is_space(w[0])
}

pub(crate) proof fn lemma_reads_word(w: Seq<char>, rest: Seq<char>, line: usize)
    requires
        is_word(w),
        rest.len() > 0 ==> !in_run(rest[0], Run::Word) && rest[0] != '\'',
    ensures
        reads_as(w, seq![word_tok(w)], rest, line),
{
    let cs = w + rest;
    lemma_run_stops(w, rest, Run::Word);
    assert(in_run(w[0], Run::Word));
    assert(cs[0] == w[0]);
    if w.len() > 1 {
        assert(in_run(w[1], Run::Word));
        assert(cs[1] == w[1]);
    }
    assert(!at(cs, 1, '\''));
    assert(cs.take(w.len() as int) =~= w);
    assert(symbol_at(cs) is None);
    lemma_reads_one(w, word_tok(w), rest, line);
}

/// A name between brackets.
pub open spec fn is_bracketed(column: Seq<char>) -> bool {
    &&& column.len() > 0
    &&& text::trim(column) == column
    &&& !column.contains(']')
    &&& !column.contains('\n')
}

pub(crate) proof fn lemma_reads_name(column: Seq<char>, rest: Seq<char>, line: usize)
    requires
        is_bracketed(column),
    ensures
        reads_as(seq!['['] + column + seq![']'], seq![TokView::Ident(column)], rest, line),
{
    let w = seq!['['] + column + seq![']'];
    let cs = w + rest;
    let tail = seq![']'] + rest;
    assert(cs.skip(1) =~= column + tail);
    assert forall|i: int| 0 <= i < column.len() implies in_run(#[trigger] column[i], Run::Name) by {
        assert(column.contains(column[i]));
    }
    lemma_run_stops(column, tail, Run::Name);
    assert(cs.subrange(1, column.len() as int + 1) =~= column);
    assert(at(cs, column.len() as int + 1, ']'));
    assert(cs[0] == '[');
    lemma_reads_one(w, TokView::Ident(column), rest, line);
}

proof fn lemma_quoted_text(s: Seq<char>, rest: Seq<char>)
    requires
        !s.contains('\n'),
        rest.len() > 0 ==> rest[0] != '\'',
    ensures
        quoted(double_quotes(s) + seq!['\''] + rest) == Some(
            (s, (double_quotes(s).len() + 1) as nat),
        ),
    decreases s.len(),
{
    let cs = double_quotes(s) + seq!['\''] + rest;
    if s.len() == 0 {
        assert(cs[0] == '\'');
        assert(!at(cs, 1, '\'')) by {
            if cs.len() > 1 {
                assert(cs[1] == rest[0]);
            }
        }
        assert(s =~= seq![]);
    } else {
        let t = s.skip(1);
        assert(!t.contains('\n')) by {
            if t.contains('\n') {
                let i = choose|i: int| 0 <= i < t.len() && t[i] == '\n';
                assert(s[i + 1] == '\n');
            }
        }
        lemma_quoted_text(t, rest);
        assert(s[0] != '\n') by {
            assert(s.contains(s[0]));
        }
        let inner = double_quotes(t) + seq!['\''] + rest;
        assert(seq![s[0]] + t =~= s);
        if s[0] == '\'' {
            assert(double_quotes(s) =~= seq!['\'', '\''] + double_quotes(t));
            assert(cs =~= seq!['\'', '\''] + inner);
            assert(cs.skip(2) =~= inner);
            assert(cs[0] == '\'' && cs[1] == '\'');
        } else {
            assert(double_quotes(s) =~= seq![s[0]] + double_quotes(t));
            assert(cs =~= seq![s[0]] + inner);
            assert(cs.skip(1) =~= inner);
            assert(cs[0] == s[0]);
        }
    }
}

/// A quoted text is read as its content.
pub(crate) proof fn lemma_reads_text(s: Seq<char>, rest: Seq<char>, line: usize)
    requires
        !s.contains('\n'),
        rest.len() > 0 ==> rest[0] != '\'',
    ensures
        reads_as(
            seq!['N', '\''] + double_quotes(s) + seq!['\''],
            seq![TokView::Str(s)],
            rest,
            line,
        ),
{
    let w = seq!['N', '\''] + double_quotes(s) + seq!['\''];
    let cs = w + rest;
    lemma_quoted_text(s, rest);
    assert(cs.skip(2) =~= double_quotes(s) + seq!['\''] + rest);
    assert(cs[0] == 'N' && cs[1] == '\'');
    lemma_reads_one(w, TokView::Str(s), rest, line);
}

/// A text in quotes without `N` is read as its content.
pub(crate) proof fn lemma_reads_plain_text(s: Seq<char>, rest: Seq<char>, line: usize)
    requires
        !s.contains('\n'),
        rest.len() > 0 ==> rest[0] != '\'',
    ensures
        reads_as(seq!['\''] + double_quotes(s) + seq!['\''], seq![TokView::Str(s)], rest, line),
{
    let w = seq!['\''] + double_quotes(s) + seq!['\''];
    let cs = w + rest;
    lemma_quoted_text(s, rest);
    assert(cs.skip(1) =~= double_quotes(s) + seq!['\''] + rest);
    assert(cs[0] == '\'');
    lemma_reads_one(w, TokView::Str(s), rest, line);
}

/// A text that is read as one number.
pub open spec fn is_number(t: Seq<char>) -> bool {
    &&& t.len() > 0
    &&& text::is_digit(t[0]) || (t[0] == '-' && t.len() > 1 && text::is_digit(t[1]))
    &&& forall|i: int| 1 <= i < t.len() ==> in_run(#[trigger] t[i], Run::Number)
}

proof fn lemma_reads_number(t: Seq<char>, rest: Seq<char>, line: usize)
    requires
        is_number(t),
        rest.len() > 0 ==> !in_run(rest[0], Run::Number),
    ensures
        reads_as(t, seq![TokView::Number(t)], rest, line),
{
    let cs = t + rest;
    let w = t.skip(1);
    assert forall|i: int| 0 <= i < w.len() implies in_run(#[trigger] w[i], Run::Number) by {
        assert(w[i] == t[i + 1]);
    }
    assert(cs.skip(1) =~= w + rest);
    lemma_run_stops(w, rest, Run::Number);
    assert(cs.take(t.len() as int) =~= t);
    assert(cs[0] == t[0]);
    if t.len() > 1 {
        assert(cs[1] == t[1]);
        assert(in_run(t[1], Run::Number));
    }
    lemma_reads_one(t, TokView::Number(t), rest, line);
}

pub(crate) proof fn lemma_reads_sym(w: Seq<char>, sym: Sym, rest: Seq<char>, line: usize)
    requires
        w.len() > 0,
        symbol_at(w + rest) == Some((sym, w.len())),
    ensures
        reads_as(w, seq![TokView::Sym(sym)], rest, line),
{
    lemma_reads_one(w, TokView::Sym(sym), rest, line);
}

/// An integer in decimal is read as one number, and as itself.
pub(crate) proof fn lemma_int_text(v: i64)
    ensures
        is_number(text::int_text(v as int)),
        !text::int_text(v as int).contains('.'),
        text::read_i64(text::int_text(v as int)) == Some(v),
{
    let t = text::int_text(v as int);
    if v < 0 {
        let d = text::nat_text((-v) as nat);
        lemma_nat_text((-v) as nat);
        assert(t.skip(1) =~= d);
        assert forall|i: int| 1 <= i < t.len() implies text::is_digit(#[trigger] t[i]) by {
            assert(t[i] == d[i - 1]);
        }
        assert(text::is_digit(d[0]));
        assert(t[1] == d[0]);
    } else {
        lemma_nat_text(v as nat);
        assert(text::is_digit(t[0]));
    }
}

/// The keywords of a test and of a literal.
#[verifier::rlimit(40)]
proof fn lemma_keywords()
    ensures
        kw_of("TRUE"@) == Some(Kw::True),
        kw_of("FALSE"@) == Some(Kw::False),
        kw_of("NULL"@) == Some(Kw::Null),
        kw_of("IS"@) == Some(Kw::Is),
        kw_of("NOT"@) == Some(Kw::Not),
        kw_of("EMPTY"@) == Some(Kw::Empty),
        kw_of("IN"@) == Some(Kw::In),
        kw_of("LIKE"@) == Some(Kw::Like),
        kw_of("BETWEEN"@) == Some(Kw::Between),
        kw_of("WORK"@) == Some(Kw::Work),
        kw_of("FROM"@) == Some(Kw::From),
        kw_of("WHERE"@) == Some(Kw::Where),
        kw_of("INTO"@) == Some(Kw::Into),
        kw_of("ADD"@) == Some(Kw::Add),
        kw_of("SOURCE"@) == Some(Kw::Source),
        kw_of("TARGET"@) == Some(Kw::Target),
        forall|w: Seq<char>| #[trigger] kw_of(w) is Some ==> w.len() >= 2,
        forall|w: Seq<char>| #[trigger] kw_of(w) is Some ==> w[0] != 'G' || w.len() == 2,
        forall|w: Seq<char>| #[trigger] kw_of(w) is Some ==> w[0] != 'U' || w[1] == 'P',
        forall|w: Seq<char>| #[trigger] kw_of(w) is Some ==> w[0] != 'D' || w[1] == 'E',
        forall|w: Seq<char>| #[trigger] kw_of(w) is Some ==> w[0] != 'S' || w[1] != 'H',
        forall|w: Seq<char>| #[trigger] kw_of(w) is Some ==> w[0] != 'M' || w[1] == 'A',
        forall|w: Seq<char>| #[trigger] kw_of(w) is Some ==> w[0] != 'T' || w[1] != 'E',
        forall|w: Seq<char>| #[trigger] kw_of(w) is Some ==> w[0] != 'A' || w[1] == 'D',
{
    reveal_strlit("WORK");
    assert("WORK"@.len() == 4 && "WORK"@[0] == 'W' && "WORK"@[1] == 'O');
    reveal_strlit("FROM");
    assert("FROM"@.len() == 4 && "FROM"@[0] == 'F' && "FROM"@[1] == 'R');
    reveal_strlit("JOIN");
    assert("JOIN"@.len() == 4 && "JOIN"@[0] == 'J' && "JOIN"@[1] == 'O');
    reveal_strlit("WHERE");
    assert("WHERE"@.len() == 5 && "WHERE"@[0] == 'W' && "WHERE"@[1] == 'H');
    reveal_strlit("INTO");
    assert("INTO"@.len() == 4 && "INTO"@[0] == 'I' && "INTO"@[1] == 'N');
    reveal_strlit("ON");
    assert("ON"@.len() == 2 && "ON"@[0] == 'O' && "ON"@[1] == 'N');
    reveal_strlit("MATCHED");
    assert("MATCHED"@.len() == 7 && "MATCHED"@[0] == 'M' && "MATCHED"@[1] == 'A');
    reveal_strlit("NOT");
    assert("NOT"@.len() == 3 && "NOT"@[0] == 'N' && "NOT"@[1] == 'O');
    reveal_strlit("ADD");
    assert("ADD"@.len() == 3 && "ADD"@[0] == 'A' && "ADD"@[1] == 'D');
    reveal_strlit("UPDATE");
    assert("UPDATE"@.len() == 6 && "UPDATE"@[0] == 'U' && "UPDATE"@[1] == 'P');
    reveal_strlit("SKIP");
    assert("SKIP"@.len() == 4 && "SKIP"@[0] == 'S' && "SKIP"@[1] == 'K');
    reveal_strlit("DELETE");
    assert("DELETE"@.len() == 6 && "DELETE"@[0] == 'D' && "DELETE"@[1] == 'E');
    reveal_strlit("GO");
    assert("GO"@.len() == 2 && "GO"@[0] == 'G' && "GO"@[1] == 'O');
    reveal_strlit("IS");
    assert("IS"@.len() == 2 && "IS"@[0] == 'I' && "IS"@[1] == 'S');
    reveal_strlit("EMPTY");
    assert("EMPTY"@.len() == 5 && "EMPTY"@[0] == 'E' && "EMPTY"@[1] == 'M');
    reveal_strlit("IN");
    assert("IN"@.len() == 2 && "IN"@[0] == 'I' && "IN"@[1] == 'N');
    reveal_strlit("LIKE");
    assert("LIKE"@.len() == 4 && "LIKE"@[0] == 'L' && "LIKE"@[1] == 'I');
    reveal_strlit("BETWEEN");
    assert("BETWEEN"@.len() == 7 && "BETWEEN"@[0] == 'B' && "BETWEEN"@[1] == 'E');
    reveal_strlit("INNER");
    assert("INNER"@.len() == 5 && "INNER"@[0] == 'I' && "INNER"@[1] == 'N');
    reveal_strlit("LEFT");
    assert("LEFT"@.len() == 4 && "LEFT"@[0] == 'L' && "LEFT"@[1] == 'E');
    reveal_strlit("SOURCE");
    assert("SOURCE"@.len() == 6 && "SOURCE"@[0] == 'S' && "SOURCE"@[1] == 'O');
    reveal_strlit("TARGET");
    assert("TARGET"@.len() == 6 && "TARGET"@[0] == 'T' && "TARGET"@[1] == 'A');
    reveal_strlit("NULL");
    assert("NULL"@.len() == 4 && "NULL"@[0] == 'N' && "NULL"@[1] == 'U');
    reveal_strlit("TRUE");
    assert("TRUE"@.len() == 4 && "TRUE"@[0] == 'T' && "TRUE"@[1] == 'R');
    reveal_strlit("FALSE");
    assert("FALSE"@.len() == 5 && "FALSE"@[0] == 'F' && "FALSE"@[1] == 'A');
    reveal_strlit("IF");
    assert("IF"@.len() == 2 && "IF"@[0] == 'I' && "IF"@[1] == 'F');
    let w = "IN"@;
    assert(kw_of(w) == Some(Kw::In));
}

/// The words that tests and literals are written with.
pub(crate) proof fn lemma_words()
    ensures
        is_word("TRUE"@) && word_tok("TRUE"@) == TokView::Kw(Kw::True),
        is_word("FALSE"@) && word_tok("FALSE"@) == TokView::Kw(Kw::False),
        is_word("NULL"@) && word_tok("NULL"@) == TokView::Kw(Kw::Null),
        is_word("IS"@) && word_tok("IS"@) == TokView::Kw(Kw::Is),
        is_word("NOT"@) && word_tok("NOT"@) == TokView::Kw(Kw::Not),
        is_word("EMPTY"@) && word_tok("EMPTY"@) == TokView::Kw(Kw::Empty),
        is_word("IN"@) && word_tok("IN"@) == TokView::Kw(Kw::In),
        is_word("LIKE"@) && word_tok("LIKE"@) == TokView::Kw(Kw::Like),
        is_word("BETWEEN"@) && word_tok("BETWEEN"@) == TokView::Kw(Kw::Between),
        is_word("AND"@) && word_tok("AND"@) == TokView::Ident("AND"@),
{
    lemma_keywords();
    reveal_strlit("TRUE");
    reveal_strlit("FALSE");
    reveal_strlit("NULL");
    reveal_strlit("IS");
    reveal_strlit("NOT");
    reveal_strlit("EMPTY");
    reveal_strlit("IN");
    reveal_strlit("LIKE");
    reveal_strlit("BETWEEN");
    reveal_strlit("AND");
    assert(text::upper("TRUE"@) =~= "TRUE"@);
    assert(text::upper("FALSE"@) =~= "FALSE"@);
    assert(text::upper("NULL"@) =~= "NULL"@);
    assert(text::upper("IS"@) =~= "IS"@);
    assert(text::upper("NOT"@) =~= "NOT"@);
    assert(text::upper("EMPTY"@) =~= "EMPTY"@);
    assert(text::upper("IN"@) =~= "IN"@);
    assert(text::upper("LIKE"@) =~= "LIKE"@);
    assert(text::upper("BETWEEN"@) =~= "BETWEEN"@);
    assert(text::upper("AND"@) =~= "AND"@);
}

/// The words that a job is written with.
pub(crate) proof fn lemma_job_words()
    ensures
        is_word("WORK"@) && word_tok("WORK"@) == TokView::Kw(Kw::Work),
        is_word("FROM"@) && word_tok("FROM"@) == TokView::Kw(Kw::From),
        is_word("WHERE"@) && word_tok("WHERE"@) == TokView::Kw(Kw::Where),
        is_word("INTO"@) && word_tok("INTO"@) == TokView::Kw(Kw::Into),
        is_word("ADD"@) && word_tok("ADD"@) == TokView::Kw(Kw::Add),
        is_word("SOURCE"@) && word_tok("SOURCE"@) == TokView::Kw(Kw::Source),
        is_word("TARGET"@) && word_tok("TARGET"@) == TokView::Kw(Kw::Target),
{
    lemma_keywords();
    reveal_strlit("WORK");
    reveal_strlit("FROM");
    reveal_strlit("WHERE");
    reveal_strlit("INTO");
    reveal_strlit("ADD");
    reveal_strlit("SOURCE");
    reveal_strlit("TARGET");
    assert(text::upper("WORK"@) =~= "WORK"@);
    assert(text::upper("FROM"@) =~= "FROM"@);
    assert(text::upper("WHERE"@) =~= "WHERE"@);
    assert(text::upper("INTO"@) =~= "INTO"@);
    assert(text::upper("ADD"@) =~= "ADD"@);
    assert(text::upper("SOURCE"@) =~= "SOURCE"@);
    assert(text::upper("TARGET"@) =~= "TARGET"@);
}

/// The name of a generator without `(Text)`.
pub open spec fn gen_name(k: GenKind) -> Seq<char> {
    match k {
        GenKind::Guid => "GUID"@,
        GenKind::GuidText => "GUID"@,
        GenKind::Ulid => "ULID"@,
        GenKind::Date => "Date"@,
        GenKind::DateText => "Date"@,
        GenKind::DateTime => "DateTime"@,
        GenKind::DateTimeText => "DateTime"@,
        GenKind::DateTimeOffset => "DateTimeOffset"@,
        GenKind::DateTimeOffsetText => "DateTimeOffset"@,
        GenKind::Sha256 => "SHA256"@,
        GenKind::Sha512 => "SHA512"@,
        GenKind::Md5 => "MD5"@,
    }
}

pub open spec fn gives_text(k: GenKind) -> bool {
    k == GenKind::GuidText || k == GenKind::DateText || k == GenKind::DateTimeText || k
        == GenKind::DateTimeOffsetText
}

#[verifier::rlimit(40)]
pub(crate) proof fn lemma_gen_word(k: GenKind)
    ensures
        is_word(gen_name(k)),
        word_tok(gen_name(k)) == TokView::Ident(gen_name(k)),
        gen_of(text::upper(gen_name(k)), gives_text(k)) == Some(k),
        gen_label(k) == gen_name(k) + (if gives_text(k) {
            "(Text)"@
        } else {
            seq![]
        }),
{
    lemma_keywords();
    reveal_strlit("GUID");
    reveal_strlit("ULID");
    reveal_strlit("Date");
    reveal_strlit("DateTime");
    reveal_strlit("DateTimeOffset");
    reveal_strlit("SHA256");
    reveal_strlit("SHA512");
    reveal_strlit("MD5");
    reveal_strlit("DATE");
    reveal_strlit("DATETIME");
    reveal_strlit("DATETIMEOFFSET");
    reveal_strlit("(Text)");
    reveal_strlit("GUID(Text)");
    reveal_strlit("Date(Text)");
    reveal_strlit("DateTime(Text)");
    reveal_strlit("DateTimeOffset(Text)");
    assert("GUID"@[0] == 'G' && "ULID"@[0] == 'U' && "DATE"@[0] == 'D');
    assert("SHA256"@[3] == '2' && "SHA512"@[3] == '5');
    let n = gen_name(k);
    match k {
        GenKind::Guid | GenKind::GuidText => {
            assert(text::upper(n) =~= "GUID"@);
        },
        GenKind::Ulid => {
            assert(text::upper(n) =~= "ULID"@);
        },
        GenKind::Date | GenKind::DateText => {
            assert(text::upper(n) =~= "DATE"@);
        },
        GenKind::DateTime | GenKind::DateTimeText => {
            assert(text::upper(n) =~= "DATETIME"@);
        },
        GenKind::DateTimeOffset | GenKind::DateTimeOffsetText => {
            assert(text::upper(n) =~= "DATETIMEOFFSET"@);
        },
        GenKind::Sha256 => {
            assert(text::upper(n) =~= "SHA256"@);
        },
        GenKind::Sha512 => {
            assert(text::upper(n) =~= "SHA512"@);
        },
        GenKind::Md5 => {
            assert(text::upper(n) =~= "MD5"@);
        },
    }
    assert(gen_label(k) =~= n + (if gives_text(k) {
        "(Text)"@
    } else {
        seq![]
    }));
}

/// `Gen` and `Text` are names.
pub(crate) proof fn lemma_gen_words()
    ensures
        is_word("Gen"@) && word_tok("Gen"@) == TokView::Ident("Gen"@),
        is_word("Text"@) && word_tok("Text"@) == TokView::Ident("Text"@),
        text::same_ignoring_case("Gen"@, "gen"@),
        text::same_ignoring_case("Text"@, "text"@),
        "Gen."@ == "Gen"@ + seq!['.'],
        "(Text)"@ == seq!['('] + "Text"@ + seq![')'],
{
    lemma_keywords();
    reveal_strlit("Gen");
    reveal_strlit("Gen.");
    reveal_strlit("gen");
    reveal_strlit("Text");
    reveal_strlit("text");
    reveal_strlit("(Text)");
    assert(text::upper("Gen"@).len() == 3 && text::upper("Gen"@)[0] == 'G');
    assert(text::upper("Text"@)[0] == 'T' && text::upper("Text"@)[1] == 'E');
    assert(text::ascii_lower("Gen"@) =~= text::ascii_lower("gen"@));
    assert(text::ascii_lower("Text"@) =~= text::ascii_lower("text"@));
    assert("Gen."@ =~= "Gen"@ + seq!['.']);
    assert("(Text)"@ =~= seq!['('] + "Text"@ + seq![')']);
}

/// An operand that is written without quotes: not a fixed text, not a template.
/// A column is named by an alias of the scope, a number with a fraction by a
/// text that is read as that number.
pub open spec fn value_ok(e: ExprView, env: Env) -> bool {
    match e {
        ExprView::Col(r) => {
            &&& is_word(r.alias)
            &&& kw_of(text::upper(r.alias)) is None
            &&& !text::same_ignoring_case(r.alias, "gen"@)
            &&& alias_named(env.scope.bindings, text::lower(r.alias)) == Some(r.alias)
            &&& is_bracketed(r.column)
        },
        ExprView::Float(v) => is_number(v.text) && v.text.contains('.') && (env.rd)(v.text) == Some(
            v,
        ),
        ExprView::Text(_) => false,
        ExprView::Concat(_) => false,
        _ => true,
    }
}

/// A part of a template: a text that is not empty, or an operand whose column
/// name has no quote and no closing brace.
pub open spec fn part_ok(e: ExprView, env: Env) -> bool {
    match e {
        ExprView::Text(t) => t.len() > 0 && !t.contains('\n'),
        ExprView::Col(r) => value_ok(e, env) && !r.column.contains('\'') && !r.column.contains('}'),
        _ => value_ok(e, env),
    }
}

/// An expression as scripts can hold it: a fixed text is on one line; a template
/// has an operand, and no two texts stand side by side in it.
pub open spec fn expr_ok(e: ExprView, env: Env) -> bool {
    match e {
        ExprView::Text(t) => !t.contains('\n'),
        ExprView::Concat(v) => {
            &&& exists|i: int| 0 <= i < v.len() && !(#[trigger] v[i] is Text)
            &&& forall|i: int| 0 <= i < v.len() ==> part_ok(#[trigger] v[i], env)
            &&& forall|i: int, j: int|
                0 <= i < v.len() && j == i + 1 && j < v.len() ==> !(#[trigger] v[i] is Text
                    && #[trigger] v[j] is Text)
        },
        _ => value_ok(e, env),
    }
}

/// The text with every brace doubled.
pub open spec fn double_braces(s: Seq<char>) -> Seq<char>
    decreases s.len(),
{
    if s.len() == 0 {
        seq![]
    } else if s[0] == '{' || s[0] == '}' {
        seq![s[0], s[0]] + double_braces(s.skip(1))
    } else {
        seq![s[0]] + double_braces(s.skip(1))
    }
}

/// One part of a template as it stands in the quoted text.
pub open spec fn part_body(e: ExprView) -> Seq<char> {
    match e {
        ExprView::Text(t) => double_braces(t),
        other => seq!['{'] + expr_dsl(other) + seq!['}'],
    }
}

/// The content of the quoted text that a template is written as.
pub open spec fn template_body(v: Seq<ExprView>) -> Seq<char>
    decreases v.len(),
{
    if v.len() == 0 {
        seq![]
    } else {
        template_body(v.drop_last()) + part_body(v.last())
    }
}

/// The tokens of an expression in script text.
pub open spec fn expr_toks(e: ExprView) -> Seq<TokView> {
    match e {
        ExprView::Col(r) => seq![
            TokView::Ident(r.alias),
            TokView::Sym(Sym::Dot),
            TokView::Ident(r.column),
        ],
        ExprView::Text(s) => seq![TokView::Str(double_braces(s))],
        ExprView::Int(v) => seq![TokView::Number(text::int_text(v as int))],
        ExprView::Float(v) => seq![TokView::Number(v.text)],
        ExprView::Bool(b) => seq![
            TokView::Kw(
                if b {
                    Kw::True
                } else {
                    Kw::False
                },
            ),
        ],
        ExprView::Null => seq![TokView::Kw(Kw::Null)],
        ExprView::Gen(k) => seq![
            TokView::Ident("Gen"@),
            TokView::Sym(Sym::Dot),
            TokView::Ident(gen_name(k)),
        ] + (if gives_text(k) {
            seq![TokView::Sym(Sym::LParen), TokView::Ident("Text"@), TokView::Sym(Sym::RParen)]
        } else {
            seq![]
        }),
        ExprView::Concat(v) => seq![TokView::Str(template_body(v))],
    }
}

proof fn lemma_reads_col(r: ColRefView, rest: Seq<char>, line: usize)
    requires
        is_word(r.alias),
        kw_of(text::upper(r.alias)) is None,
        is_bracketed(r.column),
    ensures
        reads_as(expr_dsl(ExprView::Col(r)), expr_toks(ExprView::Col(r)), rest, line),
{
    let name = seq!['['] + r.column + seq![']'];
    let dot = seq!['.'];
    lemma_reads_name(r.column, rest, line);
    assert((dot + (name + rest))[0] == '.');
    lemma_reads_sym(dot, Sym::Dot, name + rest, line);
    lemma_reads_both(
        dot,
        seq![TokView::Sym(Sym::Dot)],
        name,
        seq![TokView::Ident(r.column)],
        rest,
        line,
    );
    let tail = dot + name;
    assert((tail + rest)[0] == '.');
    lemma_reads_word(r.alias, tail + rest, line);
    let tail_toks = seq![TokView::Sym(Sym::Dot)] + seq![TokView::Ident(r.column)];
    lemma_reads_both(r.alias, seq![TokView::Ident(r.alias)], tail, tail_toks, rest, line);
    assert(expr_dsl(ExprView::Col(r)) =~= r.alias + tail);
    assert(expr_toks(ExprView::Col(r)) =~= seq![TokView::Ident(r.alias)] + tail_toks);
}

/// `(Text)`.
proof fn lemma_reads_text_mark(rest: Seq<char>, line: usize)
    ensures
        reads_as(
            "(Text)"@,
            seq![TokView::Sym(Sym::LParen), TokView::Ident("Text"@), TokView::Sym(Sym::RParen)],
            rest,
            line,
        ),
{
    lemma_gen_words();
    let open = seq!['('];
    let close = seq![')'];
    let word = "Text"@;
    assert((close + rest)[0] == ')');
    lemma_reads_sym(close, Sym::RParen, rest, line);
    lemma_reads_word(word, close + rest, line);
    lemma_reads_both(
        word,
        seq![TokView::Ident(word)],
        close,
        seq![TokView::Sym(Sym::RParen)],
        rest,
        line,
    );
    let tail = word + close;
    assert((open + (tail + rest))[0] == '(');
    lemma_reads_sym(open, Sym::LParen, tail + rest, line);
    let tail_toks = seq![TokView::Ident(word)] + seq![TokView::Sym(Sym::RParen)];
    lemma_reads_both(open, seq![TokView::Sym(Sym::LParen)], tail, tail_toks, rest, line);
    assert("(Text)"@ =~= open + tail);
    assert(seq![TokView::Sym(Sym::LParen)] + tail_toks =~= seq![
        TokView::Sym(Sym::LParen),
        TokView::Ident("Text"@),
        TokView::Sym(Sym::RParen),
    ]);
}

/// The tokens of a generator name behind `Gen.`.
spec fn label_toks(k: GenKind) -> Seq<TokView> {
    seq![TokView::Ident(gen_name(k))] + (if gives_text(k) {
        seq![TokView::Sym(Sym::LParen), TokView::Ident("Text"@), TokView::Sym(Sym::RParen)]
    } else {
        seq![]
    })
}

#[verifier::rlimit(40)]
proof fn lemma_reads_label(k: GenKind, rest: Seq<char>, line: usize)
    requires
        stops(rest),
    ensures
        reads_as(gen_label(k), label_toks(k), rest, line),
{
    lemma_gen_word(k);
    let name = gen_name(k);
    let mark = if gives_text(k) {
        "(Text)"@
    } else {
        seq![]
    };
    if gives_text(k) {
        lemma_reads_text_mark(rest, line);
        reveal_strlit("(Text)");
        assert((mark + rest)[0] == '(');
        lemma_reads_word(name, mark + rest, line);
        lemma_reads_both(
            name,
            seq![TokView::Ident(name)],
            mark,
            seq![TokView::Sym(Sym::LParen), TokView::Ident("Text"@), TokView::Sym(Sym::RParen)],
            rest,
            line,
        );
    } else {
        assert(name + mark =~= name);
        assert(label_toks(k) =~= seq![TokView::Ident(name)]);
        lemma_reads_word(name, rest, line);
    }
}

proof fn lemma_gen_parts(k: GenKind)
    ensures
        expr_dsl(ExprView::Gen(k)) == "Gen"@ + (seq!['.'] + gen_label(k)),
        expr_toks(ExprView::Gen(k)) == seq![TokView::Ident("Gen"@)] + (seq![TokView::Sym(Sym::Dot)]
            + label_toks(k)),
{
    reveal_strlit("Gen");
    reveal_strlit("Gen.");
    assert("Gen."@ =~= "Gen"@ + seq!['.']);
    assert(expr_dsl(ExprView::Gen(k)) =~= "Gen"@ + (seq!['.'] + gen_label(k)));
    assert(expr_toks(ExprView::Gen(k)) =~= seq![TokView::Ident("Gen"@)] + (seq![
        TokView::Sym(Sym::Dot),
    ] + label_toks(k)));
}

#[verifier::rlimit(40)]
proof fn lemma_reads_gen(k: GenKind, rest: Seq<char>, line: usize)
    requires
        stops(rest),
    ensures
        reads_as(expr_dsl(ExprView::Gen(k)), expr_toks(ExprView::Gen(k)), rest, line),
{
    let label = gen_label(k);
    let toks = label_toks(k);
    let dot = seq!['.'];
    let dot_tok = seq![TokView::Sym(Sym::Dot)];
    lemma_reads_label(k, rest, line);
    assert((dot + (label + rest))[0] == '.');
    lemma_reads_sym(dot, Sym::Dot, label + rest, line);
    lemma_reads_both(dot, dot_tok, label, toks, rest, line);
    let tail = dot + label;
    assert((tail + rest)[0] == '.');
    assert(is_word("Gen"@) && word_tok("Gen"@) == TokView::Ident("Gen"@)) by {
        lemma_gen_words();
    }
    lemma_reads_word("Gen"@, tail + rest, line);
    lemma_reads_both("Gen"@, seq![TokView::Ident("Gen"@)], tail, dot_tok + toks, rest, line);
    lemma_gen_parts(k);
}

/// An operand without quotes is read as its tokens.
pub(crate) proof fn lemma_reads_value(e: ExprView, env: Env, rest: Seq<char>, line: usize)
    requires
        value_ok(e, env),
        stops(rest),
    ensures
        reads_as(expr_dsl(e), expr_toks(e), rest, line),
{
    lemma_words();
    match e {
        ExprView::Col(r) => {
            lemma_reads_col(r, rest, line);
        },
        ExprView::Int(v) => {
            lemma_int_text(v);
            lemma_reads_number(text::int_text(v as int), rest, line);
        },
        ExprView::Float(v) => {
            lemma_reads_number(v.text, rest, line);
        },
        ExprView::Bool(b) => {
            if b {
                lemma_reads_word("TRUE"@, rest, line);
            } else {
                lemma_reads_word("FALSE"@, rest, line);
            }
        },
        ExprView::Null => {
            lemma_reads_word("NULL"@, rest, line);
        },
        ExprView::Gen(k) => {
            lemma_reads_gen(k, rest, line);
        },
        _ => {},
    }
}

} // verus!
