//! What each phrase of a script means: the tree that a run of tokens stands
//! for, and where the phrase ends.
use crate::double::Reading;
use crate::etl::script::ast::{
    gen_of, CmpOp, ColRefView, ComparisonView, CondView, ExprView, GenKind, IsEmptyView,
};
use crate::etl::script::clauses::{issue, IssueView};
use crate::etl::script::lexer::{
    lemma_lexeme, lex_spec, lexeme, Kw, Lexeme, Sym, TokView, TokenView,
};
use crate::etl::script::scope::{resolve, ScopeView};
use crate::text;
use vstd::prelude::*;

verus! {

/// A phrase and the place behind it, or what is wrong.
pub type Parsed<T> = Result<(T, nat), IssueView>;

/// What the meaning of a phrase depends on besides its tokens.
pub struct Env {
    pub scope: ScopeView,
    pub rd: Reading,
}

pub open spec fn tok_at(ts: Seq<TokenView>, p: nat) -> Option<TokView> {
    if p < ts.len() {
        Some(ts[p as int].tok)
    } else {
        None
    }
}

pub open spec fn is_sym(ts: Seq<TokenView>, p: nat, s: Sym) -> bool {
    tok_at(ts, p) == Some(TokView::Sym(s))
}

pub open spec fn is_kw(ts: Seq<TokenView>, p: nat, k: Kw) -> bool {
    tok_at(ts, p) == Some(TokView::Kw(k))
}

/// The place behind the token at `p`.
pub open spec fn after(ts: Seq<TokenView>, p: nat) -> nat {
    if p < ts.len() {
        p + 1
    } else {
        p
    }
}

/// The line to report at a place: that of its token, or of the last token.
pub open spec fn line_at(ts: Seq<TokenView>, p: nat) -> usize {
    if ts.len() == 0 {
        0
    } else if p < ts.len() {
        ts[p as int].line
    } else {
        ts[ts.len() - 1].line
    }
}

pub open spec fn expected(ts: Seq<TokenView>, p: nat, what: Seq<char>) -> IssueView {
    issue(line_at(ts, p), "預期 "@ + what)
}

pub open spec fn eat_sym(ts: Seq<TokenView>, p: nat, s: Sym, what: Seq<char>) -> Result<
    nat,
    IssueView,
> {
    if is_sym(ts, p, s) {
        Ok(p + 1)
    } else {
        Err(expected(ts, p, what))
    }
}

pub open spec fn eat_kw(ts: Seq<TokenView>, p: nat, k: Kw, what: Seq<char>) -> Result<
    nat,
    IssueView,
> {
    if is_kw(ts, p, k) {
        Ok(p + 1)
    } else {
        Err(expected(ts, p, what))
    }
}

/// A name and its line.
pub open spec fn ident(ts: Seq<TokenView>, p: nat, what: Seq<char>) -> Parsed<(Seq<char>, usize)> {
    match tok_at(ts, p) {
        Some(TokView::Ident(s)) => Ok(((s, line_at(ts, p)), p + 1)),
        _ => Err(expected(ts, p, what)),
    }
}

/// A quoted text.
pub open spec fn quoted_text(
    ts: Seq<TokenView>,
    p: nat,
    line: usize,
    message: Seq<char>,
) -> Parsed<Seq<char>> {
    match tok_at(ts, p) {
        Some(TokView::Str(s)) => Ok((s, p + 1)),
        _ => Err(issue(line, message)),
    }
}

/// Any number of `.name`.
pub open spec fn dotted(ts: Seq<TokenView>, p: nat, what: Seq<char>) -> Parsed<Seq<Seq<char>>>
    decreases ts.len() - p,
{
    if is_sym(ts, p, Sym::Dot) {
        match ident(ts, p + 1, what) {
            Ok(((s, _), q)) => match dotted(ts, q, what) {
                Ok((rest, r)) => Ok((seq![s] + rest, r)),
                Err(e) => Err(e),
            },
            Err(e) => Err(e),
        }
    } else {
        Ok((seq![], p))
    }
}

/// `name.name…`, with the line of the first name.
pub open spec fn raw_parts(ts: Seq<TokenView>, p: nat) -> Parsed<(Seq<Seq<char>>, usize)> {
    match ident(ts, p, "識別字"@) {
        Ok(((first, line), q)) => match dotted(ts, q, "`.` 之後的識別字"@) {
            Ok((rest, r)) => Ok(((seq![first] + rest, line), r)),
            Err(e) => Err(e),
        },
        Err(e) => Err(e),
    }
}

pub open spec fn is_ident_like(ts: Seq<TokenView>, p: nat, word: Seq<char>) -> bool {
    tok_at(ts, p) matches Some(TokView::Ident(s)) && text::same_ignoring_case(s, word)
}

/// The rest of `Gen.XXX` or `Gen.XXX(Text)` behind its dotted name.
pub open spec fn generator(
    ts: Seq<TokenView>,
    p: nat,
    parts: Seq<Seq<char>>,
    line: usize,
) -> Parsed<ExprView> {
    let text_variant = is_sym(ts, p, Sym::LParen);
    if parts.len() != 2 {
        Err(issue(line, "產生器格式為 Gen.XXX 或 Gen.XXX(Text)"@))
    } else if text_variant && !is_ident_like(ts, p + 1, "text"@) {
        Err(issue(line, "產生器參數僅支援 (Text)"@))
    } else if text_variant && !is_sym(ts, p + 2, Sym::RParen) {
        Err(issue(line, "產生器缺少 `)`"@))
    } else {
        match gen_of(text::upper(parts[1]), text_variant) {
            Some(k) => Ok(
                (
                    ExprView::Gen(k),
                    if text_variant {
                        p + 3
                    } else {
                        p
                    },
                ),
            ),
            None => Err(
                issue(
                    line,
                    "未知的產生器 Gen."@ + parts[1] + (if text_variant {
                        "(Text)"@
                    } else {
                        ""@
                    }) + "（支援："@ + GenKind::ALL_LABELS@ + "）"@,
                ),
            ),
        }
    }
}

/// The number that a number token stands for.
pub open spec fn number(n: Seq<char>, line: usize, rd: Reading) -> Result<ExprView, IssueView> {
    let bad = issue(line, "無效的數字: "@ + n);
    if n.contains('.') {
        match rd(n) {
            Some(v) => Ok(ExprView::Float(v)),
            None => Err(bad),
        }
    } else {
        match text::read_i64(n) {
            Some(v) => Ok(ExprView::Int(v)),
            None => Err(bad),
        }
    }
}

/// A part of a text template.
pub enum Part {
    Fixed(Seq<char>),
    Hole(ExprView),
}

/// The parts with some text in front.
pub open spec fn with_text(t: Seq<char>, parts: Seq<Part>) -> Seq<Part> {
    if t.len() == 0 {
        parts
    } else if parts.len() > 0 && parts[0] is Fixed {
        seq![Part::Fixed(t + parts[0]->Fixed_0)] + parts.skip(1)
    } else {
        seq![Part::Fixed(t)] + parts
    }
}

pub open spec fn part_expr(p: Part) -> ExprView {
    match p {
        Part::Fixed(t) => ExprView::Text(t),
        Part::Hole(e) => e,
    }
}

pub open spec fn part_exprs(v: Seq<Part>) -> Seq<ExprView> {
    Seq::new(v.len(), |i: int| part_expr(v[i]))
}

/// Plain text where the template has no hole, else the parts in order.
pub open spec fn template_expr(v: Seq<Part>) -> ExprView {
    if v.len() == 0 {
        ExprView::Text(seq![])
    } else if v.len() == 1 && v[0] is Fixed {
        ExprView::Text(v[0]->Fixed_0)
    } else {
        ExprView::Concat(part_exprs(v))
    }
}

/// How many characters come before the first closing brace.
pub open spec fn brace_len(s: Seq<char>) -> nat
    decreases s.len(),
{
    if s.len() > 0 && s[0] != '}' {
        1 + brace_len(s.skip(1))
    } else {
        0
    }
}

/// The operands of a chain, one level deep.
pub open spec fn flat(e: ExprView) -> Seq<ExprView> {
    match e {
        ExprView::Concat(v) => v,
        other => seq![other],
    }
}

/// One more than the length of the longest quoted text among the tokens.
pub open spec fn longest_text(ts: Seq<TokenView>) -> nat
    decreases ts.len(),
{
    if ts.len() == 0 {
        0
    } else {
        let rest = longest_text(ts.drop_last());
        match ts.last().tok {
            TokView::Str(s) => if s.len() + 1 > rest {
                s.len() + 1
            } else {
                rest
            },
            _ => rest,
        }
    }
}

pub proof fn lemma_longest_text(ts: Seq<TokenView>, i: int)
    requires
        0 <= i < ts.len(),
    ensures
        ts[i].tok matches TokView::Str(s) ==> s.len() + 1 <= longest_text(ts),
    decreases ts.len(),
{
    if i < ts.len() - 1 {
        lemma_longest_text(ts.drop_last(), i);
    }
}

proof fn lemma_longest_cons(t: TokenView, ts: Seq<TokenView>, n: nat)
    requires
        longest_text(ts) <= n,
        t.tok matches TokView::Str(s) ==> s.len() + 1 <= n,
    ensures
        longest_text(seq![t] + ts) <= n,
    decreases ts.len(),
{
    let all = seq![t] + ts;
    if ts.len() == 0 {
        assert(all.drop_last() =~= ts);
    } else {
        lemma_longest_cons(t, ts.drop_last(), n);
        assert(all.drop_last() =~= seq![t] + ts.drop_last());
    }
}

/// The quoted texts of a token list are shorter than the text it was read from.
pub proof fn lemma_tokens_shorter(cs: Seq<char>, line: usize)
    ensures
        lex_spec(cs, line) matches Ok(ts) ==> longest_text(ts) <= cs.len(),
    decreases cs.len(),
{
    if cs.len() > 0 {
        lemma_lexeme(cs, line);
        match lexeme(cs, line) {
            Lexeme::Gap { n, line: l } => {
                lemma_tokens_shorter(cs.skip(n as int), l);
            },
            Lexeme::Emit { tok, n } => {
                lemma_tokens_shorter(cs.skip(n as int), line);
                if let Ok(rest) = lex_spec(cs.skip(n as int), line) {
                    lemma_longest_cons(TokenView { tok, line }, rest, cs.len());
                }
            },
            Lexeme::Fail(_) => {},
        }
    }
}

pub proof fn lemma_trim_shorter(s: Seq<char>)
    ensures
        text::trim_start(s).len() <= s.len(),
        text::trim_end(s).len() <= s.len(),
        text::trim(s).len() <= s.len(),
    decreases s.len(),
{
    lemma_trim_start_shorter(s);
    lemma_trim_end_shorter(s);
    lemma_trim_end_shorter(text::trim_start(s));
}

proof fn lemma_trim_start_shorter(s: Seq<char>)
    ensures
        text::trim_start(s).len() <= s.len(),
    decreases s.len(),
{
    if s.len() > 0 && text::is_space(s[0]) {
        lemma_trim_start_shorter(s.skip(1));
    }
}

proof fn lemma_trim_end_shorter(s: Seq<char>)
    ensures
        text::trim_end(s).len() <= s.len(),
    decreases s.len(),
{
    if s.len() > 0 && text::is_space(s.last()) {
        lemma_trim_end_shorter(s.drop_last());
    }
}

pub proof fn lemma_brace_len(s: Seq<char>)
    ensures
        brace_len(s) <= s.len(),
        forall|i: int| 0 <= i < brace_len(s) ==> s[i] != '}',
        brace_len(s) < s.len() ==> s[brace_len(s) as int] == '}',
    decreases s.len(),
{
    if s.len() > 0 && s[0] != '}' {
        lemma_brace_len(s.skip(1));
        assert forall|i: int| 0 <= i < brace_len(s) implies s[i] != '}' by {
            if i > 0 {
                assert(s[i] == s.skip(1)[i - 1]);
            }
        }
    }
}

/// Stands where a phrase would end before it begins, which no phrase does.
pub open spec fn stuck<T>() -> Parsed<T> {
    Err(issue(0, seq![]))
}

pub open spec fn prefixed(t: Seq<char>, r: Result<Seq<Part>, IssueView>) -> Result<
    Seq<Part>,
    IssueView,
> {
    match r {
        Ok(v) => Ok(with_text(t, v)),
        Err(e) => Err(e),
    }
}

/// The parts of a template: `{…}` is a hole, `{{` and `}}` stand for one brace.
pub open spec fn template_parts(s: Seq<char>, line: usize, env: Env) -> Result<
    Seq<Part>,
    IssueView,
>
    decreases s.len() + 1, 2nat, 0int, 0nat,
{
    if s.len() == 0 {
        Ok(seq![])
    } else if s[0] == '{' && s.len() > 1 && s[1] == '{' {
        prefixed(seq!['{'], template_parts(s.skip(2), line, env))
    } else if s[0] == '}' && s.len() > 1 && s[1] == '}' {
        prefixed(seq!['}'], template_parts(s.skip(2), line, env))
    } else if s[0] == '{' {
        proof {
            lemma_brace_len(s.skip(1));
        }
        let n = brace_len(s.skip(1));
        if n + 1 >= s.len() {
            Err(issue(line, "字串插值缺少結尾 }（如需字面大括號請用 {{ }}）"@))
        } else {
            match hole(s.subrange(1, n as int + 1), line, env) {
                Ok(e) => match template_parts(s.skip(n as int + 2), line, env) {
                    Ok(v) => Ok(seq![Part::Hole(e)] + v),
                    Err(x) => Err(x),
                },
                Err(x) => Err(x),
            }
        }
    } else if s[0] == '}' {
        Err(issue(line, "字串中出現未配對的 }（如需字面大括號請用 {{ }}）"@))
    } else {
        prefixed(seq![s[0]], template_parts(s.skip(1), line, env))
    }
}

/// The expression of a quoted text.
pub open spec fn template(s: Seq<char>, line: usize, env: Env) -> Result<ExprView, IssueView>
    decreases s.len() + 1, 2nat, 0int, 1nat,
{
    match template_parts(s, line, env) {
        Ok(v) => Ok(template_expr(v)),
        Err(e) => Err(e),
    }
}

/// The expression in a hole of a template that stands on `line`.
pub open spec fn hole(inner: Seq<char>, line: usize, env: Env) -> Result<ExprView, IssueView>
    decreases inner.len() + 1, 2nat, 0int, 0nat,
{
    proof {
        lemma_trim_shorter(inner);
        lemma_tokens_shorter(text::trim(inner), line);
    }
    let t = text::trim(inner);
    if t.len() == 0 {
        Err(issue(line, "字串插值 {} 內不可為空"@))
    } else {
        match lex_spec(t, line) {
            Err(e) => Err(e),
            Ok(ts) => match expr(ts, 0, env) {
                Err(e) => Err(e),
                Ok((e, q)) => if q < ts.len() {
                    Err(issue(line, "字串插值 {"@ + t + "} 含無法解析的內容"@))
                } else {
                    Ok(e)
                },
            },
        }
    }
}

/// One operand.
pub open spec fn term(ts: Seq<TokenView>, p: nat, env: Env) -> Parsed<ExprView>
    decreases longest_text(ts), 3nat, ts.len() - p, 0nat,
{
    match tok_at(ts, p) {
        Some(TokView::Str(s)) => {
            proof {
                lemma_longest_text(ts, p as int);
            }
            match template(s, line_at(ts, p), env) {
                Ok(e) => Ok((e, p + 1)),
                Err(e) => Err(e),
            }
        },
        Some(TokView::Number(n)) => match number(n, line_at(ts, p), env.rd) {
            Ok(e) => Ok((e, p + 1)),
            Err(e) => Err(e),
        },
        Some(TokView::Kw(Kw::Null)) => Ok((ExprView::Null, p + 1)),
        Some(TokView::Kw(Kw::True)) => Ok((ExprView::Bool(true), p + 1)),
        Some(TokView::Kw(Kw::False)) => Ok((ExprView::Bool(false), p + 1)),
        Some(TokView::Ident(_)) => match raw_parts(ts, p) {
            Err(e) => Err(e),
            Ok(((parts, line), q)) => if parts.len() >= 2 && text::same_ignoring_case(
                parts[0],
                "gen"@,
            ) {
                generator(ts, q, parts, line)
            } else {
                match resolve(env.scope, parts, line) {
                    Ok(c) => Ok((ExprView::Col(c), q)),
                    Err(e) => Err(e),
                }
            },
        },
        _ => Err(
            issue(line_at(ts, p), "預期欄位參照或字面值（'文字'、數字、NULL）"@),
        ),
    }
}

/// Any number of `+ operand`, chains among the operands taken apart.
pub open spec fn plus_terms(ts: Seq<TokenView>, p: nat, env: Env) -> Parsed<Seq<ExprView>>
    decreases longest_text(ts), 3nat, ts.len() - p, 1nat,
{
    if !is_sym(ts, p, Sym::Plus) {
        Ok((seq![], p))
    } else {
        match term(ts, p + 1, env) {
            Err(e) => Err(e),
            Ok((t, q)) => if !(p < q <= ts.len()) {
                stuck()
            } else {
                match plus_terms(ts, q, env) {
                    Err(e) => Err(e),
                    Ok((rest, r)) => Ok((flat(t) + rest, r)),
                }
            },
        }
    }
}

/// An expression: one operand, or a chain of operands.
pub open spec fn expr(ts: Seq<TokenView>, p: nat, env: Env) -> Parsed<ExprView>
    decreases longest_text(ts), 3nat, ts.len() - p, 2nat,
{
    match term(ts, p, env) {
        Err(e) => Err(e),
        Ok((first, q)) => if !is_sym(ts, q, Sym::Plus) {
            Ok((first, q))
        } else if !(p < q <= ts.len()) {
            stuck()
        } else {
            match plus_terms(ts, q, env) {
                Err(e) => Err(e),
                Ok((rest, r)) => Ok((ExprView::Concat(flat(first) + rest), r)),
            }
        },
    }
}

proof fn lemma_dotted_progress(ts: Seq<TokenView>, p: nat, what: Seq<char>)
    requires
        p <= ts.len(),
    ensures
        dotted(ts, p, what) matches Ok((_, q)) ==> p <= q <= ts.len(),
    decreases ts.len() - p,
{
    if is_sym(ts, p, Sym::Dot) {
        if let Ok(((s, l), q)) = ident(ts, p + 1, what) {
            lemma_dotted_progress(ts, q, what);
        }
    }
}

/// An operand ends behind where it begins.
pub proof fn lemma_term_progress(ts: Seq<TokenView>, p: nat, env: Env)
    requires
        p <= ts.len(),
    ensures
        term(ts, p, env) matches Ok((_, q)) ==> p < q <= ts.len(),
{
    if let Ok(((first, line), q)) = ident(ts, p, "識別字"@) {
        lemma_dotted_progress(ts, q, "`.` 之後的識別字"@);
    }
}

proof fn lemma_plus_progress(ts: Seq<TokenView>, p: nat, env: Env)
    requires
        p <= ts.len(),
    ensures
        plus_terms(ts, p, env) matches Ok((_, q)) ==> p <= q <= ts.len(),
    decreases ts.len() - p,
{
    if is_sym(ts, p, Sym::Plus) {
        lemma_term_progress(ts, p + 1, env);
        if let Ok((t, q)) = term(ts, p + 1, env) {
            lemma_plus_progress(ts, q, env);
        }
    }
}

/// An expression ends behind where it begins.
pub proof fn lemma_expr_progress(ts: Seq<TokenView>, p: nat, env: Env)
    requires
        p <= ts.len(),
    ensures
        expr(ts, p, env) matches Ok((_, q)) ==> p < q <= ts.len(),
{
    lemma_term_progress(ts, p, env);
    if let Ok((t, q)) = term(ts, p, env) {
        lemma_plus_progress(ts, q, env);
    }
}

/// Any number of `, expression`.
pub open spec fn comma_exprs(ts: Seq<TokenView>, p: nat, env: Env) -> Parsed<Seq<ExprView>>
    decreases ts.len() - p,
{
    if !is_sym(ts, p, Sym::Comma) {
        Ok((seq![], p))
    } else {
        proof {
            lemma_expr_progress(ts, p + 1, env);
        }
        match expr(ts, p + 1, env) {
            Err(e) => Err(e),
            Ok((x, q)) => match comma_exprs(ts, q, env) {
                Err(e) => Err(e),
                Ok((rest, r)) => Ok((seq![x] + rest, r)),
            },
        }
    }
}

pub open spec fn compare_op(t: Option<TokView>) -> Option<CmpOp> {
    match t {
        Some(TokView::Sym(Sym::Eq)) => Some(CmpOp::Eq),
        Some(TokView::Sym(Sym::Ne)) => Some(CmpOp::Ne),
        Some(TokView::Sym(Sym::Gt)) => Some(CmpOp::Gt),
        Some(TokView::Sym(Sym::Lt)) => Some(CmpOp::Lt),
        Some(TokView::Sym(Sym::Ge)) => Some(CmpOp::Ge),
        Some(TokView::Sym(Sym::Le)) => Some(CmpOp::Le),
        _ => None,
    }
}

/// The rest of `<left> IS [NOT] EMPTY` behind IS.
pub open spec fn empty_test(
    ts: Seq<TokenView>,
    p: nat,
    left: ExprView,
    line: usize,
) -> Parsed<CondView> {
    let negated = is_kw(ts, p, Kw::Not);
    let q = if negated {
        p + 1
    } else {
        p
    };
    match eat_kw(ts, q, Kw::Empty, "EMPTY"@) {
        Ok(r) => Ok((CondView::IsEmpty(IsEmptyView { expr: left, negated, line }), r)),
        Err(e) => Err(e),
    }
}

/// The rest of `<left> [NOT] IN (<list>)` behind IN.
pub open spec fn in_test(
    ts: Seq<TokenView>,
    p: nat,
    env: Env,
    left: ExprView,
    negated: bool,
    line: usize,
) -> Parsed<CondView> {
    match eat_sym(ts, p, Sym::LParen, "IN 之後的 `(`"@) {
        Err(e) => Err(e),
        Ok(q) => match expr(ts, q, env) {
            Err(e) => Err(e),
            Ok((first, r)) => match comma_exprs(ts, r, env) {
                Err(e) => Err(e),
                Ok((rest, s)) => match eat_sym(ts, s, Sym::RParen, "IN 清單結尾 `)`"@) {
                    Err(e) => Err(e),
                    Ok(t) => Ok(
                        (CondView::In { expr: left, list: seq![first] + rest, negated, line }, t),
                    ),
                },
            },
        },
    }
}

/// The rest of `<left> [NOT] BETWEEN <low> AND <high>` behind BETWEEN.
pub open spec fn between_test(
    ts: Seq<TokenView>,
    p: nat,
    env: Env,
    left: ExprView,
    negated: bool,
    line: usize,
) -> Parsed<CondView> {
    match expr(ts, p, env) {
        Err(e) => Err(e),
        Ok((low, q)) => if !is_ident_like(ts, q, "AND"@) {
            Err(issue(line, "BETWEEN 需以 AND 分隔上下界（如 BETWEEN 1 AND 10）"@))
        } else {
            match expr(ts, q + 1, env) {
                Err(e) => Err(e),
                Ok((high, r)) => Ok((CondView::Between { expr: left, low, high, negated, line }, r)),
            }
        },
    }
}

/// The rest of a test behind its first operand.
pub open spec fn test_rest(
    ts: Seq<TokenView>,
    p: nat,
    env: Env,
    left: ExprView,
    line: usize,
) -> Parsed<CondView> {
    if is_kw(ts, p, Kw::Is) {
        empty_test(ts, p + 1, left, line)
    } else {
        let negated = is_kw(ts, p, Kw::Not);
        let q = if negated {
            p + 1
        } else {
            p
        };
        if is_kw(ts, q, Kw::In) {
            in_test(ts, q + 1, env, left, negated, line)
        } else if is_kw(ts, q, Kw::Like) {
            match expr(ts, q + 1, env) {
                Err(e) => Err(e),
                Ok((pattern, r)) => Ok((CondView::Like { expr: left, pattern, negated, line }, r)),
            }
        } else if is_kw(ts, q, Kw::Between) {
            between_test(ts, q + 1, env, left, negated, line)
        } else if negated {
            Err(issue(line, "NOT 之後預期 IN / LIKE / BETWEEN"@))
        } else {
            match compare_op(tok_at(ts, q)) {
                None => Err(
                    issue(
                        line,
                        "預期比較運算子（== != > < >= <=）、IS [NOT] EMPTY 或 [NOT] IN/LIKE/BETWEEN"@,
                    ),
                ),
                Some(op) => match expr(ts, q + 1, env) {
                    Err(e) => Err(e),
                    Ok((right, r)) => Ok(
                        (CondView::Compare(ComparisonView { left, op, right, line }), r),
                    ),
                },
            }
        }
    }
}

/// A single test.
pub open spec fn simple_test(ts: Seq<TokenView>, p: nat, env: Env) -> Parsed<CondView> {
    match expr(ts, p, env) {
        Err(e) => Err(e),
        Ok((left, q)) => test_rest(ts, q, env, left, line_at(ts, p)),
    }
}

/// A group in parentheses, or a single test.
pub open spec fn primary(ts: Seq<TokenView>, p: nat, env: Env) -> Parsed<CondView>
    decreases ts.len() - p, 0nat,
{
    if is_sym(ts, p, Sym::LParen) {
        match or_cond(ts, p + 1, env) {
            Err(e) => Err(e),
            Ok((c, q)) => match eat_sym(ts, q, Sym::RParen, "群組條件結尾 `)`"@) {
                Err(e) => Err(e),
                Ok(r) => Ok((c, r)),
            },
        }
    } else {
        simple_test(ts, p, env)
    }
}

/// Any number of `!` before a group or a test.
pub open spec fn not_cond(ts: Seq<TokenView>, p: nat, env: Env) -> Parsed<CondView>
    decreases ts.len() - p, 1nat,
{
    if is_sym(ts, p, Sym::Bang) {
        match not_cond(ts, p + 1, env) {
            Err(e) => Err(e),
            Ok((c, q)) => Ok((CondView::Not(Box::new(c)), q)),
        }
    } else {
        primary(ts, p, env)
    }
}

/// Any number of `&& condition`.
pub open spec fn and_terms(ts: Seq<TokenView>, p: nat, env: Env) -> Parsed<Seq<CondView>>
    decreases ts.len() - p, 2nat,
{
    if !is_sym(ts, p, Sym::AndAnd) {
        Ok((seq![], p))
    } else {
        match not_cond(ts, p + 1, env) {
            Err(e) => Err(e),
            Ok((c, q)) => if !(p < q <= ts.len()) {
                stuck()
            } else {
                match and_terms(ts, q, env) {
                    Err(e) => Err(e),
                    Ok((rest, r)) => Ok((seq![c] + rest, r)),
                }
            },
        }
    }
}

/// Conditions joined by `&&`.
pub open spec fn and_cond(ts: Seq<TokenView>, p: nat, env: Env) -> Parsed<CondView>
    decreases ts.len() - p, 3nat,
{
    match not_cond(ts, p, env) {
        Err(e) => Err(e),
        Ok((first, q)) => if !(p < q <= ts.len()) {
            stuck()
        } else {
            match and_terms(ts, q, env) {
                Err(e) => Err(e),
                Ok((rest, r)) => Ok(
                    (
                        if rest.len() == 0 {
                            first
                        } else {
                            CondView::And(seq![first] + rest)
                        },
                        r,
                    ),
                ),
            }
        },
    }
}

/// Any number of `|| condition`.
pub open spec fn or_terms(ts: Seq<TokenView>, p: nat, env: Env) -> Parsed<Seq<CondView>>
    decreases ts.len() - p, 4nat,
{
    if !is_sym(ts, p, Sym::OrOr) {
        Ok((seq![], p))
    } else {
        match and_cond(ts, p + 1, env) {
            Err(e) => Err(e),
            Ok((c, q)) => if !(p < q <= ts.len()) {
                stuck()
            } else {
                match or_terms(ts, q, env) {
                    Err(e) => Err(e),
                    Ok((rest, r)) => Ok((seq![c] + rest, r)),
                }
            },
        }
    }
}

/// A condition.
pub open spec fn or_cond(ts: Seq<TokenView>, p: nat, env: Env) -> Parsed<CondView>
    decreases ts.len() - p, 5nat,
{
    match and_cond(ts, p, env) {
        Err(e) => Err(e),
        Ok((first, q)) => if !(p < q <= ts.len()) {
            stuck()
        } else {
            match or_terms(ts, q, env) {
                Err(e) => Err(e),
                Ok((rest, r)) => Ok(
                    (
                        if rest.len() == 0 {
                            first
                        } else {
                            CondView::Or(seq![first] + rest)
                        },
                        r,
                    ),
                ),
            }
        },
    }
}

/// A condition in parentheses.
pub open spec fn paren_cond(ts: Seq<TokenView>, p: nat, env: Env) -> Parsed<CondView> {
    match eat_sym(ts, p, Sym::LParen, "`(`"@) {
        Err(e) => Err(e),
        Ok(q) => match or_cond(ts, q, env) {
            Err(e) => Err(e),
            Ok((c, r)) => match eat_sym(ts, r, Sym::RParen, "`)`"@) {
                Err(e) => Err(e),
                Ok(s) => Ok((c, s)),
            },
        },
    }
}

/// Each comparison sign stands for its operator, and nothing else compares.
pub proof fn law_signs_stand_for_their_operator(s: Sym)
    ensures
        ({
            let op = compare_op(Some(TokView::Sym(s)));
            &&& op == Some(CmpOp::Eq) <==> s == Sym::Eq
            &&& op == Some(CmpOp::Ne) <==> s == Sym::Ne
            &&& op == Some(CmpOp::Gt) <==> s == Sym::Gt
            &&& op == Some(CmpOp::Lt) <==> s == Sym::Lt
            &&& op == Some(CmpOp::Ge) <==> s == Sym::Ge
            &&& op == Some(CmpOp::Le) <==> s == Sym::Le
        }),
        compare_op(None) is None,
{
}

/// A quoted text without braces is that text.
pub proof fn law_texts_without_braces_are_plain(s: Seq<char>, line: usize, env: Env)
    requires
        !s.contains('{'),
        !s.contains('}'),
    ensures
        template(s, line, env) == Ok::<ExprView, IssueView>(ExprView::Text(s)),
{
    lemma_plain_parts(s, line, env);
    if s.len() == 0 {
        assert(s =~= seq![]);
    }
}

proof fn lemma_plain_parts(s: Seq<char>, line: usize, env: Env)
    requires
        !s.contains('{'),
        !s.contains('}'),
    ensures
        template_parts(s, line, env) == Ok::<Seq<Part>, IssueView>(
            if s.len() == 0 {
                seq![]
            } else {
                seq![Part::Fixed(s)]
            },
        ),
    decreases s.len(),
{
    if s.len() > 0 {
        let tail = s.skip(1);
        assert(s[0] != '{' && s[0] != '}');
        if tail.contains('{') {
            let k = choose|k: int| 0 <= k < tail.len() && tail[k] == '{';
            assert(s[k + 1] == '{');
        }
        if tail.contains('}') {
            let k = choose|k: int| 0 <= k < tail.len() && tail[k] == '}';
            assert(s[k + 1] == '}');
        }
        lemma_plain_parts(tail, line, env);
        assert(s =~= seq![s[0]] + tail);
        if tail.len() == 0 {
            assert(seq![s[0]] =~= s);
            assert(seq![Part::Fixed(seq![s[0]])] + Seq::<Part>::empty() =~= seq![Part::Fixed(s)]);
        } else {
            let one = seq![Part::Fixed(tail)];
            assert(one.skip(1) =~= seq![]);
            assert(seq![Part::Fixed(seq![s[0]] + tail)] + one.skip(1) =~= seq![Part::Fixed(s)]);
        }
    }
}

/// `||` joins what `&&` has joined: a condition is its first group alone where no `||`
/// follows it, else an OR that starts with it.
pub proof fn law_or_joins_groups_of_and(ts: Seq<TokenView>, p: nat, env: Env)
    ensures
        or_cond(ts, p, env) matches Ok((c, r)) ==> (and_cond(ts, p, env) matches Ok((first, q)) && (
        if is_sym(ts, q, Sym::OrOr) {
            c matches CondView::Or(v) && v.len() >= 2 && v[0] == first
        } else {
            c == first && r == q
        })),
{
    if let Ok((first, q)) = and_cond(ts, p, env) {
        if let Ok((rest, r)) = or_terms(ts, q, env) {
            if rest.len() > 0 {
                assert((seq![first] + rest)[0] == first);
            }
        }
    }
}

/// `&&` joins single conditions: a group is its first condition alone where no `&&` follows
/// it, else an AND that starts with it.
pub proof fn law_and_joins_conditions(ts: Seq<TokenView>, p: nat, env: Env)
    ensures
        and_cond(ts, p, env) matches Ok((c, r)) ==> (not_cond(ts, p, env) matches Ok((first, q)) && (
        if is_sym(ts, q, Sym::AndAnd) {
            c matches CondView::And(v) && v.len() >= 2 && v[0] == first
        } else {
            c == first && r == q
        })),
{
    if let Ok((first, q)) = not_cond(ts, p, env) {
        if let Ok((rest, r)) = and_terms(ts, q, env) {
            if rest.len() > 0 {
                assert((seq![first] + rest)[0] == first);
            }
        }
    }
}

/// The conditions behind `&&` are read in order, and so are those behind `||`.
pub proof fn law_joined_conditions_are_read_in_order(ts: Seq<TokenView>, p: nat, env: Env)
    ensures
        and_terms(ts, p, env) matches Ok((v, r)) ==> (v.len() > 0 <==> is_sym(ts, p, Sym::AndAnd))
            && (v.len() > 0 ==> (not_cond(ts, p + 1, env) matches Ok((c, q)) && v[0] == c
            && and_terms(ts, q, env) == Ok::<(Seq<CondView>, nat), IssueView>((v.skip(1), r)))),
        or_terms(ts, p, env) matches Ok((v, r)) ==> (v.len() > 0 <==> is_sym(ts, p, Sym::OrOr)) && (
        v.len() > 0 ==> (and_cond(ts, p + 1, env) matches Ok((c, q)) && v[0] == c && or_terms(
            ts,
            q,
            env,
        ) == Ok::<(Seq<CondView>, nat), IssueView>((v.skip(1), r)))),
{
    if is_sym(ts, p, Sym::AndAnd) {
        if let Ok((c, q)) = not_cond(ts, p + 1, env) {
            if let Ok((rest, r)) = and_terms(ts, q, env) {
                assert((seq![c] + rest).skip(1) =~= rest);
            }
        }
    }
    if is_sym(ts, p, Sym::OrOr) {
        if let Ok((c, q)) = and_cond(ts, p + 1, env) {
            if let Ok((rest, r)) = or_terms(ts, q, env) {
                assert((seq![c] + rest).skip(1) =~= rest);
            }
        }
    }
}

/// `!` turns what follows it round, and parentheses change nothing but the grouping.
pub proof fn law_bang_turns_round(ts: Seq<TokenView>, p: nat, env: Env)
    ensures
        is_sym(ts, p, Sym::Bang) ==> (match not_cond(ts, p + 1, env) {
            Ok((c, q)) => not_cond(ts, p, env) == Ok::<(CondView, nat), IssueView>(
                (CondView::Not(Box::new(c)), q),
            ),
            Err(e) => not_cond(ts, p, env) == Err::<(CondView, nat), IssueView>(e),
        }),
        primary(ts, p, env) matches Ok((c, r)) && is_sym(ts, p, Sym::LParen) ==> paren_cond(
            ts,
            p,
            env,
        ) == primary(ts, p, env),
{
}

/// A test asks what is written: its word tells the test, NOT in front of the word turns it
/// round, and its operands stand in their order.
pub proof fn law_tests_ask_what_is_written(
    ts: Seq<TokenView>,
    p: nat,
    env: Env,
    left: ExprView,
    line: usize,
)
    ensures
        test_rest(ts, p, env, left, line) matches Ok((c, _)) ==> ({
            let negated = is_kw(ts, p, Kw::Not);
            let q = if negated {
                p + 1
            } else {
                p
            };
            match c {
                CondView::IsEmpty(x) => is_kw(ts, p, Kw::Is) && x.expr == left && x.negated == is_kw(
                    ts,
                    p + 1,
                    Kw::Not,
                ) && x.line == line,
                CondView::In { expr: e, list, negated: n, line: l } => is_kw(ts, q, Kw::In) && e
                    == left && n == negated && l == line && list.len() > 0 && (expr(
                    ts,
                    q + 2,
                    env,
                ) matches Ok((first, _)) && list[0] == first),
                CondView::Like { expr: e, pattern, negated: n, line: l } => is_kw(ts, q, Kw::Like)
                    && e == left && n == negated && l == line && (expr(ts, q + 1, env) matches Ok((
                    x,
                    _,
                )) && pattern == x),
                CondView::Between { expr: e, low, high, negated: n, line: l } => is_kw(
                    ts,
                    q,
                    Kw::Between,
                ) && e == left && n == negated && l == line && (expr(ts, q + 1, env) matches Ok((
                    x,
                    r,
                )) && low == x && (expr(ts, r + 1, env) matches Ok((y, _)) && high == y)),
                CondView::Compare(x) => !negated && x.left == left && compare_op(tok_at(ts, p))
                    == Some(x.op) && x.line == line && (expr(ts, p + 1, env) matches Ok((y, _))
                    && x.right == y),
                _ => false,
            }
        }),
{
}

/// A literal stands for its value, and a name for a column or a generator.
pub proof fn law_operands_are_what_is_written(ts: Seq<TokenView>, p: nat, env: Env)
    ensures
        is_kw(ts, p, Kw::Null) ==> term(ts, p, env) == Ok::<(ExprView, nat), IssueView>(
            (ExprView::Null, p + 1),
        ),
        is_kw(ts, p, Kw::True) ==> term(ts, p, env) == Ok::<(ExprView, nat), IssueView>(
            (ExprView::Bool(true), p + 1),
        ),
        is_kw(ts, p, Kw::False) ==> term(ts, p, env) == Ok::<(ExprView, nat), IssueView>(
            (ExprView::Bool(false), p + 1),
        ),
        tok_at(ts, p) matches Some(TokView::Number(n)) ==> (term(ts, p, env) matches Ok((e, q)) ==> q
            == p + 1 && (e is Int || e is Float) && (e matches ExprView::Int(v) ==> text::read_i64(n)
            == Some(v)) && (e matches ExprView::Float(v) ==> (env.rd)(n) == Some(v))),
        tok_at(ts, p) matches Some(TokView::Ident(_)) ==> (term(ts, p, env) matches Ok((e, _))
            ==> e is Col || e is Gen),
        tok_at(ts, p) matches Some(TokView::Ident(_)) ==> (term(ts, p, env) matches Ok((
            ExprView::Col(c),
            _,
        )) ==> (raw_parts(ts, p) matches Ok(((parts, line), _)) && resolve(env.scope, parts, line)
            == Ok::<ColRefView, IssueView>(c))),
{
}

/// `+` puts its operands together in the order in which they stand.
pub proof fn law_plus_keeps_the_order(ts: Seq<TokenView>, p: nat, env: Env)
    ensures
        expr(ts, p, env) matches Ok((e, r)) ==> (term(ts, p, env) matches Ok((first, q)) && (
        if is_sym(ts, q, Sym::Plus) {
            e matches ExprView::Concat(v) && v.len() >= flat(first).len() && v.take(
                flat(first).len() as int,
            ) == flat(first)
        } else {
            e == first && r == q
        })),
        flat(ExprView::Null) == seq![ExprView::Null],
{
    if let Ok((first, q)) = term(ts, p, env) {
        if let Ok((rest, r)) = plus_terms(ts, q, env) {
            assert((flat(first) + rest).take(flat(first).len() as int) =~= flat(first));
        }
    }
}

} // verus!
