//! The script parser, by recursive descent.
use crate::double::{ask, is_reader, reading, Real};
use crate::etl::script::ast::{
    exprs_view, lemma_conds_index, lemma_conds_push, lemma_exprs_add, lemma_exprs_push, conds_view,
    CmpOp, Comparison, CondView, Condition, Expr, ExprView, GenKind, IsEmptyCheck,
};
use crate::etl::script::clauses::{err, IssueView, ScriptIssue};
use crate::etl::script::grammar::{
    and_cond, and_terms, brace_len, comma_exprs, compare_op, dotted, eat_kw, eat_sym, expr, flat,
    generator, hole, ident, is_ident_like, is_kw, is_sym, lemma_brace_len, lemma_longest_text,
    lemma_tokens_shorter, lemma_trim_shorter, line_at, longest_text, not_cond, number, or_cond,
    or_terms, paren_cond, part_exprs, plus_terms, primary, quoted_text, raw_parts, template,
    template_parts, term, test_rest, tok_at, with_text, between_test, in_test, Env, Parsed, Part,
};
use crate::etl::script::lexer::{lex_from, tokens_view, Kw, Sym, Tok, Token, TokenView};
use crate::etl::script::scope::Scope;
use crate::text;
use vstd::prelude::*;

verus! {

/// A result of parsing says what the grammar says, and ends behind `lo`.
pub open spec fn agrees<T: View>(
    r: Result<(T, usize), ScriptIssue>,
    s: Parsed<T::V>,
    lo: int,
    hi: nat,
) -> bool {
    match r {
        Ok((x, q)) => lo < q <= hi && s == Ok::<(T::V, nat), IssueView>((x@, q as nat)),
        Err(e) => s == Err::<(T::V, nat), IssueView>(e@),
    }
}

/// As `agrees`, for a phrase without content.
pub open spec fn eaten(r: Result<usize, ScriptIssue>, s: Result<nat, IssueView>, p: usize, hi: nat) -> bool {
    match r {
        Ok(q) => q == p + 1 && q <= hi && s == Ok::<nat, IssueView>(q as nat),
        Err(e) => s == Err::<nat, IssueView>(e@),
    }
}

/// The tokens of a script with the aliases in force.
pub struct Parser<'a, F: Fn(String) -> Option<Real>> {
    pub tokens: &'a Vec<Token>,
    pub scope: Scope,
    pub read: &'a F,
}

proof fn lemma_with_text(a: Seq<char>, b: Seq<char>, v: Seq<Part>)
    ensures
        with_text(a, with_text(b, v)) == with_text(a + b, v),
{
    let inner = with_text(b, v);
    let left = with_text(a, inner);
    let right = with_text(a + b, v);
    if a.len() == 0 {
        assert(a + b =~= b);
    } else if b.len() == 0 {
        assert(a + b =~= a);
    } else if v.len() > 0 && v[0] is Fixed {
        let t = v[0]->Fixed_0;
        assert(inner[0] == Part::Fixed(b + t));
        assert(inner.skip(1) =~= v.skip(1));
        assert(a + (b + t) =~= (a + b) + t);
        assert(left =~= right);
    } else {
        assert(inner.skip(1) =~= v);
        assert(left =~= right);
    }
}

/// Adds an operand to a chain; a chain is added operand by operand.
fn push_concat_part(parts: &mut Vec<Expr>, e: Expr)
    ensures
        exprs_view(final(parts)@) == exprs_view(old(parts)@) + flat(e@),
{
    let ghost start = parts@;
    match e {
        Expr::Concat(inner) => {
            let mut more: Vec<Expr> = inner;
            parts.append(&mut more);
            proof {
                lemma_exprs_add(start, inner@);
            }
        },
        other => {
            proof {
                lemma_exprs_push(start, other);
            }
            parts.push(other);
            assert(exprs_view(parts@) =~= exprs_view(start) + flat(e@));
        },
    }
}

/// Reads a quoted text as a template: `{…}` is a hole, `{{` and `}}` stand for one brace.
#[verifier::rlimit(60)]
#[verifier::spinoff_prover]
fn parse_template<F: Fn(String) -> Option<Real>>(
    s: &str,
    line: usize,
    scope: &Scope,
    read: &F,
) -> (r: Result<Expr, ScriptIssue>)
    requires
        is_reader(*read),
    ensures
        match r {
            Ok(e) => template(s@, line, Env { scope: scope@, rd: reading(*read) }) == Ok::<
                ExprView,
                IssueView,
            >(e@),
            Err(x) => template(s@, line, Env { scope: scope@, rd: reading(*read) }) == Err::<
                ExprView,
                IssueView,
            >(x@),
        },
    decreases s@.len() + 1, 2nat, 0int, 1nat,
{
    let chars: Vec<char> = text::chars_of(s);
    let ghost env = Env { scope: scope@, rd: reading(*read) };
    let ghost full = template_parts(s@, line, env);
    let mut parts: Vec<Expr> = Vec::new();
    let mut lit: String = String::new();
    let mut has_hole: bool = false;
    let mut i: usize = 0;
    let ghost mut done: Seq<Part> = seq![];
    proof {
        assert(s@.skip(0) =~= s@);
        assert(part_exprs(done) =~= exprs_view(parts@));
        if let Ok(v) = full {
            assert(done + with_text(lit@, v) =~= v);
        }
    }
    let len: usize = chars.len();
    while i < len
        invariant
            i <= len,
            len == chars@.len(),
            chars@ == s@,
            is_reader(*read),
            env == (Env { scope: scope@, rd: reading(*read) }),
            full == template_parts(s@, line, env),
            exprs_view(parts@) == part_exprs(done),
            has_hole == (done.len() > 0),
            has_hole ==> done.last() is Hole,
            match template_parts(s@.skip(i as int), line, env) {
                Ok(v) => full == Ok::<Seq<Part>, IssueView>(done + with_text(lit@, v)),
                Err(e) => full == Err::<Seq<Part>, IssueView>(e),
            },
        decreases len - i,
    {
        let c: char = chars[i];
        let ghost rest = s@.skip(i as int);
        assert(rest[0] == c);
        let twin: bool = len - i > 1 && chars[i + 1] == c;
        assert(rest.len() > 1 ==> rest[1] == chars@[i + 1]);
        if (c == '{' || c == '}') && twin {
            let ghost before = lit@;
            lit.push(c);
            proof {
                assert(rest.skip(2) =~= s@.skip(i + 2));
                if let Ok(v) = template_parts(s@.skip(i + 2), line, env) {
                    lemma_with_text(before, seq![c], v);
                    assert(before + seq![c] =~= lit@);
                }
            }
            i += 2;
        } else if c == '{' {
            let from: usize = i + 1;
            let mut j: usize = from;
            let ghost tail = s@.skip(from as int);
            proof {
                assert(rest.skip(1) =~= tail);
                lemma_brace_len(tail);
            }
            while j < len && chars[j] != '}'
                invariant
                    from <= j <= len,
                    len == chars@.len(),
                    chars@ == s@,
                    tail == s@.skip(from as int),
                    brace_len(tail) == (j - from) + brace_len(s@.skip(j as int)),
                decreases len - j,
            {
                assert(s@.skip(j as int).skip(1) =~= s@.skip(j + 1));
                j += 1;
            }
            if j >= len {
                return Err(
                    err(line, "字串插值缺少結尾 }（如需字面大括號請用 {{ }}）"),
                );
            }
            let inner: String = text::text_of(&chars, from, j);
            proof {
                assert(inner@ =~= rest.subrange(1, brace_len(tail) as int + 1));
                assert(rest.skip(brace_len(tail) as int + 2) =~= s@.skip(j + 1));
            }
            let e: Expr = parse_hole_expr(inner.as_str(), line, scope, read)?;
            let ghost started = done;
            let ghost held = lit@;
            if !lit.as_str().is_empty() {
                let t: Expr = Expr::Text(lit);
                proof {
                    lemma_exprs_push(parts@, t);
                    done = done.push(Part::Fixed(held));
                    assert(exprs_view(parts@.push(t)) =~= part_exprs(done));
                }
                parts.push(t);
                lit = String::new();
            }
            proof {
                lemma_exprs_push(parts@, e);
                let shown = done;
                done = done.push(Part::Hole(e@));
                assert(exprs_view(parts@.push(e)) =~= part_exprs(done));
                if let Ok(v) = template_parts(s@.skip(j + 1), line, env) {
                    let whole = seq![Part::Hole(e@)] + v;
                    assert(started + with_text(held, whole) =~= done + with_text(lit@, v));
                }
            }
            parts.push(e);
            has_hole = true;
            i = j + 1;
        } else if c == '}' {
            return Err(
                err(line, "字串中出現未配對的 }（如需字面大括號請用 {{ }}）"),
            );
        } else {
            let ghost before = lit@;
            lit.push(c);
            proof {
                assert(rest.skip(1) =~= s@.skip(i + 1));
                if let Ok(v) = template_parts(s@.skip(i + 1), line, env) {
                    lemma_with_text(before, seq![c], v);
                    assert(before + seq![c] =~= lit@);
                }
            }
            i += 1;
        }
    }
    let ghost end = with_text(lit@, seq![]);
    proof {
        assert(s@.skip(i as int) =~= seq![]);
    }
    if !has_hole {
        proof {
            assert(done + end =~= end);
            assert(lit@.len() == 0 ==> lit@ =~= seq![]);
            assert(lit@ + Seq::<char>::empty() =~= lit@);
        }
        return Ok(Expr::Text(lit));
    }
    if !lit.as_str().is_empty() {
        let t: Expr = Expr::Text(lit);
        proof {
            lemma_exprs_push(parts@, t);
        }
        parts.push(t);
    }
    proof {
        assert((done + end)[0] == done[0]);
        assert(exprs_view(parts@) =~= part_exprs(done + end));
    }
    Ok(Expr::Concat(parts))
}

/// Reads the content of a hole, which must be one whole expression.
fn parse_hole_expr<F: Fn(String) -> Option<Real>>(
    inner: &str,
    line: usize,
    scope: &Scope,
    read: &F,
) -> (r: Result<Expr, ScriptIssue>)
    requires
        is_reader(*read),
    ensures
        match r {
            Ok(e) => hole(inner@, line, Env { scope: scope@, rd: reading(*read) }) == Ok::<
                ExprView,
                IssueView,
            >(e@),
            Err(x) => hole(inner@, line, Env { scope: scope@, rd: reading(*read) }) == Err::<
                ExprView,
                IssueView,
            >(x@),
        },
    decreases inner@.len() + 1, 2nat, 0int, 0nat,
{
    let t: String = text::trimmed(inner);
    proof {
        lemma_trim_shorter(inner@);
        lemma_tokens_shorter(text::trim(inner@), line);
    }
    if t.as_str().is_empty() {
        return Err(err(line, "字串插值 {} 內不可為空"));
    }
    let tokens: Vec<Token> = lex_from(t.as_str(), line)?;
    let p: Parser<F> = Parser { tokens: &tokens, scope: scope.copy(), read };
    let (e, q): (Expr, usize) = p.parse_expr(0)?;
    if q < tokens.len() {
        return Err(
            err(line, text::cat3("字串插值 {", t.as_str(), "} 含無法解析的內容").as_str()),
        );
    }
    Ok(e)
}

/// The number that a number token stands for.
fn parse_number<F: Fn(String) -> Option<Real>>(n: &String, line: usize, read: &F) -> (r: Result<
    Expr,
    ScriptIssue,
>)
    requires
        is_reader(*read),
    ensures
        match r {
            Ok(e) => number(n@, line, reading(*read)) == Ok::<ExprView, IssueView>(e@),
            Err(x) => number(n@, line, reading(*read)) == Err::<ExprView, IssueView>(x@),
        },
{
    let chars: Vec<char> = text::chars_of(n.as_str());
    let mut i: usize = 0;
    let mut point: bool = false;
    while i < chars.len()
        invariant
            i <= chars@.len(),
            chars@ == n@,
            point ==> n@.contains('.'),
            !point ==> forall|j: int| 0 <= j < i ==> n@[j] != '.',
        decreases chars@.len() - i,
    {
        if chars[i] == '.' {
            assert(n@[i as int] == '.');
            point = true;
        }
        i += 1;
    }
    assert(point == n@.contains('.'));
    if point {
        match ask(read, n.clone()) {
            Some(v) => Ok(Expr::Float(v)),
            None => Err(err(line, text::cat("無效的數字: ", n.as_str()).as_str())),
        }
    } else {
        match text::parse_i64(n.as_str()) {
            Some(v) => Ok(Expr::Int(v)),
            None => Err(err(line, text::cat("無效的數字: ", n.as_str()).as_str())),
        }
    }
}

impl<'a, F: Fn(String) -> Option<Real>> Parser<'a, F> {
    pub open spec fn ts(&self) -> Seq<TokenView> {
        tokens_view(self.tokens@)
    }

    pub open spec fn env(&self) -> Env {
        Env { scope: self.scope@, rd: reading(*self.read) }
    }

    /// The place is within the tokens, and the reader is one.
    pub open spec fn ready(&self, p: usize) -> bool {
        p <= self.tokens@.len() && is_reader(*self.read)
    }

    pub fn at_sym(&self, p: usize, s: Sym) -> (r: bool)
        ensures
            r == is_sym(self.ts(), p as nat, s),
            r ==> p < self.tokens@.len() && p < usize::MAX,
    {
        if p < self.tokens.len() {
            match &self.tokens[p].tok {
                Tok::Sym(x) => *x == s,
                _ => false,
            }
        } else {
            false
        }
    }

    pub fn at_kw(&self, p: usize, k: Kw) -> (r: bool)
        ensures
            r == is_kw(self.ts(), p as nat, k),
            r ==> p < self.tokens@.len() && p < usize::MAX,
    {
        if p < self.tokens.len() {
            match &self.tokens[p].tok {
                Tok::Kw(x) => *x == k,
                _ => false,
            }
        } else {
            false
        }
    }

    /// Whether a bare name at `p` reads as the word, in any case.
    pub fn at_word(&self, p: usize, word: &str) -> (r: bool)
        ensures
            r == is_ident_like(self.ts(), p as nat, word@),
            r ==> p < self.tokens@.len() && p < usize::MAX,
    {
        if p < self.tokens.len() {
            match &self.tokens[p].tok {
                Tok::Ident(s) => text::eq_ignore_case(s.as_str(), word),
                _ => false,
            }
        } else {
            false
        }
    }

    /// The line to report at a place.
    pub fn line(&self, p: usize) -> (r: usize)
        ensures
            r == line_at(self.ts(), p as nat),
    {
        if self.tokens.len() == 0 {
            0
        } else if p < self.tokens.len() {
            self.tokens[p].line
        } else {
            self.tokens[self.tokens.len() - 1].line
        }
    }

    pub fn eat(&self, p: usize, s: Sym, what: &str) -> (r: Result<usize, ScriptIssue>)
        ensures
            eaten(r, eat_sym(self.ts(), p as nat, s, what@), p, self.tokens@.len()),
    {
        if self.at_sym(p, s) {
            Ok(p + 1)
        } else {
            Err(err(self.line(p), text::cat("預期 ", what).as_str()))
        }
    }

    pub fn eat_word(&self, p: usize, k: Kw, what: &str) -> (r: Result<usize, ScriptIssue>)
        ensures
            eaten(r, eat_kw(self.ts(), p as nat, k, what@), p, self.tokens@.len()),
    {
        if self.at_kw(p, k) {
            Ok(p + 1)
        } else {
            Err(err(self.line(p), text::cat("預期 ", what).as_str()))
        }
    }

    pub fn expect_ident(&self, p: usize, what: &str) -> (r: Result<
        (String, usize, usize),
        ScriptIssue,
    >)
        ensures
            match r {
                Ok((s, line, q)) => q == p + 1 && q <= self.tokens@.len() && ident(
                    self.ts(),
                    p as nat,
                    what@,
                ) == Ok::<((Seq<char>, usize), nat), IssueView>(((s@, line), q as nat)),
                Err(e) => ident(self.ts(), p as nat, what@) == Err::<
                    ((Seq<char>, usize), nat),
                    IssueView,
                >(e@),
            },
    {
        if p < self.tokens.len() {
            match &self.tokens[p].tok {
                Tok::Ident(s) => {
                    return Ok((s.clone(), self.tokens[p].line, p + 1));
                },
                _ => {},
            }
        }
        Err(err(self.line(p), text::cat("預期 ", what).as_str()))
    }

    pub fn expect_str(&self, p: usize, line: usize, message: &str) -> (r: Result<
        (String, usize),
        ScriptIssue,
    >)
        ensures
            agrees(
                r,
                quoted_text(self.ts(), p as nat, line, message@),
                p as int,
                self.tokens@.len(),
            ),
            r matches Ok((_, q)) ==> q == p + 1,
    {
        if p < self.tokens.len() {
            match &self.tokens[p].tok {
                Tok::Str(s) => {
                    return Ok((s.clone(), p + 1));
                },
                _ => {},
            }
        }
        Err(err(line, message))
    }

    /// Reads any number of `.name`.
    pub fn parse_dotted(&self, p: usize, what: &str) -> (r: Result<
        (Vec<String>, usize),
        ScriptIssue,
    >)
        requires
            p <= self.tokens@.len(),
        ensures
            match r {
                Ok((v, q)) => p <= q <= self.tokens@.len() && dotted(self.ts(), p as nat, what@)
                    == Ok::<(Seq<Seq<char>>, nat), IssueView>((text::views(v@), q as nat)),
                Err(e) => dotted(self.ts(), p as nat, what@) == Err::<
                    (Seq<Seq<char>>, nat),
                    IssueView,
                >(e@),
            },
    {
        let mut parts: Vec<String> = Vec::new();
        let mut q: usize = p;
        let ghost goal = dotted(self.ts(), p as nat, what@);
        proof {
            if let Ok((rest, e)) = goal {
                assert(text::views(parts@) + rest =~= rest);
            }
        }
        while self.at_sym(q, Sym::Dot)
            invariant
                p <= q <= self.tokens@.len(),
                goal == dotted(self.ts(), p as nat, what@),
                match dotted(self.ts(), q as nat, what@) {
                    Ok((rest, e)) => goal == Ok::<(Seq<Seq<char>>, nat), IssueView>(
                        (text::views(parts@) + rest, e),
                    ),
                    Err(e) => goal == Err::<(Seq<Seq<char>>, nat), IssueView>(e),
                },
            decreases self.tokens@.len() - q,
        {
            let ghost before = text::views(parts@);
            let (s, _, next): (String, usize, usize) = self.expect_ident(q + 1, what)?;
            proof {
                text::lemma_views_push(parts@, s);
                if let Ok((rest, e)) = dotted(self.ts(), next as nat, what@) {
                    assert(before + (seq![s@] + rest) =~= before.push(s@) + rest);
                }
            }
            parts.push(s);
            q = next;
        }
        assert(text::views(parts@) + Seq::<Seq<char>>::empty() =~= text::views(parts@));
        Ok((parts, q))
    }

    /// Reads `name.name…` with the line of the first name.
    pub fn parse_raw_parts(&self, p: usize) -> (r: Result<(Vec<String>, usize, usize), ScriptIssue>)
        ensures
            match r {
                Ok((v, line, q)) => p < q <= self.tokens@.len() && v@.len() > 0 && raw_parts(
                    self.ts(),
                    p as nat,
                ) == Ok::<((Seq<Seq<char>>, usize), nat), IssueView>(
                    ((text::views(v@), line), q as nat),
                ),
                Err(e) => raw_parts(self.ts(), p as nat) == Err::<
                    ((Seq<Seq<char>>, usize), nat),
                    IssueView,
                >(e@),
            },
    {
        let (first, line, q): (String, usize, usize) = self.expect_ident(p, "識別字")?;
        let (rest, e): (Vec<String>, usize) = self.parse_dotted(q, "`.` 之後的識別字")?;
        let mut more: Vec<String> = rest;
        let mut parts: Vec<String> = Vec::new();
        parts.push(first);
        parts.append(&mut more);
        assert(text::views(parts@) =~= seq![first@] + text::views(rest@));
        Ok((parts, line, e))
    }

    /// Reads an expression: one operand, or a chain of operands joined by `+`.
    pub fn parse_expr(&self, p: usize) -> (r: Result<(Expr, usize), ScriptIssue>)
        requires
            self.ready(p),
        ensures
            agrees(r, expr(self.ts(), p as nat, self.env()), p as int, self.tokens@.len()),
        decreases longest_text(self.ts()), 3nat, self.ts().len() - p, 2nat,
    {
        let (first, q): (Expr, usize) = self.parse_term(p)?;
        if !self.at_sym(q, Sym::Plus) {
            return Ok((first, q));
        }
        let ghost goal = plus_terms(self.ts(), q as nat, self.env());
        let ghost start = first@;
        let ghost head = flat(start);
        let mut parts: Vec<Expr> = Vec::new();
        push_concat_part(&mut parts, first);
        proof {
            assert(exprs_view(parts@) =~= head);
            if let Ok((rest, e)) = goal {
                assert(head + rest =~= exprs_view(parts@) + rest);
            }
        }
        let mut at: usize = q;
        while self.at_sym(at, Sym::Plus)
            invariant
                p < q <= at <= self.tokens@.len(),
                self.ready(p),
                term(self.ts(), p as nat, self.env()) == Ok::<(ExprView, nat), IssueView>(
                    (start, q as nat),
                ),
                is_sym(self.ts(), q as nat, Sym::Plus),
                head == flat(start),
                goal == plus_terms(self.ts(), q as nat, self.env()),
                match plus_terms(self.ts(), at as nat, self.env()) {
                    Ok((rest, e)) => (match goal {
                        Ok((all, f)) => f == e && head + all == exprs_view(parts@) + rest,
                        Err(_) => false,
                    }),
                    Err(e) => goal == Err::<(Seq<ExprView>, nat), IssueView>(e),
                },
            decreases self.tokens@.len() - at,
        {
            let ghost before = exprs_view(parts@);
            let (t, next): (Expr, usize) = self.parse_term(at + 1)?;
            let ghost piece = flat(t@);
            push_concat_part(&mut parts, t);
            proof {
                if let Ok((rest, e)) = plus_terms(self.ts(), next as nat, self.env()) {
                    assert(before + (piece + rest) =~= (before + piece) + rest);
                }
            }
            at = next;
        }
        proof {
            assert(exprs_view(parts@) + Seq::<ExprView>::empty() =~= exprs_view(parts@));
        }
        Ok((Expr::Concat(parts), at))
    }

    fn parse_term(&self, p: usize) -> (r: Result<(Expr, usize), ScriptIssue>)
        requires
            self.ready(p),
        ensures
            agrees(r, term(self.ts(), p as nat, self.env()), p as int, self.tokens@.len()),
        decreases longest_text(self.ts()), 3nat, self.ts().len() - p, 0nat,
    {
        let line: usize = self.line(p);
        if p < self.tokens.len() {
            assert(self.ts()[p as int] == self.tokens@[p as int]@);
            match &self.tokens[p].tok {
                Tok::Str(s) => {
                    proof {
                        lemma_longest_text(self.ts(), p as int);
                    }
                    let e: Expr = parse_template(s.as_str(), line, &self.scope, self.read)?;
                    return Ok((e, p + 1));
                },
                Tok::Number(n) => {
                    let e: Expr = parse_number(n, line, self.read)?;
                    return Ok((e, p + 1));
                },
                Tok::Kw(Kw::Null) => {
                    return Ok((Expr::Null, p + 1));
                },
                Tok::Kw(Kw::True) => {
                    return Ok((Expr::Bool(true), p + 1));
                },
                Tok::Kw(Kw::False) => {
                    return Ok((Expr::Bool(false), p + 1));
                },
                Tok::Ident(_) => {
                    let (parts, at, q): (Vec<String>, usize, usize) = self.parse_raw_parts(p)?;
                    assert(text::views(parts@)[0] == parts@[0]@);
                    if parts.len() >= 2 && text::eq_ignore_case(parts[0].as_str(), "gen") {
                        return self.finish_gen(q, &parts, at);
                    }
                    let c: crate::etl::script::ast::ColRef = self.scope.resolve(&parts, at)?;
                    return Ok((Expr::Col(c), q));
                },
                _ => {},
            }
        }
        Err(err(line, "預期欄位參照或字面值（'文字'、數字、NULL）"))
    }

    /// Reads the rest of `Gen.XXX` or `Gen.XXX(Text)` behind its dotted name.
    fn finish_gen(&self, p: usize, parts: &Vec<String>, line: usize) -> (r: Result<
        (Expr, usize),
        ScriptIssue,
    >)
        requires
            p <= self.tokens@.len(),
        ensures
            agrees(
                r,
                generator(self.ts(), p as nat, text::views(parts@), line),
                p - 1,
                self.tokens@.len(),
            ),
    {
        if parts.len() != 2 {
            return Err(err(line, "產生器格式為 Gen.XXX 或 Gen.XXX(Text)"));
        }
        let text_variant: bool = self.at_sym(p, Sym::LParen);
        let mut q: usize = p;
        if text_variant {
            if !self.at_word(p + 1, "text") {
                return Err(err(line, "產生器參數僅支援 (Text)"));
            }
            if !self.at_sym(p + 2, Sym::RParen) {
                return Err(err(line, "產生器缺少 `)`"));
            }
            q = p + 3;
        }
        assert(text::views(parts@)[1] == parts@[1]@);
        match GenKind::parse(parts[1].as_str(), text_variant) {
            Some(k) => Ok((Expr::Gen(k), q)),
            None => {
                let head: String = text::cat4(
                    "未知的產生器 Gen.",
                    parts[1].as_str(),
                    if text_variant { "(Text)" } else { "" },
                    "（支援：",
                );
                Err(
                    err(line, text::cat3(head.as_str(), GenKind::ALL_LABELS, "）").as_str()),
                )
            },
        }
    }

    /// Reads a condition in parentheses.
    pub fn parse_paren_condition(&self, p: usize) -> (r: Result<(Condition, usize), ScriptIssue>)
        requires
            self.ready(p),
        ensures
            agrees(r, paren_cond(self.ts(), p as nat, self.env()), p as int, self.tokens@.len()),
    {
        let q: usize = self.eat(p, Sym::LParen, "`(`")?;
        let (c, e): (Condition, usize) = self.parse_or(q)?;
        let f: usize = self.eat(e, Sym::RParen, "`)`")?;
        Ok((c, f))
    }

    /// Reads a condition: alternatives joined by `||`.
    #[verifier::rlimit(40)]
    pub fn parse_or(&self, p: usize) -> (r: Result<(Condition, usize), ScriptIssue>)
        requires
            self.ready(p),
        ensures
            agrees(r, or_cond(self.ts(), p as nat, self.env()), p as int, self.tokens@.len()),
        decreases self.ts().len() - p, 5nat,
    {
        let (first, q): (Condition, usize) = self.parse_and(p)?;
        let ghost start = first@;
        let ghost goal = or_terms(self.ts(), q as nat, self.env());
        let mut terms: Vec<Condition> = Vec::new();
        proof {
            lemma_conds_push(terms@, first);
            assert(conds_view(terms@.push(first)) =~= seq![start]);
        }
        terms.push(first);
        let mut at: usize = q;
        while self.at_sym(at, Sym::OrOr)
            invariant
                p < q <= at <= self.tokens@.len(),
                self.ready(p),
                and_cond(self.ts(), p as nat, self.env()) == Ok::<(CondView, nat), IssueView>(
                    (start, q as nat),
                ),
                goal == or_terms(self.ts(), q as nat, self.env()),
                terms@.len() > 0,
                match or_terms(self.ts(), at as nat, self.env()) {
                    Ok((rest, e)) => (match goal {
                        Ok((all, f)) => f == e && seq![start] + all == conds_view(terms@) + rest,
                        Err(_) => false,
                    }),
                    Err(e) => goal == Err::<(Seq<CondView>, nat), IssueView>(e),
                },
            decreases self.tokens@.len() - at,
        {
            let ghost before = conds_view(terms@);
            let (c, next): (Condition, usize) = self.parse_and(at + 1)?;
            proof {
                lemma_conds_push(terms@, c);
                if let Ok((rest, e)) = or_terms(self.ts(), next as nat, self.env()) {
                    assert(before + (seq![c@] + rest) =~= before.push(c@) + rest);
                }
            }
            terms.push(c);
            at = next;
        }
        proof {
            lemma_conds_index(terms@);
            assert(conds_view(terms@) + Seq::<CondView>::empty() =~= conds_view(terms@));
            let all = goal->Ok_0.0;
            assert((seq![start] + all).len() == terms@.len());
            assert((seq![start] + all)[0] == start);
        }
        if terms.len() == 1 {
            match terms.pop() {
                Some(c) => {
                    return Ok((c, at));
                },
                None => {},
            }
        }
        Ok((Condition::Or(terms), at))
    }

    #[verifier::rlimit(40)]
    fn parse_and(&self, p: usize) -> (r: Result<(Condition, usize), ScriptIssue>)
        requires
            self.ready(p),
        ensures
            agrees(r, and_cond(self.ts(), p as nat, self.env()), p as int, self.tokens@.len()),
        decreases self.ts().len() - p, 3nat,
    {
        let (first, q): (Condition, usize) = self.parse_not(p)?;
        let ghost start = first@;
        let ghost goal = and_terms(self.ts(), q as nat, self.env());
        let mut terms: Vec<Condition> = Vec::new();
        proof {
            lemma_conds_push(terms@, first);
            assert(conds_view(terms@.push(first)) =~= seq![start]);
        }
        terms.push(first);
        let mut at: usize = q;
        while self.at_sym(at, Sym::AndAnd)
            invariant
                p < q <= at <= self.tokens@.len(),
                self.ready(p),
                not_cond(self.ts(), p as nat, self.env()) == Ok::<(CondView, nat), IssueView>(
                    (start, q as nat),
                ),
                goal == and_terms(self.ts(), q as nat, self.env()),
                terms@.len() > 0,
                match and_terms(self.ts(), at as nat, self.env()) {
                    Ok((rest, e)) => (match goal {
                        Ok((all, f)) => f == e && seq![start] + all == conds_view(terms@) + rest,
                        Err(_) => false,
                    }),
                    Err(e) => goal == Err::<(Seq<CondView>, nat), IssueView>(e),
                },
            decreases self.tokens@.len() - at,
        {
            let ghost before = conds_view(terms@);
            let (c, next): (Condition, usize) = self.parse_not(at + 1)?;
            proof {
                lemma_conds_push(terms@, c);
                if let Ok((rest, e)) = and_terms(self.ts(), next as nat, self.env()) {
                    assert(before + (seq![c@] + rest) =~= before.push(c@) + rest);
                }
            }
            terms.push(c);
            at = next;
        }
        proof {
            lemma_conds_index(terms@);
            assert(conds_view(terms@) + Seq::<CondView>::empty() =~= conds_view(terms@));
            let all = goal->Ok_0.0;
            assert((seq![start] + all).len() == terms@.len());
            assert((seq![start] + all)[0] == start);
        }
        if terms.len() == 1 {
            match terms.pop() {
                Some(c) => {
                    return Ok((c, at));
                },
                None => {},
            }
        }
        Ok((Condition::And(terms), at))
    }

    fn parse_not(&self, p: usize) -> (r: Result<(Condition, usize), ScriptIssue>)
        requires
            self.ready(p),
        ensures
            agrees(r, not_cond(self.ts(), p as nat, self.env()), p as int, self.tokens@.len()),
        decreases self.ts().len() - p, 1nat,
    {
        if self.at_sym(p, Sym::Bang) {
            let (c, q): (Condition, usize) = self.parse_not(p + 1)?;
            return Ok((Condition::Not(Box::new(c)), q));
        }
        self.parse_primary(p)
    }

    /// Reads a group in parentheses or a single test.
    fn parse_primary(&self, p: usize) -> (r: Result<(Condition, usize), ScriptIssue>)
        requires
            self.ready(p),
        ensures
            agrees(r, primary(self.ts(), p as nat, self.env()), p as int, self.tokens@.len()),
        decreases self.ts().len() - p, 0nat,
    {
        if self.at_sym(p, Sym::LParen) {
            let (c, q): (Condition, usize) = self.parse_or(p + 1)?;
            let e: usize = self.eat(q, Sym::RParen, "群組條件結尾 `)`")?;
            return Ok((c, e));
        }
        let line: usize = self.line(p);
        let (left, q): (Expr, usize) = self.parse_expr(p)?;
        self.parse_test_rest(q, left, line)
    }

    /// Reads the rest of a test behind its first operand.
    fn parse_test_rest(&self, p: usize, left: Expr, line: usize) -> (r: Result<
        (Condition, usize),
        ScriptIssue,
    >)
        requires
            self.ready(p),
        ensures
            agrees(
                r,
                test_rest(self.ts(), p as nat, self.env(), left@, line),
                p as int,
                self.tokens@.len(),
            ),
    {
        if self.at_kw(p, Kw::Is) {
            let negated: bool = self.at_kw(p + 1, Kw::Not);
            let q: usize = if negated { p + 2 } else { p + 1 };
            let e: usize = self.eat_word(q, Kw::Empty, "EMPTY")?;
            return Ok((Condition::IsEmpty(IsEmptyCheck { expr: left, negated, line }), e));
        }
        let negated: bool = self.at_kw(p, Kw::Not);
        let q: usize = if negated { p + 1 } else { p };
        if self.at_kw(q, Kw::In) {
            self.parse_in_test(q + 1, left, negated, line)
        } else if self.at_kw(q, Kw::Like) {
            let (pattern, e): (Expr, usize) = self.parse_expr(q + 1)?;
            Ok((Condition::Like { expr: left, pattern, negated, line }, e))
        } else if self.at_kw(q, Kw::Between) {
            self.parse_between_test(q + 1, left, negated, line)
        } else if negated {
            Err(err(line, "NOT 之後預期 IN / LIKE / BETWEEN"))
        } else {
            match self.compare_op_at(q) {
                None => Err(
                    err(
                        line,
                        "預期比較運算子（== != > < >= <=）、IS [NOT] EMPTY 或 [NOT] IN/LIKE/BETWEEN",
                    ),
                ),
                Some(op) => {
                    let (right, e): (Expr, usize) = self.parse_expr(q + 1)?;
                    Ok((Condition::Compare(Comparison { left, op, right, line }), e))
                },
            }
        }
    }

    fn compare_op_at(&self, p: usize) -> (r: Option<CmpOp>)
        ensures
            r == compare_op(tok_at(self.ts(), p as nat)),
            r is Some ==> p < self.tokens@.len() && p < usize::MAX,
    {
        if p < self.tokens.len() {
            match &self.tokens[p].tok {
                Tok::Sym(Sym::Eq) => Some(CmpOp::Eq),
                Tok::Sym(Sym::Ne) => Some(CmpOp::Ne),
                Tok::Sym(Sym::Gt) => Some(CmpOp::Gt),
                Tok::Sym(Sym::Lt) => Some(CmpOp::Lt),
                Tok::Sym(Sym::Ge) => Some(CmpOp::Ge),
                Tok::Sym(Sym::Le) => Some(CmpOp::Le),
                _ => None,
            }
        } else {
            None
        }
    }

    /// Reads the rest of `<left> [NOT] IN (<list>)` behind IN.
    fn parse_in_test(&self, p: usize, left: Expr, negated: bool, line: usize) -> (r: Result<
        (Condition, usize),
        ScriptIssue,
    >)
        requires
            self.ready(p),
        ensures
            agrees(
                r,
                in_test(self.ts(), p as nat, self.env(), left@, negated, line),
                p as int,
                self.tokens@.len(),
            ),
    {
        let q: usize = self.eat(p, Sym::LParen, "IN 之後的 `(`")?;
        let (first, e): (Expr, usize) = self.parse_expr(q)?;
        let ghost start = first@;
        let ghost goal = comma_exprs(self.ts(), e as nat, self.env());
        let mut list: Vec<Expr> = Vec::new();
        proof {
            lemma_exprs_push(list@, first);
            assert(exprs_view(list@.push(first)) =~= seq![start]);
        }
        list.push(first);
        let mut at: usize = e;
        while self.at_sym(at, Sym::Comma)
            invariant
                p < q < e <= at <= self.tokens@.len(),
                self.ready(p),
                eat_sym(self.ts(), p as nat, Sym::LParen, "IN 之後的 `(`"@) == Ok::<nat, IssueView>(
                    q as nat,
                ),
                expr(self.ts(), q as nat, self.env()) == Ok::<(ExprView, nat), IssueView>(
                    (start, e as nat),
                ),
                goal == comma_exprs(self.ts(), e as nat, self.env()),
                match comma_exprs(self.ts(), at as nat, self.env()) {
                    Ok((rest, x)) => (match goal {
                        Ok((all, f)) => f == x && seq![start] + all == exprs_view(list@) + rest,
                        Err(_) => false,
                    }),
                    Err(x) => goal == Err::<(Seq<ExprView>, nat), IssueView>(x),
                },
            decreases self.tokens@.len() - at,
        {
            let ghost before = exprs_view(list@);
            let (x, next): (Expr, usize) = self.parse_expr(at + 1)?;
            proof {
                lemma_exprs_push(list@, x);
                if let Ok((rest, f)) = comma_exprs(self.ts(), next as nat, self.env()) {
                    assert(before + (seq![x@] + rest) =~= before.push(x@) + rest);
                }
            }
            list.push(x);
            at = next;
        }
        assert(exprs_view(list@) + Seq::<ExprView>::empty() =~= exprs_view(list@));
        let f: usize = self.eat(at, Sym::RParen, "IN 清單結尾 `)`")?;
        Ok((Condition::In { expr: left, list, negated, line }, f))
    }

    /// Reads the rest of `<left> [NOT] BETWEEN <low> AND <high>` behind BETWEEN.
    fn parse_between_test(&self, p: usize, left: Expr, negated: bool, line: usize) -> (r: Result<
        (Condition, usize),
        ScriptIssue,
    >)
        requires
            self.ready(p),
        ensures
            agrees(
                r,
                between_test(self.ts(), p as nat, self.env(), left@, negated, line),
                p as int,
                self.tokens@.len(),
            ),
    {
        let (low, q): (Expr, usize) = self.parse_expr(p)?;
        if !self.at_word(q, "AND") {
            return Err(err(line, "BETWEEN 需以 AND 分隔上下界（如 BETWEEN 1 AND 10）"));
        }
        let (high, e): (Expr, usize) = self.parse_expr(q + 1)?;
        Ok((Condition::Between { expr: left, low, high, negated, line }, e))
    }
}

} // verus!
