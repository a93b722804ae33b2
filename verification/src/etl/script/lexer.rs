//! The tokens of a script.
//!
//! Keywords are recognised in any case. `--` and `//` start a comment that runs
//! to the end of the line, `///` one that runs to the next `///`. Names are
//! written bare or as `[name]`.
use crate::etl::script::clauses::{err, issue, IssueView, ScriptIssue};
use crate::text;
use vstd::prelude::*;

verus! {

#[derive(Debug, Clone, Copy, PartialEq, Eq, Structural)]
pub enum Kw {
    Work,
    From,
    Join,
    Where,
    Into,
    On,
    Matched,
    Not,
    Add,
    Update,
    Skip,
    Delete,
    Go,
    Is,
    Empty,
    In,
    Like,
    Between,
    Inner,
    Left,
    Source,
    Target,
    Null,
    True,
    False,
    If,
}

#[derive(Debug, Clone, Copy, PartialEq, Eq, Structural)]
pub enum Sym {
    Dot,
    Comma,
    LBrace,
    RBrace,
    LParen,
    RParen,
    Plus,
    Assign,
    Eq,
    Ne,
    Gt,
    Lt,
    Ge,
    Le,
    AndAnd,
    OrOr,
    Bang,
}

#[derive(Debug, Clone, PartialEq)]
pub enum Tok {
    Ident(String),
    Number(String),
    Str(String),
    Sym(Sym),
    Kw(Kw),
}

#[derive(Debug, Clone)]
pub struct Token {
    pub tok: Tok,
    pub line: usize,
}

#[verifier::ext_equal]
pub enum TokView {
    Ident(Seq<char>),
    Number(Seq<char>),
    Str(Seq<char>),
    Sym(Sym),
    Kw(Kw),
}

#[verifier::ext_equal]
pub struct TokenView {
    pub tok: TokView,
    pub line: usize,
}

impl View for Tok {
    type V = TokView;

    open spec fn view(&self) -> TokView {
        match self {
            Tok::Ident(s) => TokView::Ident(s@),
            Tok::Number(s) => TokView::Number(s@),
            Tok::Str(s) => TokView::Str(s@),
            Tok::Sym(s) => TokView::Sym(*s),
            Tok::Kw(k) => TokView::Kw(*k),
        }
    }
}

impl View for Token {
    type V = TokenView;

    open spec fn view(&self) -> TokenView {
        TokenView { tok: self.tok@, line: self.line }
    }
}

pub open spec fn tokens_view(v: Seq<Token>) -> Seq<TokenView> {
    Seq::new(v.len(), |i: int| v[i]@)
}

/// The keyword of an upper-case word.
pub open spec fn kw_of(up: Seq<char>) -> Option<Kw> {
    if up == "WORK"@ {
        Some(Kw::Work)
    } else if up == "FROM"@ {
        Some(Kw::From)
    } else if up == "JOIN"@ {
        Some(Kw::Join)
    } else if up == "WHERE"@ {
        Some(Kw::Where)
    } else if up == "INTO"@ {
        Some(Kw::Into)
    } else if up == "ON"@ {
        Some(Kw::On)
    } else if up == "MATCHED"@ {
        Some(Kw::Matched)
    } else if up == "NOT"@ {
        Some(Kw::Not)
    } else if up == "ADD"@ {
        Some(Kw::Add)
    } else if up == "UPDATE"@ {
        Some(Kw::Update)
    } else if up == "SKIP"@ {
        Some(Kw::Skip)
    } else if up == "DELETE"@ {
        Some(Kw::Delete)
    } else if up == "GO"@ {
        Some(Kw::Go)
    } else if up == "IS"@ {
        Some(Kw::Is)
    } else if up == "EMPTY"@ {
        Some(Kw::Empty)
    } else if up == "IN"@ {
        Some(Kw::In)
    } else if up == "LIKE"@ {
        Some(Kw::Like)
    } else if up == "BETWEEN"@ {
        Some(Kw::Between)
    } else if up == "INNER"@ {
        Some(Kw::Inner)
    } else if up == "LEFT"@ {
        Some(Kw::Left)
    } else if up == "SOURCE"@ {
        Some(Kw::Source)
    } else if up == "TARGET"@ {
        Some(Kw::Target)
    } else if up == "NULL"@ {
        Some(Kw::Null)
    } else if up == "TRUE"@ {
        Some(Kw::True)
    } else if up == "FALSE"@ {
        Some(Kw::False)
    } else if up == "IF"@ {
        Some(Kw::If)
    } else {
        None
    }
}

/// A class of characters that a token or a comment runs over.
#[derive(Clone, Copy, PartialEq, Eq, Structural)]
pub enum Run {
    /// The rest of a line.
    Line,
    /// The rest of a bracketed name.
    Name,
    /// Digits and points.
    Number,
    /// Letters, digits and underscores.
    Word,
}

pub open spec fn in_run(c: char, run: Run) -> bool {
    match run {
        Run::Line => c != '\n',
        Run::Name => c != '\n' && c != ']',
        Run::Number => text::is_digit(c) || c == '.',
        Run::Word => text::is_alnum(c) || c == '_',
    }
}

/// How many characters at the start of the text belong to the class.
pub open spec fn run_len(cs: Seq<char>, run: Run) -> nat
    decreases cs.len(),
{
    if cs.len() > 0 && in_run(cs[0], run) {
        1 + run_len(cs.skip(1), run)
    } else {
        0
    }
}

pub open spec fn at(cs: Seq<char>, k: int, c: char) -> bool {
    k < cs.len() && cs[k] == c
}

/// The next line number.
pub open spec fn next_line(line: usize) -> usize {
    if line < usize::MAX {
        (line + 1) as usize
    } else {
        line
    }
}

/// The line number behind a text that starts on `line`.
pub open spec fn line_after(line: usize, cs: Seq<char>) -> usize
    decreases cs.len(),
{
    if cs.len() == 0 {
        line
    } else if cs[0] == '\n' {
        line_after(next_line(line), cs.skip(1))
    } else {
        line_after(line, cs.skip(1))
    }
}

pub open spec fn three_slashes(cs: Seq<char>) -> bool {
    at(cs, 0, '/') && at(cs, 1, '/') && at(cs, 2, '/')
}

/// How far the first `///` reaches.
pub open spec fn block_end(cs: Seq<char>) -> Option<nat>
    decreases cs.len(),
{
    if cs.len() == 0 {
        None
    } else if three_slashes(cs) {
        Some(3)
    } else {
        match block_end(cs.skip(1)) {
            Some(n) => Some(n + 1),
            None => None,
        }
    }
}

/// The content of a quoted text whose opening quote is already read, and how
/// far its closing quote reaches. Two quotes stand for one.
pub open spec fn quoted(cs: Seq<char>) -> Option<(Seq<char>, nat)>
    decreases cs.len(),
{
    if cs.len() == 0 || cs[0] == '\n' {
        None
    } else if cs[0] == '\'' {
        if at(cs, 1, '\'') {
            match quoted(cs.skip(2)) {
                Some((s, n)) => Some((seq!['\''] + s, n + 2)),
                None => None,
            }
        } else {
            Some((seq![], 1))
        }
    } else {
        match quoted(cs.skip(1)) {
            Some((s, n)) => Some((seq![cs[0]] + s, n + 1)),
            None => None,
        }
    }
}

/// The punctuation at the start of the text, with its length.
pub open spec fn symbol_at(cs: Seq<char>) -> Option<(Sym, nat)> {
    let c = cs[0];
    let eq = at(cs, 1, '=');
    if c == '=' {
        if eq {
            Some((Sym::Eq, 2))
        } else {
            Some((Sym::Assign, 1))
        }
    } else if c == '!' {
        if eq {
            Some((Sym::Ne, 2))
        } else {
            Some((Sym::Bang, 1))
        }
    } else if c == '>' {
        if eq {
            Some((Sym::Ge, 2))
        } else {
            Some((Sym::Gt, 1))
        }
    } else if c == '<' {
        if eq {
            Some((Sym::Le, 2))
        } else {
            Some((Sym::Lt, 1))
        }
    } else if c == '&' && at(cs, 1, '&') {
        Some((Sym::AndAnd, 2))
    } else if c == '|' && at(cs, 1, '|') {
        Some((Sym::OrOr, 2))
    } else if c == '.' {
        Some((Sym::Dot, 1))
    } else if c == ',' {
        Some((Sym::Comma, 1))
    } else if c == '{' {
        Some((Sym::LBrace, 1))
    } else if c == '}' {
        Some((Sym::RBrace, 1))
    } else if c == '(' {
        Some((Sym::LParen, 1))
    } else if c == ')' {
        Some((Sym::RParen, 1))
    } else if c == '+' {
        Some((Sym::Plus, 1))
    } else {
        None
    }
}

/// What the start of a text is.
pub enum Lexeme {
    /// White space or a comment of `n` characters, behind which `line` is current.
    Gap { n: nat, line: usize },
    /// A token of `n` characters.
    Emit { tok: TokView, n: nat },
    /// Something that is no token.
    Fail(IssueView),
}

pub open spec fn quoted_lexeme(cs: Seq<char>, open: nat, line: usize) -> Lexeme {
    match quoted(cs.skip(open as int)) {
        Some((s, n)) => Lexeme::Emit { tok: TokView::Str(s), n: n + open },
        None => Lexeme::Fail(issue(line, "未閉合的字串（缺少 '）"@)),
    }
}

pub open spec fn name_lexeme(cs: Seq<char>, line: usize) -> Lexeme {
    let n = run_len(cs.skip(1), Run::Name);
    let name = text::trim(cs.subrange(1, n as int + 1));
    if !at(cs, n as int + 1, ']') {
        Lexeme::Fail(issue(line, "未閉合的 [ 識別字（缺少 ]）"@))
    } else if name.len() == 0 {
        Lexeme::Fail(issue(line, "[] 內不可為空"@))
    } else {
        Lexeme::Emit { tok: TokView::Ident(name), n: n + 2 }
    }
}

pub open spec fn word_tok(word: Seq<char>) -> TokView {
    match kw_of(text::upper(word)) {
        Some(k) => TokView::Kw(k),
        None => TokView::Ident(word),
    }
}

/// What a text that is not empty starts with.
pub open spec fn lexeme(cs: Seq<char>, line: usize) -> Lexeme {
    let c = cs[0];
    if c == '\n' {
        Lexeme::Gap { n: 1, line: next_line(line) }
    } else if text::is_space(c) {
        Lexeme::Gap { n: 1, line }
    } else if c == '-' && at(cs, 1, '-') {
        Lexeme::Gap { n: run_len(cs, Run::Line), line }
    } else if three_slashes(cs) {
        match block_end(cs.skip(3)) {
            Some(n) => Lexeme::Gap { n: n + 3, line: line_after(line, cs.subrange(3, n as int + 3)) },
            None => Lexeme::Fail(issue(line, "未閉合的多行註解（缺少結尾 ///）"@)),
        }
    } else if c == '/' && at(cs, 1, '/') {
        Lexeme::Gap { n: run_len(cs, Run::Line), line }
    } else if c == '[' {
        name_lexeme(cs, line)
    } else if c == '\'' {
        quoted_lexeme(cs, 1, line)
    } else if (c == 'N' || c == 'n') && at(cs, 1, '\'') {
        quoted_lexeme(cs, 2, line)
    } else if let Some((s, n)) = symbol_at(cs) {
        Lexeme::Emit { tok: TokView::Sym(s), n }
    } else if text::is_digit(c) || (c == '-' && cs.len() > 1 && text::is_digit(cs[1])) {
        let n = 1 + run_len(cs.skip(1), Run::Number);
        Lexeme::Emit { tok: TokView::Number(cs.take(n as int)), n }
    } else if in_run(c, Run::Word) {
        let n = run_len(cs, Run::Word);
        Lexeme::Emit { tok: word_tok(cs.take(n as int)), n }
    } else {
        Lexeme::Fail(issue(line, "無法辨識的字元: "@ + text::debug_char(c)))
    }
}

pub proof fn lemma_run_len(cs: Seq<char>, run: Run)
    ensures
        run_len(cs, run) <= cs.len(),
        forall|i: int| 0 <= i < run_len(cs, run) ==> in_run(#[trigger] cs[i], run),
        run_len(cs, run) < cs.len() ==> !in_run(cs[run_len(cs, run) as int], run),
    decreases cs.len(),
{
    if cs.len() > 0 && in_run(cs[0], run) {
        lemma_run_len(cs.skip(1), run);
        assert forall|i: int| 0 <= i < run_len(cs, run) implies in_run(#[trigger] cs[i], run) by {
            if i > 0 {
                assert(cs.skip(1)[i - 1] == cs[i]);
            }
        }
    }
}

proof fn lemma_block_end(cs: Seq<char>)
    ensures
        block_end(cs) matches Some(n) ==> 0 < n <= cs.len(),
    decreases cs.len(),
{
    if cs.len() > 0 && !three_slashes(cs) {
        lemma_block_end(cs.skip(1));
    }
}

pub proof fn lemma_quoted(cs: Seq<char>)
    ensures
        quoted(cs) matches Some((s, n)) ==> 0 < n <= cs.len() && s.len() < n,
    decreases cs.len(),
{
    if cs.len() > 0 {
        if at(cs, 1, '\'') && cs[0] == '\'' {
            lemma_quoted(cs.skip(2));
        } else {
            lemma_quoted(cs.skip(1));
        }
    }
}

/// A lexeme takes at least one character and no more than there are; the
/// content of a quoted text is shorter than the lexeme.
pub proof fn lemma_lexeme(cs: Seq<char>, line: usize)
    requires
        cs.len() > 0,
    ensures
        lexeme(cs, line) matches Lexeme::Gap { n, .. } ==> 0 < n <= cs.len(),
        lexeme(cs, line) matches Lexeme::Emit { n, .. } ==> 0 < n <= cs.len(),
        lexeme(cs, line) matches Lexeme::Emit { tok: TokView::Str(s), n } ==> s.len() < n,
{
    lemma_run_len(cs, Run::Line);
    lemma_run_len(cs, Run::Word);
    lemma_run_len(cs.skip(1), Run::Name);
    lemma_run_len(cs.skip(1), Run::Number);
    if three_slashes(cs) {
        lemma_block_end(cs.skip(3));
    }
    lemma_quoted(cs.skip(1));
    if cs.len() > 1 {
        lemma_quoted(cs.skip(2));
    }
}

/// The tokens of a text whose first line is `line`.
pub open spec fn lex_spec(cs: Seq<char>, line: usize) -> Result<Seq<TokenView>, IssueView>
    decreases cs.len(),
{
    if cs.len() == 0 {
        Ok(seq![])
    } else {
        proof {
            lemma_lexeme(cs, line);
        }
        match lexeme(cs, line) {
            Lexeme::Fail(e) => Err(e),
            Lexeme::Gap { n, line: l } => lex_spec(cs.skip(n as int), l),
            Lexeme::Emit { tok, n } => match lex_spec(cs.skip(n as int), line) {
                Ok(rest) => Ok(seq![TokenView { tok, line }] + rest),
                Err(e) => Err(e),
            },
        }
    }
}

fn run_holds(c: char, run: Run) -> (r: bool)
    ensures
        r == in_run(c, run),
{
    match run {
        Run::Line => c != '\n',
        Run::Name => c != '\n' && c != ']',
        Run::Number => ('0' <= c && c <= '9') || c == '.',
        Run::Word => text::alnum(c) || c == '_',
    }
}

/// Where the run of characters that starts at `from` ends.
fn scan(chars: &Vec<char>, from: usize, run: Run) -> (r: usize)
    requires
        from <= chars@.len(),
    ensures
        from <= r <= chars@.len(),
        r - from == run_len(chars@.skip(from as int), run),
{
    let mut i: usize = from;
    while i < chars.len() && run_holds(chars[i], run)
        invariant
            from <= i <= chars@.len(),
            run_len(chars@.skip(from as int), run) == (i - from) + run_len(
                chars@.skip(i as int),
                run,
            ),
        decreases chars@.len() - i,
    {
        assert(chars@.skip(i as int).skip(1) =~= chars@.skip(i + 1));
        i += 1;
    }
    i
}

fn sees(chars: &Vec<char>, i: usize, k: usize, c: char) -> (r: bool)
    requires
        i <= chars@.len(),
    ensures
        r == at(chars@.skip(i as int), k as int, c),
{
    k < chars.len() - i && chars[i + k] == c
}

fn sees_slashes(chars: &Vec<char>, i: usize) -> (r: bool)
    requires
        i <= chars@.len(),
    ensures
        r == three_slashes(chars@.skip(i as int)),
{
    sees(chars, i, 0, '/') && sees(chars, i, 1, '/') && sees(chars, i, 2, '/')
}

fn line_next(line: usize) -> (r: usize)
    ensures
        r == next_line(line),
{
    if line < usize::MAX {
        line + 1
    } else {
        line
    }
}

/// Where the comment whose `///` ends at `from` ends, and the line there.
fn scan_block(chars: &Vec<char>, from: usize, line: usize) -> (r: Option<(usize, usize)>)
    requires
        from <= chars@.len(),
    ensures
        match r {
            Some((j, l)) => {
                &&& from <= j <= chars@.len()
                &&& block_end(chars@.skip(from as int)) == Some((j - from) as nat)
                &&& l == line_after(line, chars@.subrange(from as int, j as int))
            },
            None => block_end(chars@.skip(from as int)) is None,
        },
{
    let mut i: usize = from;
    let mut l: usize = line;
    assert(chars@.subrange(from as int, from as int) =~= seq![]);
    while i < chars.len()
        invariant
            from <= i <= chars@.len(),
            match block_end(chars@.skip(i as int)) {
                Some(n) => block_end(chars@.skip(from as int)) == Some((n + (i - from)) as nat),
                None => block_end(chars@.skip(from as int)) is None,
            },
            forall|k: int|
                #![trigger chars@.subrange(i as int, k)]
                i <= k <= chars@.len() ==> line_after(line, chars@.subrange(from as int, k))
                    == line_after(l, chars@.subrange(i as int, k)),
        decreases chars@.len() - i,
    {
        if sees_slashes(chars, i) {
            proof {
                let s = chars@.subrange(i as int, i + 3);
                assert(s.len() == 3 && s[0] == '/' && s[1] == '/' && s[2] == '/') by {
                    let rest = chars@.skip(i as int);
                    assert(s[0] == rest[0] && s[1] == rest[1] && s[2] == rest[2]);
                }
                reveal_with_fuel(line_after, 4);
                assert(line_after(l, s) == l);
            }
            return Some((i + 3, l));
        }
        let ghost old_l = l;
        if chars[i] == '\n' {
            l = line_next(l);
        }
        proof {
            assert(chars@.skip(i as int).skip(1) =~= chars@.skip(i + 1));
            assert forall|k: int|
                #![trigger chars@.subrange(i + 1, k)]
                i + 1 <= k <= chars@.len() implies line_after(
                line,
                chars@.subrange(from as int, k),
            ) == line_after(l, chars@.subrange(i + 1, k)) by {
                let s = chars@.subrange(i as int, k);
                assert(s.skip(1) =~= chars@.subrange(i + 1, k));
                assert(s[0] == chars@[i as int]);
                assert(line_after(line, chars@.subrange(from as int, k)) == line_after(old_l, s));
            }
        }
        i += 1;
    }
    None
}

/// Reads a quoted text whose opening quote ends at `from`: its content, and where it ends.
fn lex_string(chars: &Vec<char>, from: usize, line: usize) -> (r: Result<
    (String, usize),
    ScriptIssue,
>)
    requires
        from <= chars@.len(),
    ensures
        match r {
            Ok((s, j)) => from <= j <= chars@.len() && quoted(chars@.skip(from as int)) == Some(
                (s@, (j - from) as nat),
            ),
            Err(e) => quoted(chars@.skip(from as int)) is None && e@ == issue(
                line,
                "未閉合的字串（缺少 '）"@,
            ),
        },
{
    let mut s: String = String::new();
    let mut i: usize = from;
    loop
        invariant
            from <= i <= chars@.len(),
            match quoted(chars@.skip(i as int)) {
                Some((t, n)) => quoted(chars@.skip(from as int)) == Some(
                    (s@ + t, (n + (i - from)) as nat),
                ),
                None => quoted(chars@.skip(from as int)) is None,
            },
        decreases chars@.len() - i,
    {
        if i >= chars.len() || chars[i] == '\n' {
            return Err(err(line, "未閉合的字串（缺少 '）"));
        }
        let c: char = chars[i];
        let ghost before = s@;
        if c == '\'' {
            if sees(chars, i, 1, '\'') {
                s.push('\'');
                assert(chars@.skip(i as int).skip(2) =~= chars@.skip(i + 2));
                i += 2;
                proof {
                    if let Some((t, n)) = quoted(chars@.skip(i as int)) {
                        assert(before + (seq!['\''] + t) =~= s@ + t);
                    }
                }
            } else {
                assert(s@ + Seq::<char>::empty() =~= s@);
                return Ok((s, i + 1));
            }
        } else {
            s.push(c);
            assert(chars@.skip(i as int).skip(1) =~= chars@.skip(i + 1));
            i += 1;
            proof {
                if let Some((t, n)) = quoted(chars@.skip(i as int)) {
                    assert(before + (seq![c] + t) =~= s@ + t);
                }
            }
        }
    }
}

fn lex_symbol(chars: &Vec<char>, i: usize) -> (r: Option<(Sym, usize)>)
    requires
        i < chars@.len(),
    ensures
        match r {
            Some((s, n)) => symbol_at(chars@.skip(i as int)) == Some((s, n as nat)),
            None => symbol_at(chars@.skip(i as int)) is None,
        },
{
    let c: char = chars[i];
    let eq: bool = sees(chars, i, 1, '=');
    if c == '=' {
        if eq { Some((Sym::Eq, 2)) } else { Some((Sym::Assign, 1)) }
    } else if c == '!' {
        if eq { Some((Sym::Ne, 2)) } else { Some((Sym::Bang, 1)) }
    } else if c == '>' {
        if eq { Some((Sym::Ge, 2)) } else { Some((Sym::Gt, 1)) }
    } else if c == '<' {
        if eq { Some((Sym::Le, 2)) } else { Some((Sym::Lt, 1)) }
    } else if c == '&' && sees(chars, i, 1, '&') {
        Some((Sym::AndAnd, 2))
    } else if c == '|' && sees(chars, i, 1, '|') {
        Some((Sym::OrOr, 2))
    } else if c == '.' {
        Some((Sym::Dot, 1))
    } else if c == ',' {
        Some((Sym::Comma, 1))
    } else if c == '{' {
        Some((Sym::LBrace, 1))
    } else if c == '}' {
        Some((Sym::RBrace, 1))
    } else if c == '(' {
        Some((Sym::LParen, 1))
    } else if c == ')' {
        Some((Sym::RParen, 1))
    } else if c == '+' {
        Some((Sym::Plus, 1))
    } else {
        None
    }
}

/// The keyword of an upper-case word.
fn keyword(u: &str) -> (r: Option<Kw>)
    ensures
        r == kw_of(u@),
{
    if text::same(u, "WORK") {
        Some(Kw::Work)
    } else if text::same(u, "FROM") {
        Some(Kw::From)
    } else if text::same(u, "JOIN") {
        Some(Kw::Join)
    } else if text::same(u, "WHERE") {
        Some(Kw::Where)
    } else if text::same(u, "INTO") {
        Some(Kw::Into)
    } else if text::same(u, "ON") {
        Some(Kw::On)
    } else if text::same(u, "MATCHED") {
        Some(Kw::Matched)
    } else if text::same(u, "NOT") {
        Some(Kw::Not)
    } else if text::same(u, "ADD") {
        Some(Kw::Add)
    } else if text::same(u, "UPDATE") {
        Some(Kw::Update)
    } else if text::same(u, "SKIP") {
        Some(Kw::Skip)
    } else if text::same(u, "DELETE") {
        Some(Kw::Delete)
    } else if text::same(u, "GO") {
        Some(Kw::Go)
    } else if text::same(u, "IS") {
        Some(Kw::Is)
    } else if text::same(u, "EMPTY") {
        Some(Kw::Empty)
    } else if text::same(u, "IN") {
        Some(Kw::In)
    } else if text::same(u, "LIKE") {
        Some(Kw::Like)
    } else if text::same(u, "BETWEEN") {
        Some(Kw::Between)
    } else if text::same(u, "INNER") {
        Some(Kw::Inner)
    } else if text::same(u, "LEFT") {
        Some(Kw::Left)
    } else if text::same(u, "SOURCE") {
        Some(Kw::Source)
    } else if text::same(u, "TARGET") {
        Some(Kw::Target)
    } else if text::same(u, "NULL") {
        Some(Kw::Null)
    } else if text::same(u, "TRUE") {
        Some(Kw::True)
    } else if text::same(u, "FALSE") {
        Some(Kw::False)
    } else if text::same(u, "IF") {
        Some(Kw::If)
    } else {
        None
    }
}

/// What the text at a place turned out to be, and where it ends.
enum Piece {
    Gap { end: usize, line: usize },
    Emit { tok: Tok, end: usize },
}

fn lex_quoted(chars: &Vec<char>, i: usize, open: usize, line: usize) -> (r: Result<
    Piece,
    ScriptIssue,
>)
    requires
        i + open <= chars@.len(),
        open <= 2,
    ensures
        match r {
            Ok(Piece::Emit { tok, end }) => i <= end <= chars@.len() && quoted_lexeme(
                chars@.skip(i as int),
                open as nat,
                line,
            ) == (Lexeme::Emit { tok: tok@, n: (end - i) as nat }),
            Ok(_) => false,
            Err(e) => quoted_lexeme(chars@.skip(i as int), open as nat, line) == Lexeme::Fail(e@),
        },
{
    let len: usize = chars.len();
    assert(i + open <= len);
    assert(chars@.skip(i as int).skip(open as int) =~= chars@.skip(i + open));
    let (s, end): (String, usize) = lex_string(chars, i + open, line)?;
    Ok(Piece::Emit { tok: Tok::Str(s), end })
}

fn lex_name(chars: &Vec<char>, i: usize, line: usize) -> (r: Result<Piece, ScriptIssue>)
    requires
        i < chars@.len(),
    ensures
        match r {
            Ok(Piece::Emit { tok, end }) => i <= end <= chars@.len() && name_lexeme(
                chars@.skip(i as int),
                line,
            ) == (Lexeme::Emit { tok: tok@, n: (end - i) as nat }),
            Ok(_) => false,
            Err(e) => name_lexeme(chars@.skip(i as int), line) == Lexeme::Fail(e@),
        },
{
    let len: usize = chars.len();
    let end: usize = scan(chars, i + 1, Run::Name);
    let ghost cs = chars@.skip(i as int);
    proof {
        assert(cs.skip(1) =~= chars@.skip(i + 1));
        assert(cs.subrange(1, end - i) =~= chars@.subrange(i + 1, end as int));
    }
    if end < len && chars[end] == ']' {
        let name: String = text::trimmed(text::text_of(chars, i + 1, end).as_str());
        if name.as_str().is_empty() {
            Err(err(line, "[] 內不可為空"))
        } else {
            Ok(Piece::Emit { tok: Tok::Ident(name), end: end + 1 })
        }
    } else {
        Err(err(line, "未閉合的 [ 識別字（缺少 ]）"))
    }
}

/// Reads the lexeme at `i`.
fn lex_one(chars: &Vec<char>, i: usize, line: usize) -> (r: Result<Piece, ScriptIssue>)
    requires
        i < chars@.len(),
    ensures
        match r {
            Ok(Piece::Gap { end, line: l }) => i < end <= chars@.len() && lexeme(
                chars@.skip(i as int),
                line,
            ) == (Lexeme::Gap { n: (end - i) as nat, line: l }),
            Ok(Piece::Emit { tok, end }) => i < end <= chars@.len() && lexeme(
                chars@.skip(i as int),
                line,
            ) == (Lexeme::Emit { tok: tok@, n: (end - i) as nat }),
            Err(e) => lexeme(chars@.skip(i as int), line) == Lexeme::Fail(e@),
        },
{
    let len: usize = chars.len();
    let c: char = chars[i];
    let ghost cs = chars@.skip(i as int);
    proof {
        lemma_lexeme(cs, line);
        assert(cs[0] == c);
    }
    if c == '\n' {
        Ok(Piece::Gap { end: i + 1, line: line_next(line) })
    } else if text::space(c) {
        Ok(Piece::Gap { end: i + 1, line })
    } else if c == '-' && sees(chars, i, 1, '-') {
        Ok(Piece::Gap { end: scan(chars, i, Run::Line), line })
    } else if sees_slashes(chars, i) {
        assert(cs.skip(3) =~= chars@.skip(i + 3));
        match scan_block(chars, i + 3, line) {
            Some((end, l)) => {
                assert(cs.subrange(3, end - i) =~= chars@.subrange(i + 3, end as int));
                Ok(Piece::Gap { end, line: l })
            },
            None => Err(err(line, "未閉合的多行註解（缺少結尾 ///）")),
        }
    } else if c == '/' && sees(chars, i, 1, '/') {
        Ok(Piece::Gap { end: scan(chars, i, Run::Line), line })
    } else if c == '[' {
        lex_name(chars, i, line)
    } else if c == '\'' {
        lex_quoted(chars, i, 1, line)
    } else if (c == 'N' || c == 'n') && sees(chars, i, 1, '\'') {
        lex_quoted(chars, i, 2, line)
    } else {
        match lex_symbol(chars, i) {
            Some((s, n)) => Ok(Piece::Emit { tok: Tok::Sym(s), end: i + n }),
            None => {
                let second: bool = len - i > 1 && '0' <= chars[i + 1] && chars[i + 1]
                    <= '9';
                if ('0' <= c && c <= '9') || (c == '-' && second) {
                    let end: usize = scan(chars, i + 1, Run::Number);
                    proof {
                        assert(cs.skip(1) =~= chars@.skip(i + 1));
                        assert(cs.take(end - i) =~= chars@.subrange(i as int, end as int));
                    }
                    Ok(Piece::Emit { tok: Tok::Number(text::text_of(chars, i, end)), end })
                } else if run_holds(c, Run::Word) {
                    let end: usize = scan(chars, i, Run::Word);
                    assert(cs.take(end - i) =~= chars@.subrange(i as int, end as int));
                    let word: String = text::text_of(chars, i, end);
                    let tok: Tok = match keyword(text::to_upper(word.as_str()).as_str()) {
                        Some(k) => Tok::Kw(k),
                        None => Tok::Ident(word),
                    };
                    Ok(Piece::Emit { tok, end })
                } else {
                    Err(
                        err(
                            line,
                            text::cat(
                                "無法辨識的字元: ",
                                text::char_debug(c).as_str(),
                            ).as_str(),
                        ),
                    )
                }
            },
        }
    }
}

/// The tokens of a text, or the first place that holds no token.
pub fn lex(input: &str) -> (r: Result<Vec<Token>, ScriptIssue>)
    ensures
        match r {
            Ok(v) => lex_spec(input@, 1) == Ok::<Seq<TokenView>, IssueView>(tokens_view(v@)),
            Err(e) => lex_spec(input@, 1) == Err::<Seq<TokenView>, IssueView>(e@),
        },
{
    lex_from(input, 1)
}

/// The tokens of a text whose first line is `first`.
pub fn lex_from(input: &str, first: usize) -> (r: Result<Vec<Token>, ScriptIssue>)
    ensures
        match r {
            Ok(v) => lex_spec(input@, first) == Ok::<Seq<TokenView>, IssueView>(tokens_view(v@)),
            Err(e) => lex_spec(input@, first) == Err::<Seq<TokenView>, IssueView>(e@),
        },
{
    let mut tokens: Vec<Token> = Vec::new();
    let chars: Vec<char> = text::chars_of(input);
    let mut i: usize = 0;
    let mut line: usize = first;
    proof {
        assert(chars@.skip(0) =~= chars@);
        assert(tokens_view(tokens@) =~= seq![]);
        if let Ok(rest) = lex_spec(chars@, first) {
            assert(tokens_view(tokens@) + rest =~= rest);
        }
    }
    while i < chars.len()
        invariant
            i <= chars@.len(),
            chars@ == input@,
            match lex_spec(chars@.skip(i as int), line) {
                Ok(rest) => lex_spec(input@, first) == Ok::<Seq<TokenView>, IssueView>(
                    tokens_view(tokens@) + rest,
                ),
                Err(e) => lex_spec(input@, first) == Err::<Seq<TokenView>, IssueView>(e),
            },
        decreases chars@.len() - i,
    {
        let ghost cs = chars@.skip(i as int);
        let ghost before = tokens_view(tokens@);
        match lex_one(&chars, i, line)? {
            Piece::Gap { end, line: l } => {
                assert(cs.skip(end - i) =~= chars@.skip(end as int));
                i = end;
                line = l;
            },
            Piece::Emit { tok, end } => {
                let t: Token = Token { tok, line };
                tokens.push(t);
                proof {
                    assert(cs.skip(end - i) =~= chars@.skip(end as int));
                    assert(tokens_view(tokens@) =~= before.push(t@));
                    if let Ok(rest) = lex_spec(chars@.skip(end as int), line) {
                        assert(before + (seq![t@] + rest) =~= tokens_view(tokens@) + rest);
                    }
                }
                i = end;
            },
        }
    }
    proof {
        assert(chars@.skip(i as int).len() == 0);
        assert(tokens_view(tokens@) + Seq::<TokenView>::empty() =~= tokens_view(tokens@));
    }
    Ok(tokens)
}

/// White space in front of a text adds nothing to its tokens; a line feed moves them to
/// the next line.
pub proof fn law_white_space_adds_no_token(c: char, cs: Seq<char>, line: usize)
    requires
        text::is_space(c),
    ensures
        lex_spec(seq![c] + cs, line) == lex_spec(
            cs,
            if c == '\n' {
                next_line(line)
            } else {
                line
            },
        ),
{
    let all = seq![c] + cs;
    assert(all[0] == c);
    assert(all.skip(1) =~= cs);
}

/// A comment behind `--` or `//` reaches to the end of its line and adds nothing to the
/// tokens.
pub proof fn law_comments_add_no_token(body: Seq<char>, cs: Seq<char>, line: usize)
    requires
        !body.contains('\n'),
    ensures
        lex_spec(seq!['-', '-'] + body + seq!['\n'] + cs, line) == lex_spec(cs, next_line(line)),
        (body.len() > 0 ==> body[0] != '/') ==> lex_spec(
            seq!['/', '/'] + body + seq!['\n'] + cs,
            line,
        ) == lex_spec(cs, next_line(line)),
{
    lemma_comment(seq!['-', '-'], body, cs, line);
    if body.len() > 0 ==> body[0] != '/' {
        lemma_comment(seq!['/', '/'], body, cs, line);
    }
}

proof fn lemma_comment(open: Seq<char>, body: Seq<char>, cs: Seq<char>, line: usize)
    requires
        !body.contains('\n'),
        open == seq!['-', '-'] || open == seq!['/', '/'],
        open == seq!['/', '/'] && body.len() > 0 ==> body[0] != '/',
    ensures
        lex_spec(open + body + seq!['\n'] + cs, line) == lex_spec(cs, next_line(line)),
{
    let all = open + body + seq!['\n'] + cs;
    let k = (2 + body.len()) as int;
    lemma_run_len(all, Run::Line);
    let n = run_len(all, Run::Line) as int;
    assert(all[k] == '\n');
    if n > k {
        assert(in_run(all[k], Run::Line));
    }
    if n < k {
        assert(!in_run(all[n], Run::Line));
        assert(all[n] == '\n');
        if n < 2 {
            assert(all[n] == open[n]);
        } else {
            assert(body[n - 2] == all[n]);
            assert(body.contains('\n'));
        }
    }
    assert(n == k);
    assert(all[0] == open[0] && all[1] == open[1]);
    if body.len() > 0 {
        assert(all[2] == body[0]);
    } else {
        assert(all[2] == '\n');
    }
    let rest = all.skip(n);
    assert(rest =~= seq!['\n'] + cs);
    law_white_space_adds_no_token('\n', cs, line);
    assert(lexeme(all, line) == (Lexeme::Gap { n: n as nat, line }));
}

/// A keyword is one in any case of its letters.
pub proof fn law_keywords_count_in_any_case(a: Seq<char>, b: Seq<char>)
    requires
        text::is_ascii_text(a),
        text::is_ascii_text(b),
        text::same_ignoring_case(a, b),
    ensures
        word_tok(a) is Kw <==> word_tok(b) is Kw,
        word_tok(a) is Kw ==> word_tok(a) == word_tok(b),
        !(word_tok(a) is Kw) ==> word_tok(a) == TokView::Ident(a),
{
    let x = text::ascii_lower(a);
    let y = text::ascii_lower(b);
    assert(x.len() == a.len() && y.len() == b.len());
    assert forall|i: int| 0 <= i < a.len() implies text::upper_char(a[i]) == text::upper_char(
        b[i],
    ) by {
        assert(x[i] == y[i]);
        assert(x[i] == text::lower_char(a[i]));
        assert(y[i] == text::lower_char(b[i]));
    }
    assert(text::upper(a) =~= text::upper(b));
}

/// What stands between brackets is a name, without the white space at its ends; it may
/// hold anything but a closing bracket and a line feed, keywords too.
pub proof fn law_brackets_hold_a_name(name: Seq<char>, cs: Seq<char>, line: usize)
    requires
        !name.contains('\n'),
        !name.contains(']'),
        text::trim(name).len() > 0,
    ensures
        lexeme(seq!['['] + name + seq![']'] + cs, line) == (Lexeme::Emit {
            tok: TokView::Ident(text::trim(name)),
            n: name.len() + 2,
        }),
{
    let all = seq!['['] + name + seq![']'] + cs;
    let tail = all.skip(1);
    lemma_run_len(tail, Run::Name);
    let n = run_len(tail, Run::Name) as int;
    let k = name.len() as int;
    assert(tail[k] == ']');
    if n > k {
        assert(in_run(tail[k], Run::Name));
    }
    if n < k {
        assert(!in_run(tail[n], Run::Name));
        assert(tail[n] == name[n]);
        assert(name.contains(name[n]));
    }
    assert(n == k);
    assert(all[0] == '[');
    assert(all.subrange(1, n + 1) =~= name);
    assert(all[n + 1] == ']');
}

/// Tokens are read from left to right: behind a token the text is read as if it stood alone.
pub proof fn law_tokens_are_read_in_order(cs: Seq<char>, line: usize)
    requires
        cs.len() > 0,
    ensures
        lexeme(cs, line) matches Lexeme::Emit { tok, n } ==> (match lex_spec(
            cs.skip(n as int),
            line,
        ) {
            Ok(rest) => lex_spec(cs, line) matches Ok(all) && all.len() == rest.len() + 1
                && all[0] == (TokenView { tok, line }) && all.skip(1) == rest,
            Err(e) => lex_spec(cs, line) == Err::<Seq<TokenView>, IssueView>(e),
        }),
        lexeme(cs, line) matches Lexeme::Fail(e) ==> lex_spec(cs, line) == Err::<
            Seq<TokenView>,
            IssueView,
        >(e) && e.line == line,
{
    if let Lexeme::Emit { tok, n } = lexeme(cs, line) {
        lemma_lexeme(cs, line);
        if let Ok(rest) = lex_spec(cs.skip(n as int), line) {
            let all = seq![TokenView { tok, line }] + rest;
            assert(all.skip(1) =~= rest);
        }
    }
}

} // verus!
