//! The syntax tree of the script language.
//!
//! A job is an ordered list of clauses:
//! `FROM → JOIN* → WHERE? → INTO → (ON → MATCHED? / NOT MATCHED?)? → ADD / UPDATE`.
//! `JOIN … ON` is a lookup key, the top-level `ON` is a merge key. Every column
//! is qualified by the alias of a FROM, JOIN or INTO binding.
use crate::double::{Real, RealView};
use crate::text;
use vstd::prelude::*;

verus! {

/// A column reference: `alias.[column]`.
#[derive(Debug, Clone, PartialEq)]
pub struct ColRef {
    pub alias: String,
    pub column: String,
    pub line: usize,
}

#[verifier::ext_equal]
pub struct ColRefView {
    pub alias: Seq<char>,
    pub column: Seq<char>,
    pub line: usize,
}

impl View for ColRef {
    type V = ColRefView;

    open spec fn view(&self) -> ColRefView {
        ColRefView { alias: self.alias@, column: self.column@, line: self.line }
    }
}

impl ColRef {
    /// A copy of the reference.
    pub fn copy(&self) -> (r: ColRef)
        ensures
            r == *self,
    {
        ColRef { alias: self.alias.clone(), column: self.column.clone(), line: self.line }
    }

    /// The alias in lower case, under which bindings are told apart.
    pub fn alias_key(&self) -> (r: String)
        ensures
            r@ == text::lower(self.alias@),
    {
        text::to_lower(self.alias.as_str())
    }
}

/// A generator (`Gen.XXX` / `Gen.XXX(Text)`), evaluated for every row.
#[derive(Debug, Clone, Copy, PartialEq, Eq, Structural)]
pub enum GenKind {
    Guid,
    GuidText,
    Ulid,
    Date,
    DateText,
    DateTime,
    DateTimeText,
    DateTimeOffset,
    DateTimeOffsetText,
    Sha256,
    Sha512,
    Md5,
}

/// The generator of an upper-case name, with or without the `(Text)` suffix.
pub open spec fn gen_of(up: Seq<char>, text_variant: bool) -> Option<GenKind> {
    if up == "GUID"@ {
        Some(if text_variant {
            GenKind::GuidText
        } else {
            GenKind::Guid
        })
    } else if up == "DATE"@ {
        Some(if text_variant {
            GenKind::DateText
        } else {
            GenKind::Date
        })
    } else if up == "DATETIME"@ {
        Some(if text_variant {
            GenKind::DateTimeText
        } else {
            GenKind::DateTime
        })
    } else if up == "DATETIMEOFFSET"@ {
        Some(if text_variant {
            GenKind::DateTimeOffsetText
        } else {
            GenKind::DateTimeOffset
        })
    } else if text_variant {
        None
    } else if up == "ULID"@ {
        Some(GenKind::Ulid)
    } else if up == "SHA256"@ {
        Some(GenKind::Sha256)
    } else if up == "SHA512"@ {
        Some(GenKind::Sha512)
    } else if up == "MD5"@ {
        Some(GenKind::Md5)
    } else {
        None
    }
}

/// The canonical name of a generator.
pub open spec fn gen_label(k: GenKind) -> Seq<char> {
    match k {
        GenKind::Guid => "GUID"@,
        GenKind::GuidText => "GUID(Text)"@,
        GenKind::Ulid => "ULID"@,
        GenKind::Date => "Date"@,
        GenKind::DateText => "Date(Text)"@,
        GenKind::DateTime => "DateTime"@,
        GenKind::DateTimeText => "DateTime(Text)"@,
        GenKind::DateTimeOffset => "DateTimeOffset"@,
        GenKind::DateTimeOffsetText => "DateTimeOffset(Text)"@,
        GenKind::Sha256 => "SHA256"@,
        GenKind::Sha512 => "SHA512"@,
        GenKind::Md5 => "MD5"@,
    }
}

impl GenKind {
    /// Every canonical name, for messages.
    pub const ALL_LABELS: &'static str = "GUID、GUID(Text)、ULID、Date、DateTime、DateTimeOffset、Date(Text)、DateTime(Text)、DateTimeOffset(Text)、SHA256、SHA512、MD5";

    /// Reads a generator name in any case; `text_variant` tells of a `(Text)` suffix.
    pub fn parse(name: &str, text_variant: bool) -> (r: Option<GenKind>)
        ensures
            r == gen_of(text::upper(name@), text_variant),
    {
        let up: String = text::to_upper(name);
        let u: &str = up.as_str();
        if text::same(u, "GUID") {
            Some(if text_variant { GenKind::GuidText } else { GenKind::Guid })
        } else if text::same(u, "DATE") {
            Some(if text_variant { GenKind::DateText } else { GenKind::Date })
        } else if text::same(u, "DATETIME") {
            Some(if text_variant { GenKind::DateTimeText } else { GenKind::DateTime })
        } else if text::same(u, "DATETIMEOFFSET") {
            Some(if text_variant { GenKind::DateTimeOffsetText } else { GenKind::DateTimeOffset })
        } else if text_variant {
            None
        } else if text::same(u, "ULID") {
            Some(GenKind::Ulid)
        } else if text::same(u, "SHA256") {
            Some(GenKind::Sha256)
        } else if text::same(u, "SHA512") {
            Some(GenKind::Sha512)
        } else if text::same(u, "MD5") {
            Some(GenKind::Md5)
        } else {
            None
        }
    }

    /// The canonical name, as `GUID(Text)`.
    pub fn label(&self) -> (r: &'static str)
        ensures
            r@ == gen_label(*self),
    {
        match self {
            GenKind::Guid => "GUID",
            GenKind::GuidText => "GUID(Text)",
            GenKind::Ulid => "ULID",
            GenKind::Date => "Date",
            GenKind::DateText => "Date(Text)",
            GenKind::DateTime => "DateTime",
            GenKind::DateTimeText => "DateTime(Text)",
            GenKind::DateTimeOffset => "DateTimeOffset",
            GenKind::DateTimeOffsetText => "DateTimeOffset(Text)",
            GenKind::Sha256 => "SHA256",
            GenKind::Sha512 => "SHA512",
            GenKind::Md5 => "MD5",
        }
    }
}

/// An assigned value or an operand of a condition.
#[derive(Debug, PartialEq)]
pub enum Expr {
    Col(ColRef),
    Text(String),
    Int(i64),
    Float(Real),
    Bool(bool),
    Null,
    Gen(GenKind),
    /// A text template: the parts as text, one after the other, NULL as nothing.
    Concat(Vec<Expr>),
}

#[verifier::ext_equal]
pub enum ExprView {
    Col(ColRefView),
    Text(Seq<char>),
    Int(i64),
    Float(RealView),
    Bool(bool),
    Null,
    Gen(GenKind),
    Concat(Seq<ExprView>),
}

pub open spec fn expr_view(e: Expr) -> ExprView
    decreases e,
{
    match e {
        Expr::Col(r) => ExprView::Col(r@),
        Expr::Text(s) => ExprView::Text(s@),
        Expr::Int(v) => ExprView::Int(v),
        Expr::Float(v) => ExprView::Float(v@),
        Expr::Bool(b) => ExprView::Bool(b),
        Expr::Null => ExprView::Null,
        Expr::Gen(k) => ExprView::Gen(k),
        Expr::Concat(v) => ExprView::Concat(exprs_view(v@)),
    }
}

pub open spec fn exprs_view(s: Seq<Expr>) -> Seq<ExprView>
    decreases s,
{
    if s.len() == 0 {
        seq![]
    } else {
        exprs_view(s.drop_last()).push(expr_view(s.last()))
    }
}

impl View for Expr {
    type V = ExprView;

    open spec fn view(&self) -> ExprView {
        expr_view(*self)
    }
}

pub proof fn lemma_exprs_push(s: Seq<Expr>, e: Expr)
    ensures
        exprs_view(s.push(e)) == exprs_view(s).push(e@),
{
    assert(s.push(e).drop_last() =~= s);
}

pub proof fn lemma_exprs_index(s: Seq<Expr>)
    ensures
        exprs_view(s).len() == s.len(),
        forall|i: int| 0 <= i < s.len() ==> #[trigger] exprs_view(s)[i] == s[i]@,
    decreases s,
{
    if s.len() > 0 {
        lemma_exprs_index(s.drop_last());
    }
}

pub proof fn lemma_exprs_add(a: Seq<Expr>, b: Seq<Expr>)
    ensures
        exprs_view(a + b) == exprs_view(a) + exprs_view(b),
{
    lemma_exprs_index(a + b);
    lemma_exprs_index(a);
    lemma_exprs_index(b);
    assert(exprs_view(a + b) =~= exprs_view(a) + exprs_view(b));
}

/// A copy of each expression.
pub fn copy_exprs(v: &Vec<Expr>) -> (r: Vec<Expr>)
    ensures
        exprs_view(r@) == exprs_view(v@),
    decreases v,
{
    let mut out: Vec<Expr> = Vec::new();
    let mut i: usize = 0;
    assert(v@.take(0) =~= out@);
    while i < v.len()
        invariant
            i <= v@.len(),
            exprs_view(out@) == exprs_view(v@.take(i as int)),
        decreases v@.len() - i,
    {
        assert(decreases_to!(v => v@[i as int]));
        let e: Expr = v[i].copy();
        proof {
            lemma_exprs_push(out@, e);
            lemma_exprs_push(v@.take(i as int), v@[i as int]);
            assert(v@.take(i + 1) =~= v@.take(i as int).push(v@[i as int]));
        }
        out.push(e);
        i += 1;
    }
    assert(v@.take(i as int) =~= v@);
    out
}

impl Clone for Expr {
    fn clone(&self) -> (r: Expr)
        ensures
            r@ == self@,
    {
        self.copy()
    }
}

/// The column references of an expression, from left to right.
pub open spec fn expr_refs(e: ExprView) -> Seq<ColRefView>
    decreases e,
{
    match e {
        ExprView::Col(r) => seq![r],
        ExprView::Concat(v) => exprs_refs(v),
        _ => seq![],
    }
}

pub open spec fn exprs_refs(v: Seq<ExprView>) -> Seq<ColRefView>
    decreases v,
{
    if v.len() == 0 {
        seq![]
    } else {
        exprs_refs(v.drop_last()) + expr_refs(v.last())
    }
}

/// What borrowed column references hold.
pub open spec fn ref_views(v: Seq<&ColRef>) -> Seq<ColRefView> {
    Seq::new(v.len(), |i: int| v[i]@)
}

/// Moves the references of `more` to the end of `out`.
pub(crate) fn extend_refs<'a>(out: &mut Vec<&'a ColRef>, more: Vec<&'a ColRef>)
    ensures
        ref_views(final(out)@) == ref_views(old(out)@) + ref_views(more@),
{
    let ghost start = out@;
    let mut i: usize = 0;
    while i < more.len()
        invariant
            i <= more@.len(),
            out@ == start + more@.take(i as int),
        decreases more@.len() - i,
    {
        out.push(more[i]);
        i += 1;
        assert(out@ =~= start + more@.take(i as int));
    }
    assert(more@.take(i as int) =~= more@);
    assert(ref_views(out@) =~= ref_views(start) + ref_views(more@));
}

/// The text with every single quote doubled.
pub open spec fn double_quotes(s: Seq<char>) -> Seq<char>
    decreases s.len(),
{
    if s.len() == 0 {
        seq![]
    } else if s[0] == '\'' {
        seq!['\'', '\''] + double_quotes(s.skip(1))
    } else {
        seq![s[0]] + double_quotes(s.skip(1))
    }
}

/// The text with every single quote and every brace doubled.
pub open spec fn double_marks(s: Seq<char>) -> Seq<char>
    decreases s.len(),
{
    if s.len() == 0 {
        seq![]
    } else if s[0] == '\'' || s[0] == '{' || s[0] == '}' {
        seq![s[0], s[0]] + double_marks(s.skip(1))
    } else {
        seq![s[0]] + double_marks(s.skip(1))
    }
}

/// The canonical script text of an expression. In quotes, quotes and braces
/// stand doubled, so that they are read as characters.
pub open spec fn expr_dsl(e: ExprView) -> Seq<char>
    decreases e,
{
    match e {
        ExprView::Col(r) => r.alias + seq!['.', '['] + r.column + seq![']'],
        ExprView::Text(s) => seq!['N', '\''] + double_marks(s) + seq!['\''],
        ExprView::Int(v) => text::int_text(v as int),
        ExprView::Float(v) => v.text,
        ExprView::Bool(b) => if b {
            "TRUE"@
        } else {
            "FALSE"@
        },
        ExprView::Null => "NULL"@,
        ExprView::Gen(k) => "Gen."@ + gen_label(k),
        ExprView::Concat(v) => seq!['N', '\''] + template_dsl(v) + seq!['\''],
    }
}

/// The text between the quotes of a template: fixed text as it is, with quotes
/// and braces doubled, every other part in braces.
pub open spec fn template_dsl(v: Seq<ExprView>) -> Seq<char>
    decreases v,
{
    if v.len() == 0 {
        seq![]
    } else {
        template_dsl(v.drop_last()) + (match v.last() {
            ExprView::Text(t) => double_marks(t),
            other => seq!['{'] + expr_dsl(other) + seq!['}'],
        })
    }
}

proof fn lemma_double_marks_step(s: Seq<char>, i: int)
    requires
        0 <= i < s.len(),
    ensures
        double_marks(s.skip(i)) == (if s[i] == '\'' || s[i] == '{' || s[i] == '}' {
            seq![s[i], s[i]]
        } else {
            seq![s[i]]
        }) + double_marks(s.skip(i + 1)),
{
    assert(s.skip(i).skip(1) =~= s.skip(i + 1));
}

/// Appends `s` with quotes and braces doubled.
fn push_doubled(out: &mut String, s: &str)
    ensures
        final(out)@ == old(out)@ + double_marks(s@),
{
    let chars: Vec<char> = text::chars_of(s);
    let ghost start = out@;
    let ghost goal = double_marks(s@);
    let mut i: usize = 0;
    assert(s@.skip(0) =~= s@);
    while i < chars.len()
        invariant
            i <= chars@.len(),
            chars@ == s@,
            out@ + double_marks(s@.skip(i as int)) == start + goal,
        decreases chars@.len() - i,
    {
        let c: char = chars[i];
        proof {
            lemma_double_marks_step(s@, i as int);
        }
        let ghost before = out@;
        out.push(c);
        if c == '\'' || c == '{' || c == '}' {
            out.push(c);
            assert(out@ =~= before + seq![c, c]);
        } else {
            assert(out@ =~= before + seq![c]);
        }
        i += 1;
        assert(out@ + double_marks(s@.skip(i as int)) =~= start + goal);
    }
    assert(out@ =~= start + goal);
}

/// The column references of the expressions, in order.
fn refs_of_exprs(parts: &Vec<Expr>) -> (r: Vec<&ColRef>)
    ensures
        ref_views(r@) == exprs_refs(exprs_view(parts@)),
    decreases parts,
{
    let mut out: Vec<&ColRef> = Vec::new();
    let mut i: usize = 0;
    assert(ref_views(out@) =~= exprs_refs(exprs_view(parts@.take(0))));
    while i < parts.len()
        invariant
            i <= parts@.len(),
            ref_views(out@) == exprs_refs(exprs_view(parts@.take(i as int))),
        decreases parts@.len() - i,
    {
        assert(decreases_to!(parts => parts@[i as int]));
        let more: Vec<&ColRef> = parts[i].col_refs();
        proof {
            assert(parts@.take(i + 1) =~= parts@.take(i as int).push(parts@[i as int]));
            lemma_exprs_push(parts@.take(i as int), parts@[i as int]);
            assert(exprs_view(parts@.take(i + 1)).drop_last() =~= exprs_view(
                parts@.take(i as int),
            ));
        }
        extend_refs(&mut out, more);
        i += 1;
    }
    assert(parts@.take(i as int) =~= parts@);
    out
}

/// The text between the quotes of a template.
fn template_text(parts: &Vec<Expr>) -> (r: String)
    ensures
        r@ == template_dsl(exprs_view(parts@)),
    decreases parts,
{
    let mut s: String = String::new();
    let mut i: usize = 0;
    assert(s@ =~= template_dsl(exprs_view(parts@.take(0))));
    while i < parts.len()
        invariant
            i <= parts@.len(),
            s@ == template_dsl(exprs_view(parts@.take(i as int))),
        decreases parts@.len() - i,
    {
        let ghost before = s@;
        proof {
            assert(parts@.take(i + 1) =~= parts@.take(i as int).push(parts@[i as int]));
            lemma_exprs_push(parts@.take(i as int), parts@[i as int]);
            assert(exprs_view(parts@.take(i + 1)).drop_last() =~= exprs_view(
                parts@.take(i as int),
            ));
        }
        match &parts[i] {
            Expr::Text(t) => {
                push_doubled(&mut s, t.as_str());
            },
            other => {
                s.push('{');
                assert(decreases_to!(parts => parts@[i as int]));
                let inner: String = other.to_dsl();
                s.append(inner.as_str());
                s.push('}');
                assert(s@ =~= before + (seq!['{'] + inner@ + seq!['}']));
            },
        }
        i += 1;
    }
    assert(parts@.take(i as int) =~= parts@);
    s
}

impl Expr {
    /// A copy of the expression.
    pub fn copy(&self) -> (r: Expr)
        ensures
            r@ == self@,
        decreases self,
    {
        match self {
            Expr::Col(c) => Expr::Col(c.copy()),
            Expr::Text(s) => Expr::Text(s.clone()),
            Expr::Int(v) => Expr::Int(*v),
            Expr::Float(v) => Expr::Float(v.copy()),
            Expr::Bool(b) => Expr::Bool(*b),
            Expr::Null => Expr::Null,
            Expr::Gen(k) => Expr::Gen(*k),
            Expr::Concat(parts) => {
                let out: Vec<Expr> = copy_exprs(parts);
                let e: Expr = Expr::Concat(out);
                assert(e@ == ExprView::Concat(exprs_view(out@)));
                e
            },
        }
    }

    /// Every column reference of the expression, template parts with it.
    pub fn col_refs(&self) -> (r: Vec<&ColRef>)
        ensures
            ref_views(r@) == expr_refs(self@),
        decreases self,
    {
        match self {
            Expr::Col(c) => {
                let mut out: Vec<&ColRef> = Vec::new();
                out.push(c);
                assert(ref_views(out@) =~= seq![c@]);
                out
            },
            Expr::Concat(parts) => refs_of_exprs(parts),
            _ => {
                let out: Vec<&ColRef> = Vec::new();
                assert(ref_views(out@) =~= seq![]);
                out
            },
        }
    }

    /// The canonical script text of the expression.
    pub fn to_dsl(&self) -> (r: String)
        ensures
            r@ == expr_dsl(self@),
        decreases self,
    {
        match self {
            Expr::Col(c) => {
                let mut s: String = c.alias.clone();
                s.push('.');
                s.push('[');
                s.append(c.column.as_str());
                s.push(']');
                assert(s@ =~= expr_dsl(self@));
                s
            },
            Expr::Text(t) => {
                let mut s: String = String::new();
                s.push('N');
                s.push('\'');
                push_doubled(&mut s, t.as_str());
                s.push('\'');
                assert(s@ =~= expr_dsl(self@));
                s
            },
            Expr::Int(v) => text::i64_text(*v),
            Expr::Float(v) => v.text.clone(),
            Expr::Bool(b) => if *b { "TRUE".to_string() } else { "FALSE".to_string() },
            Expr::Null => "NULL".to_string(),
            Expr::Gen(k) => text::cat("Gen.", k.label()),
            Expr::Concat(parts) => {
                let mut s: String = String::new();
                s.push('N');
                s.push('\'');
                let body: String = template_text(parts);
                s.append(body.as_str());
                s.push('\'');
                assert(s@ =~= expr_dsl(self@));
                s
            },
        }
    }
}

/// A comparison operator.
#[derive(Debug, Clone, Copy, PartialEq, Eq, Structural)]
pub enum CmpOp {
    Eq,
    Ne,
    Gt,
    Lt,
    Ge,
    Le,
}

pub open spec fn op_symbol(op: CmpOp) -> Seq<char> {
    match op {
        CmpOp::Eq => "=="@,
        CmpOp::Ne => "!="@,
        CmpOp::Gt => ">"@,
        CmpOp::Lt => "<"@,
        CmpOp::Ge => ">="@,
        CmpOp::Le => "<="@,
    }
}

impl CmpOp {
    /// How the operator is written.
    pub fn symbol(&self) -> (r: &'static str)
        ensures
            r@ == op_symbol(*self),
    {
        match self {
            CmpOp::Eq => "==",
            CmpOp::Ne => "!=",
            CmpOp::Gt => ">",
            CmpOp::Lt => "<",
            CmpOp::Ge => ">=",
            CmpOp::Le => "<=",
        }
    }
}

/// One comparison: `<left> <op> <right>`.
#[derive(Debug, Clone, PartialEq)]
pub struct Comparison {
    pub left: Expr,
    pub op: CmpOp,
    pub right: Expr,
    pub line: usize,
}

#[verifier::ext_equal]
pub struct ComparisonView {
    pub left: ExprView,
    pub op: CmpOp,
    pub right: ExprView,
    pub line: usize,
}

impl View for Comparison {
    type V = ComparisonView;

    open spec fn view(&self) -> ComparisonView {
        ComparisonView { left: self.left@, op: self.op, right: self.right@, line: self.line }
    }
}

/// A test for NULL or empty text: `<expr> IS [NOT] EMPTY`.
#[derive(Debug, Clone, PartialEq)]
pub struct IsEmptyCheck {
    pub expr: Expr,
    /// Set for `IS NOT EMPTY`.
    pub negated: bool,
    pub line: usize,
}

#[verifier::ext_equal]
pub struct IsEmptyView {
    pub expr: ExprView,
    pub negated: bool,
    pub line: usize,
}

impl View for IsEmptyCheck {
    type V = IsEmptyView;

    open spec fn view(&self) -> IsEmptyView {
        IsEmptyView { expr: self.expr@, negated: self.negated, line: self.line }
    }
}

/// A condition of JOIN ON, merge ON or WHERE: a boolean tree over simple tests.
#[derive(Debug, PartialEq)]
pub enum Condition {
    And(Vec<Condition>),
    Or(Vec<Condition>),
    Not(Box<Condition>),
    Compare(Comparison),
    IsEmpty(IsEmptyCheck),
    /// `<expr> [NOT] IN (<list>)`
    In { expr: Expr, list: Vec<Expr>, negated: bool, line: usize },
    /// `<expr> [NOT] LIKE <pattern>`
    Like { expr: Expr, pattern: Expr, negated: bool, line: usize },
    /// `<expr> [NOT] BETWEEN <low> AND <high>`
    Between { expr: Expr, low: Expr, high: Expr, negated: bool, line: usize },
}

#[verifier::ext_equal]
pub enum CondView {
    And(Seq<CondView>),
    Or(Seq<CondView>),
    Not(Box<CondView>),
    Compare(ComparisonView),
    IsEmpty(IsEmptyView),
    In { expr: ExprView, list: Seq<ExprView>, negated: bool, line: usize },
    Like { expr: ExprView, pattern: ExprView, negated: bool, line: usize },
    Between { expr: ExprView, low: ExprView, high: ExprView, negated: bool, line: usize },
}

pub open spec fn cond_view(c: Condition) -> CondView
    decreases c,
{
    match c {
        Condition::And(v) => CondView::And(conds_view(v@)),
        Condition::Or(v) => CondView::Or(conds_view(v@)),
        Condition::Not(b) => CondView::Not(Box::new(cond_view(*b))),
        Condition::Compare(x) => CondView::Compare(x@),
        Condition::IsEmpty(x) => CondView::IsEmpty(x@),
        Condition::In { expr, list, negated, line } => CondView::In {
            expr: expr@,
            list: exprs_view(list@),
            negated,
            line,
        },
        Condition::Like { expr, pattern, negated, line } => CondView::Like {
            expr: expr@,
            pattern: pattern@,
            negated,
            line,
        },
        Condition::Between { expr, low, high, negated, line } => CondView::Between {
            expr: expr@,
            low: low@,
            high: high@,
            negated,
            line,
        },
    }
}

pub open spec fn conds_view(s: Seq<Condition>) -> Seq<CondView>
    decreases s,
{
    if s.len() == 0 {
        seq![]
    } else {
        conds_view(s.drop_last()).push(cond_view(s.last()))
    }
}

impl View for Condition {
    type V = CondView;

    open spec fn view(&self) -> CondView {
        cond_view(*self)
    }
}

pub proof fn lemma_conds_push(s: Seq<Condition>, c: Condition)
    ensures
        conds_view(s.push(c)) == conds_view(s).push(c@),
{
    assert(s.push(c).drop_last() =~= s);
}

pub proof fn lemma_conds_index(s: Seq<Condition>)
    ensures
        conds_view(s).len() == s.len(),
        forall|i: int| 0 <= i < s.len() ==> #[trigger] conds_view(s)[i] == s[i]@,
    decreases s,
{
    if s.len() > 0 {
        lemma_conds_index(s.drop_last());
    }
}

proof fn lemma_conds_take(s: Seq<Condition>, i: int)
    requires
        0 <= i < s.len(),
    ensures
        conds_view(s.take(i + 1)) == conds_view(s.take(i)).push(s[i]@),
        conds_view(s.take(i + 1)).drop_last() == conds_view(s.take(i)),
{
    assert(s.take(i + 1) =~= s.take(i).push(s[i]));
    lemma_conds_push(s.take(i), s[i]);
    assert(conds_view(s.take(i + 1)).drop_last() =~= conds_view(s.take(i)));
}

/// A copy of each condition.
fn copy_conds(v: &Vec<Condition>) -> (r: Vec<Condition>)
    ensures
        conds_view(r@) == conds_view(v@),
    decreases v,
{
    let mut out: Vec<Condition> = Vec::new();
    let mut i: usize = 0;
    assert(v@.take(0) =~= out@);
    while i < v.len()
        invariant
            i <= v@.len(),
            conds_view(out@) == conds_view(v@.take(i as int)),
        decreases v@.len() - i,
    {
        assert(decreases_to!(v => v@[i as int]));
        let c: Condition = v[i].copy();
        proof {
            lemma_conds_push(out@, c);
            lemma_conds_take(v@, i as int);
        }
        out.push(c);
        i += 1;
    }
    assert(v@.take(i as int) =~= v@);
    out
}

impl Clone for Condition {
    fn clone(&self) -> (r: Condition)
        ensures
            r@ == self@,
    {
        self.copy()
    }
}

/// The condition is a single test.
pub open spec fn is_leaf(c: CondView) -> bool {
    !(c is And) && !(c is Or) && !(c is Not)
}

/// The column references of a condition, from left to right.
pub open spec fn cond_refs(c: CondView) -> Seq<ColRefView>
    decreases c,
{
    match c {
        CondView::And(v) => conds_refs(v),
        CondView::Or(v) => conds_refs(v),
        CondView::Not(b) => cond_refs(*b),
        CondView::Compare(x) => expr_refs(x.left) + expr_refs(x.right),
        CondView::IsEmpty(x) => expr_refs(x.expr),
        CondView::In { expr, list, .. } => expr_refs(expr) + exprs_refs(list),
        CondView::Like { expr, pattern, .. } => expr_refs(expr) + expr_refs(pattern),
        CondView::Between { expr, low, high, .. } => expr_refs(expr) + expr_refs(low) + expr_refs(
            high,
        ),
    }
}

pub open spec fn conds_refs(v: Seq<CondView>) -> Seq<ColRefView>
    decreases v,
{
    if v.len() == 0 {
        seq![]
    } else {
        conds_refs(v.drop_last()) + cond_refs(v.last())
    }
}

fn refs_of_conds(v: &Vec<Condition>) -> (r: Vec<&ColRef>)
    ensures
        ref_views(r@) == conds_refs(conds_view(v@)),
    decreases v,
{
    let mut out: Vec<&ColRef> = Vec::new();
    let mut i: usize = 0;
    assert(ref_views(out@) =~= conds_refs(conds_view(v@.take(0))));
    while i < v.len()
        invariant
            i <= v@.len(),
            ref_views(out@) == conds_refs(conds_view(v@.take(i as int))),
        decreases v@.len() - i,
    {
        assert(decreases_to!(v => v@[i as int]));
        let more: Vec<&ColRef> = v[i].col_refs();
        proof {
            lemma_conds_take(v@, i as int);
        }
        extend_refs(&mut out, more);
        i += 1;
    }
    assert(v@.take(i as int) =~= v@);
    out
}

/// The condition is an equality comparison.
pub open spec fn is_equality(c: CondView) -> bool {
    c matches CondView::Compare(x) && x.op == CmpOp::Eq
}

/// The equalities of a condition that is one equality, or a flat AND of equalities.
pub open spec fn equalities(c: CondView) -> Option<Seq<ComparisonView>> {
    match c {
        CondView::And(v) => if forall|i: int| 0 <= i < v.len() ==> is_equality(#[trigger] v[i]) {
            Some(Seq::new(v.len(), |i: int| v[i]->Compare_0))
        } else {
            None
        },
        CondView::Compare(x) => if x.op == CmpOp::Eq {
            Some(seq![x])
        } else {
            None
        },
        _ => None,
    }
}

/// The tests of a condition that is one test, or a flat AND of tests.
pub open spec fn flat_tests(c: CondView) -> Option<Seq<CondView>> {
    match c {
        CondView::And(v) => if forall|i: int| 0 <= i < v.len() ==> is_leaf(#[trigger] v[i]) {
            Some(v)
        } else {
            None
        },
        CondView::Or(_) => None,
        CondView::Not(_) => None,
        leaf => Some(seq![leaf]),
    }
}

pub open spec fn comparison_views(v: Seq<&Comparison>) -> Seq<ComparisonView> {
    Seq::new(v.len(), |i: int| v[i]@)
}

pub open spec fn borrowed_conds(v: Seq<&Condition>) -> Seq<CondView> {
    Seq::new(v.len(), |i: int| v[i]@)
}

/// How tightly a condition binds: OR, then AND, then the rest.
pub open spec fn precedence(c: CondView) -> int {
    match c {
        CondView::Or(_) => 1,
        CondView::And(_) => 2,
        _ => 3,
    }
}

pub open spec fn not_word(negated: bool) -> Seq<char> {
    if negated {
        "NOT "@
    } else {
        ""@
    }
}

/// The expressions in script text with `, ` between neighbours.
pub open spec fn list_dsl(v: Seq<ExprView>) -> Seq<char>
    decreases v.len(),
{
    if v.len() == 0 {
        seq![]
    } else if v.len() == 1 {
        expr_dsl(v[0])
    } else {
        list_dsl(v.drop_last()) + ", "@ + expr_dsl(v.last())
    }
}

/// The conditions in script text with `sep` between neighbours, each in
/// parentheses where it binds looser than `parent`.
pub open spec fn conds_dsl(v: Seq<CondView>, parent: int, sep: Seq<char>) -> Seq<char>
    decreases v, 0int,
{
    if v.len() == 0 {
        seq![]
    } else if v.len() == 1 {
        cond_dsl(v[0], parent)
    } else {
        conds_dsl(v.drop_last(), parent, sep) + sep + cond_dsl(v.last(), parent)
    }
}

/// The canonical script text of a condition, without parentheses around it.
pub open spec fn bare_dsl(c: CondView) -> Seq<char>
    decreases c, 0int,
{
    match c {
        CondView::Or(v) => conds_dsl(v, 1, " || "@),
        CondView::And(v) => conds_dsl(v, 2, " && "@),
        CondView::Not(b) => "!"@ + cond_dsl(*b, 3),
        CondView::Compare(x) => expr_dsl(x.left) + " "@ + op_symbol(x.op) + " "@ + expr_dsl(
            x.right,
        ),
        CondView::IsEmpty(x) => expr_dsl(x.expr) + " IS "@ + not_word(x.negated) + "EMPTY"@,
        CondView::In { expr, list, negated, .. } => expr_dsl(expr) + " "@ + not_word(negated)
            + "IN ("@ + list_dsl(list) + ")"@,
        CondView::Like { expr, pattern, negated, .. } => expr_dsl(expr) + " "@ + not_word(negated)
            + "LIKE "@ + expr_dsl(pattern),
        CondView::Between { expr, low, high, negated, .. } => expr_dsl(expr) + " "@ + not_word(
            negated,
        ) + "BETWEEN "@ + expr_dsl(low) + " AND "@ + expr_dsl(high),
    }
}

/// The canonical script text of a condition below an operator of precedence `parent`.
pub open spec fn cond_dsl(c: CondView, parent: int) -> Seq<char>
    decreases c, 1int,
{
    if precedence(c) < parent {
        "("@ + bare_dsl(c) + ")"@
    } else {
        bare_dsl(c)
    }
}

fn list_text(v: &Vec<Expr>) -> (r: String)
    ensures
        r@ == list_dsl(exprs_view(v@)),
{
    let mut s: String = String::new();
    let mut i: usize = 0;
    proof {
        lemma_exprs_index(v@);
        assert(s@ =~= list_dsl(exprs_view(v@).take(0)));
    }
    while i < v.len()
        invariant
            i <= v@.len(),
            exprs_view(v@).len() == v@.len(),
            forall|j: int| 0 <= j < v@.len() ==> #[trigger] exprs_view(v@)[j] == v@[j]@,
            s@ == list_dsl(exprs_view(v@).take(i as int)),
        decreases v@.len() - i,
    {
        if i > 0 {
            s.append(", ");
        }
        let t: String = v[i].to_dsl();
        s.append(t.as_str());
        proof {
            let all = exprs_view(v@);
            assert(all.take(i + 1).drop_last() =~= all.take(i as int));
            assert(all.take(i + 1).last() == v@[i as int]@);
            if i == 0 {
                assert(s@ =~= t@);
            }
        }
        i += 1;
    }
    assert(exprs_view(v@).take(i as int) =~= exprs_view(v@));
    s
}

fn conds_text(v: &Vec<Condition>, parent: u8, sep: &str) -> (r: String)
    ensures
        r@ == conds_dsl(conds_view(v@), parent as int, sep@),
    decreases v,
{
    let mut s: String = String::new();
    let mut i: usize = 0;
    proof {
        assert(s@ =~= conds_dsl(conds_view(v@.take(0)), parent as int, sep@));
    }
    while i < v.len()
        invariant
            i <= v@.len(),
            s@ == conds_dsl(conds_view(v@.take(i as int)), parent as int, sep@),
        decreases v@.len() - i,
    {
        if i > 0 {
            s.append(sep);
        }
        assert(decreases_to!(v => v@[i as int]));
        let t: String = v[i].fmt_prec(parent);
        s.append(t.as_str());
        proof {
            lemma_conds_take(v@, i as int);
            lemma_conds_index(v@.take(i as int));
            if i == 0 {
                assert(s@ =~= t@);
            }
        }
        i += 1;
    }
    assert(v@.take(i as int) =~= v@);
    s
}

impl Condition {
    /// A copy of the condition.
    pub fn copy(&self) -> (r: Condition)
        ensures
            r@ == self@,
        decreases self,
    {
        match self {
            Condition::And(v) => Condition::And(copy_conds(v)),
            Condition::Or(v) => Condition::Or(copy_conds(v)),
            Condition::Not(b) => Condition::Not(Box::new((**b).copy())),
            Condition::Compare(x) => Condition::Compare(
                Comparison {
                    left: x.left.copy(),
                    op: x.op,
                    right: x.right.copy(),
                    line: x.line,
                },
            ),
            Condition::IsEmpty(x) => Condition::IsEmpty(
                IsEmptyCheck { expr: x.expr.copy(), negated: x.negated, line: x.line },
            ),
            Condition::In { expr, list, negated, line } => Condition::In {
                expr: expr.copy(),
                list: copy_exprs(list),
                negated: *negated,
                line: *line,
            },
            Condition::Like { expr, pattern, negated, line } => Condition::Like {
                expr: expr.copy(),
                pattern: pattern.copy(),
                negated: *negated,
                line: *line,
            },
            Condition::Between { expr, low, high, negated, line } => Condition::Between {
                expr: expr.copy(),
                low: low.copy(),
                high: high.copy(),
                negated: *negated,
                line: *line,
            },
        }
    }

    fn is_leaf(&self) -> (r: bool)
        ensures
            r == is_leaf(self@),
    {
        match self {
            Condition::And(_) => false,
            Condition::Or(_) => false,
            Condition::Not(_) => false,
            _ => true,
        }
    }

    /// Every column reference of the condition.
    pub fn col_refs(&self) -> (r: Vec<&ColRef>)
        ensures
            ref_views(r@) == cond_refs(self@),
        decreases self,
    {
        match self {
            Condition::And(v) => refs_of_conds(v),
            Condition::Or(v) => refs_of_conds(v),
            Condition::Not(b) => (**b).col_refs(),
            Condition::Compare(x) => {
                let mut out: Vec<&ColRef> = x.left.col_refs();
                extend_refs(&mut out, x.right.col_refs());
                out
            },
            Condition::IsEmpty(x) => x.expr.col_refs(),
            Condition::In { expr, list, .. } => {
                let mut out: Vec<&ColRef> = expr.col_refs();
                extend_refs(&mut out, refs_of_exprs(list));
                out
            },
            Condition::Like { expr, pattern, .. } => {
                let mut out: Vec<&ColRef> = expr.col_refs();
                extend_refs(&mut out, pattern.col_refs());
                out
            },
            Condition::Between { expr, low, high, .. } => {
                let mut out: Vec<&ColRef> = expr.col_refs();
                extend_refs(&mut out, low.col_refs());
                extend_refs(&mut out, high.col_refs());
                out
            },
        }
    }

    /// The equalities, where the condition is one equality or a flat AND of equalities.
    pub fn as_eq_conjunction(&self) -> (r: Option<Vec<&Comparison>>)
        ensures
            match r {
                Some(v) => equalities(self@) == Some(comparison_views(v@)),
                None => equalities(self@) is None,
            },
    {
        match self {
            Condition::And(v) => {
                let mut out: Vec<&Comparison> = Vec::new();
                let mut i: usize = 0;
                proof {
                    lemma_conds_index(v@);
                }
                while i < v.len()
                    invariant
                        i <= v@.len(),
                        *self == Condition::And(*v),
                        conds_view(v@).len() == v@.len(),
                        forall|j: int|
                            0 <= j < v@.len() ==> #[trigger] conds_view(v@)[j] == v@[j]@,
                        out@.len() == i,
                        forall|j: int|
                            0 <= j < i ==> is_equality(#[trigger] conds_view(v@)[j]) && out@[j]@
                                == conds_view(v@)[j]->Compare_0,
                    decreases v@.len() - i,
                {
                    match &v[i] {
                        Condition::Compare(x) => {
                            if x.op != CmpOp::Eq {
                                assert(!is_equality(conds_view(v@)[i as int]));
                                return None;
                            }
                            out.push(x);
                        },
                        _ => {
                            assert(!is_equality(conds_view(v@)[i as int]));
                            return None;
                        },
                    }
                    i += 1;
                }
                assert(comparison_views(out@) =~= Seq::new(
                    conds_view(v@).len(),
                    |j: int| conds_view(v@)[j]->Compare_0,
                ));
                Some(out)
            },
            Condition::Compare(x) => {
                if x.op == CmpOp::Eq {
                    let mut out: Vec<&Comparison> = Vec::new();
                    out.push(x);
                    assert(comparison_views(out@) =~= seq![x@]);
                    Some(out)
                } else {
                    None
                }
            },
            _ => None,
        }
    }

    /// The tests, where the condition is one test or a flat AND of tests.
    pub fn flat_rows(&self) -> (r: Option<Vec<&Condition>>)
        ensures
            match r {
                Some(v) => flat_tests(self@) == Some(borrowed_conds(v@)),
                None => flat_tests(self@) is None,
            },
    {
        match self {
            Condition::And(v) => {
                let mut out: Vec<&Condition> = Vec::new();
                let mut i: usize = 0;
                proof {
                    lemma_conds_index(v@);
                }
                while i < v.len()
                    invariant
                        i <= v@.len(),
                        *self == Condition::And(*v),
                        conds_view(v@).len() == v@.len(),
                        forall|j: int|
                            0 <= j < v@.len() ==> #[trigger] conds_view(v@)[j] == v@[j]@,
                        out@.len() == i,
                        forall|j: int|
                            0 <= j < i ==> is_leaf(#[trigger] conds_view(v@)[j]) && out@[j]@
                                == conds_view(v@)[j],
                    decreases v@.len() - i,
                {
                    if !v[i].is_leaf() {
                        assert(!is_leaf(conds_view(v@)[i as int]));
                        return None;
                    }
                    out.push(&v[i]);
                    i += 1;
                }
                assert(borrowed_conds(out@) =~= conds_view(v@));
                Some(out)
            },
            Condition::Or(_) => None,
            Condition::Not(_) => None,
            other => {
                let mut out: Vec<&Condition> = Vec::new();
                out.push(other);
                assert(borrowed_conds(out@) =~= seq![self@]);
                Some(out)
            },
        }
    }

    /// The canonical script text of the condition.
    pub fn to_dsl(&self) -> (r: String)
        ensures
            r@ == cond_dsl(self@, 0),
    {
        self.fmt_prec(0)
    }

    fn fmt_prec(&self, parent: u8) -> (r: String)
        ensures
            r@ == cond_dsl(self@, parent as int),
        decreases self,
    {
        let (prec, s): (u8, String) = match self {
            Condition::Or(v) => (1u8, conds_text(v, 1, " || ")),
            Condition::And(v) => (2u8, conds_text(v, 2, " && ")),
            Condition::Not(b) => (3u8, text::cat("!", (**b).fmt_prec(3).as_str())),
            Condition::Compare(x) => (
                3u8,
                text::cat5(
                    x.left.to_dsl().as_str(),
                    " ",
                    x.op.symbol(),
                    " ",
                    x.right.to_dsl().as_str(),
                ),
            ),
            Condition::IsEmpty(x) => (
                3u8,
                text::cat4(
                    x.expr.to_dsl().as_str(),
                    " IS ",
                    if x.negated { "NOT " } else { "" },
                    "EMPTY",
                ),
            ),
            Condition::In { expr, list, negated, .. } => {
                let head: String = text::cat4(
                    expr.to_dsl().as_str(),
                    " ",
                    if *negated { "NOT " } else { "" },
                    "IN (",
                );
                (3u8, text::cat3(head.as_str(), list_text(list).as_str(), ")"))
            },
            Condition::Like { expr, pattern, negated, .. } => (
                3u8,
                text::cat5(
                    expr.to_dsl().as_str(),
                    " ",
                    if *negated { "NOT " } else { "" },
                    "LIKE ",
                    pattern.to_dsl().as_str(),
                ),
            ),
            Condition::Between { expr, low, high, negated, .. } => {
                let head: String = text::cat5(
                    expr.to_dsl().as_str(),
                    " ",
                    if *negated { "NOT " } else { "" },
                    "BETWEEN ",
                    low.to_dsl().as_str(),
                );
                (3u8, text::cat3(head.as_str(), " AND ", high.to_dsl().as_str()))
            },
        };
        assert(s@ == bare_dsl(self@));
        if prec < parent {
            text::cat3("(", s.as_str(), ")")
        } else {
            s
        }
    }
}

/// An expression reads the columns that stand in it: a column itself, and a composed text
/// those of each of its parts.
pub proof fn law_every_part_is_read(v: Seq<ExprView>, i: int, r: ColRefView)
    requires
        0 <= i < v.len(),
        expr_refs(v[i]).contains(r),
    ensures
        exprs_refs(v).contains(r),
        expr_refs(ExprView::Concat(v)).contains(r),
        expr_refs(ExprView::Col(r)).contains(r),
    decreases v.len(),
{
    let front = exprs_refs(v.drop_last());
    let one = seq![r];
    assert(one[0] == r);
    if i == v.len() - 1 {
        let x = expr_refs(v[i]);
        let k = choose|k: int| 0 <= k < x.len() && x[k] == r;
        assert(exprs_refs(v)[front.len() + k] == r);
    } else {
        assert(v.drop_last()[i] == v[i]);
        law_every_part_is_read(v.drop_last(), i, r);
        let k = choose|k: int| 0 <= k < front.len() && front[k] == r;
        assert(exprs_refs(v)[k] == r);
    }
}

/// A condition reads the columns of each of its operands.
pub proof fn law_every_operand_is_read(c: CondView, r: ColRefView)
    ensures
        match c {
            CondView::And(v) => forall|i: int|
                0 <= i < v.len() && cond_refs(#[trigger] v[i]).contains(r) ==> cond_refs(
                    c,
                ).contains(r),
            CondView::Or(v) => forall|i: int|
                0 <= i < v.len() && cond_refs(#[trigger] v[i]).contains(r) ==> cond_refs(
                    c,
                ).contains(r),
            CondView::Not(b) => cond_refs(*b).contains(r) ==> cond_refs(c).contains(r),
            CondView::Compare(x) => expr_refs(x.left).contains(r) || expr_refs(x.right).contains(r)
                ==> cond_refs(c).contains(r),
            CondView::IsEmpty(x) => expr_refs(x.expr).contains(r) ==> cond_refs(c).contains(r),
            CondView::In { expr, list, .. } => expr_refs(expr).contains(r) || exprs_refs(
                list,
            ).contains(r) ==> cond_refs(c).contains(r),
            CondView::Like { expr, pattern, .. } => expr_refs(expr).contains(r) || expr_refs(
                pattern,
            ).contains(r) ==> cond_refs(c).contains(r),
            CondView::Between { expr, low, high, .. } => expr_refs(expr).contains(r) || expr_refs(
                low,
            ).contains(r) || expr_refs(high).contains(r) ==> cond_refs(c).contains(r),
        },
{
    match c {
        CondView::And(v) => {
            assert forall|i: int|
                0 <= i < v.len() && cond_refs(#[trigger] v[i]).contains(r) implies cond_refs(
                c,
            ).contains(r) by {
                lemma_conds_read(v, i, r);
            }
        },
        CondView::Or(v) => {
            assert forall|i: int|
                0 <= i < v.len() && cond_refs(#[trigger] v[i]).contains(r) implies cond_refs(
                c,
            ).contains(r) by {
                lemma_conds_read(v, i, r);
            }
        },
        CondView::Compare(x) => {
            lemma_either(expr_refs(x.left), expr_refs(x.right), r);
        },
        CondView::In { expr, list, .. } => {
            lemma_either(expr_refs(expr), exprs_refs(list), r);
        },
        CondView::Like { expr, pattern, .. } => {
            lemma_either(expr_refs(expr), expr_refs(pattern), r);
        },
        CondView::Between { expr, low, high, .. } => {
            lemma_either(expr_refs(expr), expr_refs(low), r);
            lemma_either(expr_refs(expr) + expr_refs(low), expr_refs(high), r);
        },
        _ => {},
    }
}

proof fn lemma_either(a: Seq<ColRefView>, b: Seq<ColRefView>, r: ColRefView)
    ensures
        a.contains(r) || b.contains(r) ==> (a + b).contains(r),
{
    if a.contains(r) {
        let k = choose|k: int| 0 <= k < a.len() && a[k] == r;
        assert((a + b)[k] == r);
    }
    if b.contains(r) {
        let k = choose|k: int| 0 <= k < b.len() && b[k] == r;
        assert((a + b)[a.len() + k] == r);
    }
}

proof fn lemma_conds_read(v: Seq<CondView>, i: int, r: ColRefView)
    requires
        0 <= i < v.len(),
        cond_refs(v[i]).contains(r),
    ensures
        conds_refs(v).contains(r),
    decreases v.len(),
{
    let front = conds_refs(v.drop_last());
    if i == v.len() - 1 {
        let x = cond_refs(v[i]);
        let k = choose|k: int| 0 <= k < x.len() && x[k] == r;
        assert(conds_refs(v)[front.len() + k] == r);
    } else {
        assert(v.drop_last()[i] == v[i]);
        lemma_conds_read(v.drop_last(), i, r);
        let k = choose|k: int| 0 <= k < front.len() && front[k] == r;
        assert(conds_refs(v)[k] == r);
    }
}

/// A key is made of equalities alone: one `==`, or several joined by AND, in their order.
/// Any other operator, OR and NOT make no key.
pub proof fn law_keys_are_equalities(c: CondView)
    ensures
        equalities(c) matches Some(v) ==> forall|i: int|
            0 <= i < v.len() ==> (#[trigger] v[i]).op == CmpOp::Eq,
        c is Or || c is Not || c is In || c is Like || c is Between || c is IsEmpty ==> equalities(
            c,
        ) is None,
        c matches CondView::Compare(x) ==> (equalities(c) is Some <==> x.op == CmpOp::Eq),
        c matches CondView::Compare(x) && x.op == CmpOp::Eq ==> equalities(c) == Some(
            seq![c->Compare_0],
        ),
        c matches CondView::And(w) ==> (equalities(c) matches Some(v) ==> v.len() == w.len()
            && forall|i: int|
            0 <= i < w.len() ==> w[i] == CondView::Compare(#[trigger] v[i])),
{
    if let CondView::And(w) = c {
        if let Some(v) = equalities(c) {
            assert forall|i: int| 0 <= i < w.len() implies w[i] == CondView::Compare(
                #[trigger] v[i],
            ) && v[i].op == CmpOp::Eq by {
                assert(is_equality(w[i]));
            }
        }
    }
}

} // verus!
