//! Parsing of clauses, jobs, headers and whole scripts.
use crate::double::{is_reader, reading, Real};
use crate::etl::script::alias::derive_alias;
use crate::etl::script::ast::{CmpOp, ColRef, Comparison, CondView, Condition, Expr};
use crate::etl::script::clauses::{
    assignments_view, err, joins_view, opt_action, opt_merge, works_view, Action, ActionView,
    Assignment, AssignmentView, Binding, ConnRef, ConnectionSource, FileSource, FileSourceView,
    HeaderView, IntoClause, IssueView, Join, JoinPolicy, JoinView, Merge, MergeView, Script,
    ScriptHeader, ScriptIssue, ScriptView, SourceDecl, Work, WorkView,
};
use crate::etl::script::grammar::is_kw;
use crate::etl::script::jobs::{
    action, assignment, assignment_block, assignments_rest, binding, conn_ref, connection_args,
    connection_params, connection_ref, file_args, file_param, file_params, header_decls, if_clause,
    if_join, into_clause, into_rest, join_clauses, legacy_work, merge_branch, merge_branches,
    merge_clause, names_source, new_work, no_header, one_work, parse_spec, skip_go, source_decl,
    table_path, work_block, work_body, work_list, IfView,
};
use crate::etl::script::lexer::{lex, Kw, Sym, Tok, Token};
use crate::etl::script::parser::{agrees, Parser};
use crate::etl::script::scope::{Scope, ScopeView};
use crate::text;
use vstd::prelude::*;

verus! {

/// The columns that an If compares.
pub struct IfClause {
    pub left: Vec<String>,
    pub right: Vec<String>,
    pub line: usize,
}

impl View for IfClause {
    type V = IfView;

    open spec fn view(&self) -> IfView {
        IfView { left: text::views(self.left@), right: text::views(self.right@), line: self.line }
    }
}

pub open spec fn opt_if(x: Option<IfClause>) -> Option<IfView> {
    match x {
        Some(c) => Some(c@),
        None => None,
    }
}

/// The strings before the last one.
fn all_but_last(v: &Vec<String>) -> (r: Vec<String>)
    requires
        v@.len() > 0,
    ensures
        text::views(r@) == text::views(v@).drop_last(),
{
    let mut out: Vec<String> = Vec::new();
    let n: usize = v.len() - 1;
    let mut i: usize = 0;
    while i < n
        invariant
            i <= n,
            n == v@.len() - 1,
            out@ == v@.take(i as int),
        decreases n - i,
    {
        out.push(v[i].clone());
        i += 1;
        assert(out@ =~= v@.take(i as int));
    }
    assert(text::views(out@) =~= text::views(v@).drop_last());
    out
}

/// Whether every segment reads `source`, in any case.
fn all_source(v: &Vec<String>) -> (r: bool)
    ensures
        r == names_source(text::views(v@)),
{
    let mut i: usize = 0;
    while i < v.len()
        invariant
            i <= v@.len(),
            forall|j: int|
                0 <= j < i ==> text::same_ignoring_case(
                    #[trigger] text::views(v@)[j],
                    "source"@,
                ),
        decreases v@.len() - i,
    {
        if !text::eq_ignore_case(v[i].as_str(), "source") {
            assert(!text::same_ignoring_case(text::views(v@)[i as int], "source"@));
            return false;
        }
        i += 1;
    }
    true
}

impl<'a, F: Fn(String) -> Option<Real>> Parser<'a, F> {
    fn parse_conn_ref(&self, p: usize, line: usize) -> (r: Result<(ConnRef, usize), ScriptIssue>)
        ensures
            match r {
                Ok((c, q)) => p < q <= self.tokens@.len() && conn_ref(self.ts(), p as nat, line)
                    == Ok::<(ConnRef, nat), IssueView>((c, q as nat)),
                Err(e) => conn_ref(self.ts(), p as nat, line) == Err::<(ConnRef, nat), IssueView>(
                    e@,
                ),
            },
    {
        if self.at_kw(p, Kw::Source) {
            Ok((ConnRef::Source, p + 1))
        } else if self.at_kw(p, Kw::Target) {
            Ok((ConnRef::Target, p + 1))
        } else {
            Err(err(line, "FROM / JOIN / INTO 來源需為 SOURCE 或 TARGET"))
        }
    }

    fn parse_table_path(&self, p: usize) -> (r: Result<(Vec<String>, usize), ScriptIssue>)
        requires
            p <= self.tokens@.len(),
        ensures
            match r {
                Ok((v, q)) => p <= q <= self.tokens@.len() && table_path(self.ts(), p as nat)
                    == Ok::<(Seq<Seq<char>>, nat), IssueView>((text::views(v@), q as nat)),
                Err(e) => table_path(self.ts(), p as nat) == Err::<
                    (Seq<Seq<char>>, nat),
                    IssueView,
                >(e@),
            },
    {
        self.parse_dotted(p, "`.` 之後的資料表段")
    }

    /// Reads `alias = SOURCE.[segment]…`.
    fn parse_binding(&self, p: usize) -> (r: Result<(Binding, usize), ScriptIssue>)
        ensures
            agrees(r, binding(self.ts(), p as nat), p as int, self.tokens@.len()),
    {
        let (alias, line, q): (String, usize, usize) = self.expect_ident(
            p,
            "別名（如 entra / account）",
        )?;
        let e: usize = self.eat(
            q,
            Sym::Assign,
            text::cat3("別名 ", alias.as_str(), " 之後的 `=`").as_str(),
        )?;
        let (conn, f): (ConnRef, usize) = self.parse_conn_ref(e, line)?;
        let (table, g): (Vec<String>, usize) = self.parse_table_path(f)?;
        Ok((Binding { alias, conn, table, line }, g))
    }

    fn parse_into_rest(&self, p: usize, alias: Option<String>, line: usize) -> (r: Result<
        (IntoClause, usize),
        ScriptIssue,
    >)
        ensures
            agrees(
                r,
                into_rest(self.ts(), p as nat, text::opt_view(alias), line),
                p as int,
                self.tokens@.len(),
            ),
    {
        let (conn, q): (ConnRef, usize) = self.parse_conn_ref(p, line)?;
        if conn != ConnRef::Target {
            return Err(err(line, "INTO 目標必須是 TARGET（檔案不可當目標）"));
        }
        let (table, e): (Vec<String>, usize) = self.parse_table_path(q)?;
        assert(text::views(table@).len() == table@.len());
        if table.len() == 0 {
            return Err(err(line, "INTO 之後需指定目標資料表"));
        }
        if self.at_word(e, "AS") {
            return Err(
                err(
                    self.line(e),
                    "別名請寫成 `INTO 別名 = TARGET.[…]`（不支援 `AS`）",
                ),
            );
        }
        Ok((IntoClause { conn, table, alias, line }, e))
    }

    /// Reads `INTO [alias =] TARGET.[segment]…`.
    fn parse_into(&self, p: usize) -> (r: Result<(IntoClause, usize), ScriptIssue>)
        ensures
            agrees(r, into_clause(self.ts(), p as nat), p as int, self.tokens@.len()),
    {
        let line: usize = self.line(p);
        let q: usize = self.eat_word(p, Kw::Into, "INTO")?;
        if q < self.tokens.len() {
            match &self.tokens[q].tok {
                Tok::Ident(a) => {
                    if self.at_sym(q + 1, Sym::Assign) {
                        return self.parse_into_rest(q + 2, Some(a.clone()), line);
                    }
                },
                _ => {},
            }
        }
        self.parse_into_rest(q, None, line)
    }

    fn parse_assignment(&self, p: usize) -> (r: Result<(Assignment, usize), ScriptIssue>)
        requires
            self.ready(p),
        ensures
            agrees(r, assignment(self.ts(), p as nat, self.env()), p as int, self.tokens@.len()),
    {
        let (column, line, q): (String, usize, usize) = self.expect_ident(p, "目標欄位名稱")?;
        let e: usize = self.eat(
            q,
            Sym::Assign,
            text::cat3("欄位 ", column.as_str(), " 之後的 `=`").as_str(),
        )?;
        let (value, f): (Expr, usize) = self.parse_expr(e)?;
        Ok((Assignment { target_column: column, value, line }, f))
    }

    /// Reads `{ column = expression, … }`.
    fn parse_assignment_block(&self, p: usize) -> (r: Result<(Vec<Assignment>, usize), ScriptIssue>)
        requires
            self.ready(p),
        ensures
            match r {
                Ok((v, q)) => p < q <= self.tokens@.len() && assignment_block(
                    self.ts(),
                    p as nat,
                    self.env(),
                ) == Ok::<(Seq<AssignmentView>, nat), IssueView>((assignments_view(v@), q as nat)),
                Err(e) => assignment_block(self.ts(), p as nat, self.env()) == Err::<
                    (Seq<AssignmentView>, nat),
                    IssueView,
                >(e@),
            },
    {
        let q: usize = self.eat(p, Sym::LBrace, "`{`")?;
        let ghost goal = assignments_rest(self.ts(), q as nat, self.env(), true);
        let mut v: Vec<Assignment> = Vec::new();
        let mut at: usize = q;
        proof {
            if let Ok((rest, e)) = goal {
                assert(assignments_view(v@) + rest =~= rest);
            }
        }
        while !self.at_sym(at, Sym::RBrace)
            invariant
                p < q <= at <= self.tokens@.len(),
                self.ready(p),
                assignment_block(self.ts(), p as nat, self.env()) == goal,
                match assignments_rest(self.ts(), at as nat, self.env(), v@.len() == 0) {
                    Ok((rest, e)) => goal == Ok::<(Seq<AssignmentView>, nat), IssueView>(
                        (assignments_view(v@) + rest, e),
                    ),
                    Err(e) => goal == Err::<(Seq<AssignmentView>, nat), IssueView>(e),
                },
            decreases self.tokens@.len() - at,
        {
            let mut from: usize = at;
            if v.len() > 0 {
                if !self.at_sym(at, Sym::Comma) {
                    let behind: usize = if at < self.tokens.len() { at + 1 } else { at };
                    return Err(err(self.line(behind), "欄位指派之間需以 `,` 分隔"));
                }
                from = at + 1;
            }
            let ghost before = assignments_view(v@);
            let (a, next): (Assignment, usize) = self.parse_assignment(from)?;
            proof {
                assert(assignments_view(v@.push(a)) =~= before.push(a@));
                if let Ok((rest, e)) = assignments_rest(self.ts(), next as nat, self.env(), false) {
                    assert(before + (seq![a@] + rest) =~= before.push(a@) + rest);
                }
            }
            v.push(a);
            at = next;
        }
        proof {
            assert(assignments_view(v@) + Seq::<AssignmentView>::empty() =~= assignments_view(v@));
        }
        Ok((v, at + 1))
    }

    /// Reads `ADD { … }`, `UPDATE { … }`, `SKIP` or `DELETE`.
    fn parse_action(&self, p: usize) -> (r: Result<(Action, usize), ScriptIssue>)
        requires
            self.ready(p),
        ensures
            agrees(r, action(self.ts(), p as nat, self.env()), p as int, self.tokens@.len()),
    {
        if self.at_kw(p, Kw::Add) {
            let (v, q): (Vec<Assignment>, usize) = self.parse_assignment_block(p + 1)?;
            Ok((Action::Add(v), q))
        } else if self.at_kw(p, Kw::Update) {
            let (v, q): (Vec<Assignment>, usize) = self.parse_assignment_block(p + 1)?;
            Ok((Action::Update(v), q))
        } else if self.at_kw(p, Kw::Skip) {
            Ok((Action::Skip, p + 1))
        } else if self.at_kw(p, Kw::Delete) {
            Ok((Action::Delete, p + 1))
        } else {
            Err(err(self.line(p), "預期動作 ADD / UPDATE / SKIP / DELETE"))
        }
    }

    fn parse_merge_branch(&self, p: usize) -> (r: Result<(Action, usize), ScriptIssue>)
        requires
            self.ready(p),
        ensures
            agrees(r, merge_branch(self.ts(), p as nat, self.env()), p as int, self.tokens@.len()),
    {
        let q: usize = self.eat(p, Sym::LBrace, "MATCHED / NOT MATCHED 之後的 `{`")?;
        let (a, e): (Action, usize) = self.parse_action(q)?;
        let f: usize = self.eat(e, Sym::RBrace, "MATCHED / NOT MATCHED 區塊結尾 `}`")?;
        Ok((a, f))
    }

    /// Reads `ON (condition)` with its branches, where there is one.
    fn parse_merge(&self, p: usize, into_line: usize) -> (r: Result<
        (Option<Merge>, usize),
        ScriptIssue,
    >)
        requires
            self.ready(p),
        ensures
            match r {
                Ok((m, q)) => p <= q <= self.tokens@.len() && merge_clause(
                    self.ts(),
                    p as nat,
                    self.env(),
                    into_line,
                ) == Ok::<(Option<MergeView>, nat), IssueView>((opt_merge(m), q as nat)),
                Err(e) => merge_clause(self.ts(), p as nat, self.env(), into_line) == Err::<
                    (Option<MergeView>, nat),
                    IssueView,
                >(e@),
            },
    {
        if !self.at_kw(p, Kw::On) {
            return Ok((None, p));
        }
        let (on, q): (Condition, usize) = self.parse_paren_condition(p + 1)?;
        let mut matched: Option<Action> = None;
        let mut not_matched: Option<Action> = None;
        let mut at: usize = q;
        let ghost goal = merge_branches(self.ts(), q as nat, self.env(), None, None);
        loop
            invariant
                p < q <= at <= self.tokens@.len(),
                self.ready(p),
                is_kw(self.ts(), p as nat, Kw::On),
                crate::etl::script::grammar::paren_cond(self.ts(), (p + 1) as nat, self.env())
                    == Ok::<(CondView, nat), IssueView>((on@, q as nat)),
                goal == merge_branches(self.ts(), q as nat, self.env(), None, None),
                goal == merge_branches(
                    self.ts(),
                    at as nat,
                    self.env(),
                    opt_action(matched),
                    opt_action(not_matched),
                ),
            ensures
                goal == Ok::<((Option<ActionView>, Option<ActionView>), nat), IssueView>(
                    ((opt_action(matched), opt_action(not_matched)), at as nat),
                ),
                p < q <= at <= self.tokens@.len(),
            decreases self.tokens@.len() - at,
        {
            if self.at_kw(at, Kw::Not) {
                let e: usize = self.eat_word(at + 1, Kw::Matched, "NOT 之後的 MATCHED")?;
                if not_matched.is_some() {
                    return Err(err(self.line(e), "重複的 NOT MATCHED 區塊"));
                }
                let (a, next): (Action, usize) = self.parse_merge_branch(e)?;
                not_matched = Some(a);
                at = next;
            } else if self.at_kw(at, Kw::Matched) {
                if matched.is_some() {
                    return Err(err(self.line(at + 1), "重複的 MATCHED 區塊"));
                }
                let (a, next): (Action, usize) = self.parse_merge_branch(at + 1)?;
                matched = Some(a);
                at = next;
            } else {
                break;
            }
        }
        if matched.is_none() && not_matched.is_none() {
            return Err(
                err(
                    into_line,
                    "頂層 ON 之後需要至少一個 MATCHED 或 NOT MATCHED 區塊",
                ),
            );
        }
        Ok((Some(Merge { on, matched, not_matched }), at))
    }

    /// A parser of the same tokens with other aliases in force.
    fn with_scope(&self, scope: Scope) -> (r: Parser<'a, F>)
        ensures
            r.tokens == self.tokens,
            r.read == self.read,
            r.scope == scope,
    {
        Parser { tokens: self.tokens, scope, read: self.read }
    }

    /// Reads any number of lookups, whose aliases come into force.
    fn parse_joins(&mut self, p: usize) -> (r: Result<(Vec<Join>, usize), ScriptIssue>)
        requires
            old(self).ready(p),
        ensures
            final(self).tokens == old(self).tokens,
            final(self).read == old(self).read,
            match r {
                Ok((v, q)) => p <= q <= old(self).tokens@.len() && join_clauses(
                    old(self).ts(),
                    p as nat,
                    old(self).scope@,
                    reading(*old(self).read),
                ) == Ok::<((Seq<JoinView>, ScopeView), nat), IssueView>(
                    ((joins_view(v@), final(self).scope@), q as nat),
                ),
                Err(e) => join_clauses(
                    old(self).ts(),
                    p as nat,
                    old(self).scope@,
                    reading(*old(self).read),
                ) == Err::<((Seq<JoinView>, ScopeView), nat), IssueView>(e@),
            },
    {
        let ghost ts = self.ts();
        let ghost rd = reading(*self.read);
        let ghost goal = join_clauses(ts, p as nat, self.scope@, rd);
        let mut joins: Vec<Join> = Vec::new();
        let mut at: usize = p;
        proof {
            if let Ok(((rest, last), e)) = goal {
                assert(joins_view(joins@) + rest =~= rest);
            }
        }
        loop
            invariant
                p <= at <= self.tokens@.len(),
                self.tokens == old(self).tokens,
                self.read == old(self).read,
                self.ready(p),
                ts == self.ts(),
                rd == reading(*self.read),
                goal == join_clauses(
                    old(self).ts(),
                    p as nat,
                    old(self).scope@,
                    reading(*old(self).read),
                ),
                match join_clauses(ts, at as nat, self.scope@, rd) {
                    Ok(((rest, last), e)) => goal == Ok::<
                        ((Seq<JoinView>, ScopeView), nat),
                        IssueView,
                    >(((joins_view(joins@) + rest, last), e)),
                    Err(e) => goal == Err::<((Seq<JoinView>, ScopeView), nat), IssueView>(e),
                },
            decreases self.tokens@.len() - at,
        {
            let ghost before = joins_view(joins@);
            let inner: bool = self.at_kw(at, Kw::Inner);
            let left: bool = self.at_kw(at, Kw::Left);
            let q: usize = if inner || left { at + 1 } else { at };
            if !self.at_kw(q, Kw::Join) {
                if inner || left {
                    return Err(err(self.line(q), "INNER / LEFT 之後預期 JOIN"));
                }
                assert(before + Seq::<JoinView>::empty() =~= before);
                return Ok((joins, at));
            }
            let policy: JoinPolicy = if left { JoinPolicy::Left } else { JoinPolicy::Inner };
            let (b, e): (Binding, usize) = self.parse_binding(q + 1)?;
            let f: usize = self.eat_word(e, Kw::On, "JOIN 之後的 ON (<條件>)")?;
            let mut scope: Scope = self.scope.copy();
            scope.register(b.alias.as_str(), &b.table);
            self.scope = scope;
            let (on, next): (Condition, usize) = self.parse_paren_condition(f)?;
            let j: Join = Join { binding: b, on, policy };
            proof {
                assert(joins_view(joins@.push(j)) =~= before.push(j@));
                if let Ok(((rest, last), g)) = join_clauses(ts, next as nat, self.scope@, rd) {
                    assert(before + (seq![j@] + rest) =~= before.push(j@) + rest);
                }
            }
            joins.push(j);
            at = next;
        }
    }

    /// Reads a job that starts with FROM.
    fn parse_new_work(&self, p: usize, name: Option<String>, line: usize) -> (r: Result<
        (Work, usize),
        ScriptIssue,
    >)
        requires
            self.ready(p),
        ensures
            agrees(
                r,
                new_work(self.ts(), p as nat, text::opt_view(name), line, reading(*self.read)),
                p as int,
                self.tokens@.len(),
            ),
    {
        let q: usize = self.eat_word(p, Kw::From, "FROM")?;
        let (from, e): (Binding, usize) = self.parse_binding(q)?;
        let mut scope: Scope = Scope::empty(false);
        scope.from_alias = from.alias.clone();
        scope.register(from.alias.as_str(), &from.table);
        let mut here: Parser<'a, F> = self.with_scope(scope);
        let (joins, f): (Vec<Join>, usize) = here.parse_joins(e)?;
        let mut where_: Option<Condition> = None;
        let mut g: usize = f;
        if here.at_kw(f, Kw::Where) {
            let (c, next): (Condition, usize) = here.parse_or(f + 1)?;
            where_ = Some(c);
            g = next;
        }
        let (into, h): (IntoClause, usize) = here.parse_into(g)?;
        if let Some(a) = &into.alias {
            let mut inner: Scope = here.scope.copy();
            inner.register(a.as_str(), &into.table);
            here = here.with_scope(inner);
        }
        let (merge, i): (Option<Merge>, usize) = here.parse_merge(h, into.line)?;
        let mut plain: Option<Action> = None;
        let mut end: usize = i;
        if merge.is_none() {
            let (a, next): (Action, usize) = here.parse_action(i)?;
            plain = Some(a);
            end = next;
        }
        Ok((Work { name, from, joins, where_, into, merge, action: plain, line }, end))
    }

    fn parse_if(&self, p: usize) -> (r: Result<(Option<IfClause>, usize), ScriptIssue>)
        requires
            p <= self.tokens@.len(),
        ensures
            match r {
                Ok((c, q)) => {
                    &&& p <= q <= self.tokens@.len()
                    &&& if_clause(self.ts(), p as nat) == Ok::<(Option<IfView>, nat), IssueView>(
                        (opt_if(c), q as nat),
                    )
                    &&& c matches Some(x) ==> x.left@.len() > 0 && x.right@.len() >= 2
                },
                Err(e) => if_clause(self.ts(), p as nat) == Err::<
                    (Option<IfView>, nat),
                    IssueView,
                >(e@),
            },
    {
        if !self.at_kw(p, Kw::If) {
            return Ok((None, p));
        }
        let line: usize = self.line(p);
        let (left, _, q): (Vec<String>, usize, usize) = self.parse_raw_parts(p + 1)?;
        let e: usize = self.eat(q, Sym::Eq, "If 條件需使用 `==` 比較")?;
        let (right, _, f): (Vec<String>, usize, usize) = self.parse_raw_parts(e)?;
        assert(text::views(right@).len() == right@.len());
        if right.len() < 2 {
            return Err(
                err(
                    line,
                    "`==` 右側必須是資料表欄位（如 [db].[schema].[Table].[Col]）",
                ),
            );
        }
        Ok((Some(IfClause { left, right, line }), f))
    }

    /// Reads `[If left == right] table ADD { … }` and brings it into the form with FROM and JOIN.
    fn parse_legacy_work(&self, p: usize, name: Option<String>, line: usize) -> (r: Result<
        (Work, usize),
        ScriptIssue,
    >)
        requires
            self.ready(p),
        ensures
            agrees(
                r,
                legacy_work(self.ts(), p as nat, text::opt_view(name), line, reading(*self.read)),
                p as int,
                self.tokens@.len(),
            ),
    {
        let (cond, q): (Option<IfClause>, usize) = self.parse_if(p)?;
        let (target, tline, e): (Vec<String>, usize, usize) = self.parse_raw_parts(q)?;
        assert(text::views(target@).len() == target@.len());
        if target.len() > 3 {
            return Err(err(tline, "目標資料表最多 3 段（db.schema.table）"));
        }
        let mut from_table: Vec<String> = Vec::new();
        assert(text::views(from_table@) =~= seq![]);
        if let Some(x) = &cond {
            let table: Vec<String> = all_but_last(&x.left);
            if !all_source(&table) {
                from_table = table;
            }
        }
        proof {
            reveal_strlit("src");
            reveal_strlit("lookup");
        }
        let mut taken: Vec<String> = Vec::new();
        assert(text::views(taken@) =~= seq![]);
        let from_alias: String = derive_alias(&from_table, "src", &taken);
        taken.push(from_alias.clone());
        assert(text::views(taken@) =~= seq![from_alias@]);
        let mut scope: Scope = Scope::empty(true);
        scope.from_alias = from_alias.clone();
        scope.register(from_alias.as_str(), &from_table);
        let mut joins: Vec<Join> = Vec::new();
        assert(joins_view(joins@) =~= seq![]);
        if let Some(x) = &cond {
            let join_table: Vec<String> = all_but_last(&x.right);
            let join_alias: String = derive_alias(&join_table, "lookup", &taken);
            scope.register(join_alias.as_str(), &join_table);
            let on: Condition = Condition::Compare(
                Comparison {
                    left: Expr::Col(
                        ColRef {
                            alias: from_alias.clone(),
                            column: x.left[x.left.len() - 1].clone(),
                            line: x.line,
                        },
                    ),
                    op: CmpOp::Eq,
                    right: Expr::Col(
                        ColRef {
                            alias: join_alias.clone(),
                            column: x.right[x.right.len() - 1].clone(),
                            line: x.line,
                        },
                    ),
                    line: x.line,
                },
            );
            let j: Join = Join {
                binding: Binding {
                    alias: join_alias,
                    conn: ConnRef::Target,
                    table: join_table,
                    line: x.line,
                },
                on,
                policy: JoinPolicy::Inner,
            };
            joins.push(j);
            proof {
                assert(text::views(x.left@).last() == x.left@.last()@);
                assert(text::views(x.right@).last() == x.right@.last()@);
                assert(j@ =~= if_join(x@, from_alias@));
                assert(joins_view(joins@) =~= seq![if_join(x@, from_alias@)]);
            }
        }
        let f: usize = self.eat_word(e, Kw::Add, "目標資料表之後預期 ADD")?;
        let here: Parser<'a, F> = self.with_scope(scope);
        let (v, g): (Vec<Assignment>, usize) = here.parse_assignment_block(f)?;
        let w: Work = Work {
            name,
            from: Binding { alias: from_alias, conn: ConnRef::Source, table: from_table, line },
            joins,
            where_: None,
            into: IntoClause { conn: ConnRef::Target, table: target, alias: None, line: tline },
            merge: None,
            action: Some(Action::Add(v)),
            line,
        };
        Ok((w, g))
    }

    /// Reads the body of a job.
    fn parse_work_body(&self, p: usize, name: Option<String>, line: usize) -> (r: Result<
        (Work, usize),
        ScriptIssue,
    >)
        requires
            self.ready(p),
        ensures
            agrees(
                r,
                work_body(self.ts(), p as nat, text::opt_view(name), line, reading(*self.read)),
                p as int,
                self.tokens@.len(),
            ),
    {
        if self.at_kw(p, Kw::From) {
            return self.parse_new_work(p, name, line);
        }
        if self.at_kw(p, Kw::If) {
            return self.parse_legacy_work(p, name, line);
        }
        if p < self.tokens.len() {
            match &self.tokens[p].tok {
                Tok::Ident(s) => {
                    let up: String = text::to_upper(s.as_str());
                    if text::same(up.as_str(), "JUDGE") || text::same(up.as_str(), "EXECUTE")
                        || text::same(up.as_str(), "MATCH") {
                        return Err(
                            err(
                                line,
                                text::cat3(
                                    "`",
                                    up.as_str(),
                                    "` 為舊提案語法，請改用新子句：JUDGE/讀取→FROM/JOIN、EXECUTE/目標→INTO、MATCH→JOIN…ON 或頂層 ON + MATCHED/NOT MATCHED",
                                ).as_str(),
                            ),
                        );
                    }
                    return self.parse_legacy_work(p, name, line);
                },
                _ => {},
            }
        }
        Err(err(line, "作業需以 FROM（或舊式 If / 目標表）開始"))
    }

    /// Reads `WORK 'name' { … }`.
    fn parse_work_block(&self, p: usize) -> (r: Result<(Work, usize), ScriptIssue>)
        requires
            self.ready(p),
            p < self.tokens@.len(),
        ensures
            agrees(
                r,
                work_block(self.ts(), p as nat, reading(*self.read)),
                p as int,
                self.tokens@.len(),
            ),
    {
        let len: usize = self.tokens.len();
        let line: usize = self.line(p);
        let (name, q): (String, usize) = self.expect_str(
            p + 1,
            line,
            "WORK 之後預期 '作業名稱'（字串）",
        )?;
        let e: usize = self.eat(q, Sym::LBrace, "WORK '名稱' 之後的 `{`")?;
        let (w, f): (Work, usize) = self.parse_work_body(e, Some(name), line)?;
        let g: usize = self.eat(f, Sym::RBrace, "WORK 區塊結尾 `}`")?;
        Ok((w, g))
    }

    /// Reads the arguments of a CONNECTION source.
    fn parse_source_connection_args(&self, p: usize, line: usize) -> (r: Result<
        (ConnectionSource, usize),
        ScriptIssue,
    >)
        ensures
            agrees(r, connection_args(self.ts(), p as nat, line), p as int, self.tokens@.len()),
    {
        let q: usize = self.eat(p, Sym::LParen, "CONNECTION 之後的 `(`")?;
        let (name, e): (String, usize) = self.expect_str(
            q,
            line,
            "CONNECTION 參數需為字串（'連線名稱'）",
        )?;
        let mut src: ConnectionSource = ConnectionSource { name, table: None, query: None };
        let mut at: usize = e;
        let ghost goal = connection_params(self.ts(), e as nat, src@);
        while self.at_sym(at, Sym::Comma)
            invariant
                p < e <= at <= self.tokens@.len(),
                goal == connection_params(self.ts(), at as nat, src@),
                connection_args(self.ts(), p as nat, line) == (match goal {
                    Err(x) => Err(x),
                    Ok((s, f)) => if s.table is Some && s.query is Some {
                        Err(
                            crate::etl::script::clauses::issue(
                                line,
                                "TABLE 與 QUERY 只能擇一"@,
                            ),
                        )
                    } else {
                        Ok((s, f))
                    },
                }),
            decreases self.tokens@.len() - at,
        {
            let (key, kline, f): (String, usize, usize) = self.expect_ident(
                at + 1,
                "TABLE 或 QUERY",
            )?;
            let g: usize = self.eat(
                f,
                Sym::Assign,
                text::cat(key.as_str(), " 之後的 `=`").as_str(),
            )?;
            let up: String = text::to_upper(key.as_str());
            if text::same(up.as_str(), "TABLE") {
                let (s, next): (String, usize) = self.expect_str(
                    g,
                    kline,
                    "TABLE 需為字串（'schema.table'）",
                )?;
                src.table = Some(s);
                at = next;
            } else if text::same(up.as_str(), "QUERY") {
                let (s, next): (String, usize) = self.expect_str(
                    g,
                    kline,
                    "QUERY 需為字串（'SELECT ...'）",
                )?;
                src.query = Some(s);
                at = next;
            } else {
                return Err(
                    err(kline, text::cat("未知的 CONNECTION 參數 ", up.as_str()).as_str()),
                );
            }
        }
        let h: usize = self.eat(at, Sym::RParen, "CONNECTION(...) 的 `)`")?;
        if src.table.is_some() && src.query.is_some() {
            return Err(err(line, "TABLE 與 QUERY 只能擇一"));
        }
        Ok((src, h))
    }

    /// Reads `CONNECTION('name')` of a target.
    fn parse_connection_ref(&self, p: usize, line: usize) -> (r: Result<
        (String, usize),
        ScriptIssue,
    >)
        ensures
            agrees(r, connection_ref(self.ts(), p as nat, line), p as int, self.tokens@.len()),
    {
        let (func, _, q): (String, usize, usize) = self.expect_ident(
            p,
            "CONNECTION('已儲存連線名稱')",
        )?;
        let up: String = text::to_upper(func.as_str());
        if !text::same(up.as_str(), "CONNECTION") {
            return Err(
                err(
                    line,
                    "TARGET 僅支援 CONNECTION('已儲存連線名稱')——密碼存於系統金鑰圈，不寫入腳本",
                ),
            );
        }
        let e: usize = self.eat(q, Sym::LParen, "CONNECTION 之後的 `(`")?;
        let (name, f): (String, usize) = self.expect_str(
            e,
            line,
            "CONNECTION 參數需為字串（'連線名稱'）",
        )?;
        let g: usize = self.eat(f, Sym::RParen, "CONNECTION('...') 的 `)`")?;
        Ok((name, g))
    }

    /// Reads the value of one FILE parameter.
    fn parse_file_param(&self, p: usize, up: &str, kline: usize, fs: FileSource) -> (r: Result<
        (FileSource, usize),
        ScriptIssue,
    >)
        ensures
            agrees(
                r,
                file_param(self.ts(), p as nat, up@, kline, fs@),
                p as int,
                self.tokens@.len(),
            ),
    {
        let mut fs: FileSource = fs;
        if text::same(up, "TYPE") {
            if p < self.tokens.len() {
                match &self.tokens[p].tok {
                    Tok::Ident(_) => {
                        return Ok((fs, p + 1));
                    },
                    Tok::Str(_) => {
                        return Ok((fs, p + 1));
                    },
                    _ => {},
                }
            }
            Err(err(kline, "TYPE 需為格式名稱（如 CSV、XLSX）"))
        } else if text::same(up, "PATH") {
            let (s, q): (String, usize) = self.expect_str(p, kline, "PATH 需為字串（'...'）")?;
            fs.path = s;
            Ok((fs, q))
        } else if text::same(up, "SHEET") {
            let (s, q): (String, usize) = self.expect_str(p, kline, "SHEET 需為字串")?;
            fs.sheet = Some(s);
            Ok((fs, q))
        } else if text::same(up, "ENCODING") {
            let (s, q): (String, usize) = self.expect_str(
                p,
                kline,
                "ENCODING 需為字串（如 'Big5'）",
            )?;
            fs.encoding = Some(s);
            Ok((fs, q))
        } else if text::same(up, "HEADER") {
            if self.at_kw(p, Kw::True) {
                fs.has_header = Some(true);
                Ok((fs, p + 1))
            } else if self.at_kw(p, Kw::False) {
                fs.has_header = Some(false);
                Ok((fs, p + 1))
            } else {
                Err(err(kline, "HEADER 需為 TRUE / FALSE"))
            }
        } else {
            Err(err(kline, text::cat("未知的 FILE 參數 ", up).as_str()))
        }
    }

    /// Reads the arguments of a FILE source.
    fn parse_file_args(&self, p: usize, line: usize) -> (r: Result<
        (FileSource, usize),
        ScriptIssue,
    >)
        ensures
            agrees(r, file_args(self.ts(), p as nat, line), p as int, self.tokens@.len()),
    {
        let q: usize = self.eat(p, Sym::LParen, "FILE 之後的 `(`")?;
        let mut fs: FileSource = FileSource {
            path: String::new(),
            sheet: None,
            encoding: None,
            has_header: None,
        };
        let mut first: bool = true;
        let mut at: usize = q;
        let ghost goal = file_params(self.ts(), q as nat, fs@, true);
        proof {
            assert(fs@ =~= FileSourceView {
                path: seq![],
                sheet: None,
                encoding: None,
                has_header: None,
            });
        }
        while !self.at_sym(at, Sym::RParen)
            invariant
                p < q <= at <= self.tokens@.len(),
                goal == file_params(self.ts(), at as nat, fs@, first),
                file_args(self.ts(), p as nat, line) == (match goal {
                    Err(x) => Err(x),
                    Ok((s, f)) => if s.path.len() == 0 {
                        Err(
                            crate::etl::script::clauses::issue(
                                line,
                                "FILE(...) 需要 PATH 參數"@,
                            ),
                        )
                    } else {
                        Ok((s, f))
                    },
                }),
            decreases self.tokens@.len() - at,
        {
            let mut from: usize = at;
            if !first {
                if !self.at_sym(at, Sym::Comma) {
                    let behind: usize = if at < self.tokens.len() { at + 1 } else { at };
                    return Err(err(self.line(behind), "FILE 參數之間需以 `,` 分隔"));
                }
                from = at + 1;
            }
            let (key, kline, e): (String, usize, usize) = self.expect_ident(
                from,
                "FILE 參數名稱（PATH / SHEET / ENCODING / HEADER / TYPE）",
            )?;
            let f: usize = self.eat(
                e,
                Sym::Assign,
                text::cat(key.as_str(), " 之後的 `=`").as_str(),
            )?;
            let up: String = text::to_upper(key.as_str());
            let (filled, next): (FileSource, usize) = self.parse_file_param(
                f,
                up.as_str(),
                kline,
                fs,
            )?;
            fs = filled;
            first = false;
            at = next;
        }
        if fs.path.as_str().is_empty() {
            return Err(err(line, "FILE(...) 需要 PATH 參數"));
        }
        Ok((fs, at + 1))
    }

    fn parse_source_decl(&self, p: usize, line: usize) -> (r: Result<
        (SourceDecl, usize),
        ScriptIssue,
    >)
        ensures
            agrees(r, source_decl(self.ts(), p as nat, line), p as int, self.tokens@.len()),
    {
        let (func, _, q): (String, usize, usize) = self.expect_ident(
            p,
            "FILE(...) 或 CONNECTION('名稱')",
        )?;
        let up: String = text::to_upper(func.as_str());
        if text::same(up.as_str(), "FILE") {
            let (f, e): (FileSource, usize) = self.parse_file_args(q, line)?;
            Ok((SourceDecl::File(f), e))
        } else if text::same(up.as_str(), "CONNECTION") {
            let (c, e): (ConnectionSource, usize) = self.parse_source_connection_args(q, line)?;
            Ok((SourceDecl::Connection(c), e))
        } else {
            Err(
                err(
                    line,
                    text::cat3(
                        "未知的來源型式 ",
                        up.as_str(),
                        "（支援 FILE / CONNECTION）",
                    ).as_str(),
                ),
            )
        }
    }

    /// Reads `SOURCE = …` and `TARGET = …` at the start of a script.
    fn parse_header(&self) -> (r: Result<(ScriptHeader, usize), ScriptIssue>)
        ensures
            agrees(r, header_decls(self.ts(), 0, no_header()), -1, self.tokens@.len()),
    {
        let mut h: ScriptHeader = ScriptHeader { source: None, target_connection: None };
        let mut at: usize = 0;
        let ghost goal = header_decls(self.ts(), 0, no_header());
        loop
            invariant
                at <= self.tokens@.len(),
                goal == header_decls(self.ts(), 0, no_header()),
                goal == header_decls(self.ts(), at as nat, h@),
            ensures
                at <= self.tokens@.len(),
                goal == Ok::<(HeaderView, nat), IssueView>((h@, at as nat)),
            decreases self.tokens@.len() - at,
        {
            let line: usize = self.line(at);
            let source: bool = self.at_kw(at, Kw::Source);
            let target: bool = self.at_kw(at, Kw::Target);
            if !(source || target) {
                break;
            }
            if !self.at_sym(at + 1, Sym::Assign) {
                break;
            }
            if source {
                if h.source.is_some() {
                    return Err(err(line, "重複的 SOURCE 宣告"));
                }
                let (s, next): (SourceDecl, usize) = self.parse_source_decl(at + 2, line)?;
                h.source = Some(s);
                at = next;
            } else {
                if h.target_connection.is_some() {
                    return Err(err(line, "重複的 TARGET 宣告"));
                }
                let (s, next): (String, usize) = self.parse_connection_ref(at + 2, line)?;
                h.target_connection = Some(s);
                at = next;
            }
        }
        Ok((h, at))
    }

    /// Reads one job: a WORK block, or a bare body.
    fn parse_one_work(&self, p: usize) -> (r: Result<(Work, usize), ScriptIssue>)
        requires
            self.ready(p),
            p < self.tokens@.len(),
        ensures
            agrees(
                r,
                one_work(self.ts(), p as nat, reading(*self.read)),
                p as int,
                self.tokens@.len(),
            ),
    {
        proof {
            reveal(one_work);
        }
        if self.at_kw(p, Kw::Work) {
            self.parse_work_block(p)
        } else {
            self.parse_work_body(p, None, self.line(p))
        }
    }

    /// Reads the jobs up to the end.
    fn parse_works(&self, p: usize) -> (r: Result<Vec<Work>, ScriptIssue>)
        requires
            self.ready(p),
        ensures
            match r {
                Ok(v) => work_list(self.ts(), p as nat, reading(*self.read)) == Ok::<
                    Seq<WorkView>,
                    IssueView,
                >(works_view(v@)),
                Err(e) => work_list(self.ts(), p as nat, reading(*self.read)) == Err::<
                    Seq<WorkView>,
                    IssueView,
                >(e@),
            },
    {
        let ghost ts = self.ts();
        let ghost rd = reading(*self.read);
        let ghost goal = work_list(ts, p as nat, rd);
        let mut works: Vec<Work> = Vec::new();
        let mut at: usize = p;
        proof {
            if let Ok(rest) = goal {
                assert(works_view(works@) + rest =~= rest);
            }
        }
        loop
            invariant
                p <= at <= self.tokens@.len(),
                self.ready(p),
                ts == self.ts(),
                rd == reading(*self.read),
                goal == work_list(ts, p as nat, rd),
                match work_list(ts, at as nat, rd) {
                    Ok(rest) => goal == Ok::<Seq<WorkView>, IssueView>(works_view(works@) + rest),
                    Err(e) => goal == Err::<Seq<WorkView>, IssueView>(e),
                },
            decreases self.tokens@.len() - at,
        {
            let mut q: usize = at;
            while self.at_kw(q, Kw::Go)
                invariant
                    at <= q <= self.tokens@.len(),
                    ts == self.ts(),
                    skip_go(ts, at as nat) == skip_go(ts, q as nat),
                decreases self.tokens@.len() - q,
            {
                q += 1;
            }
            let ghost before = works_view(works@);
            if q >= self.tokens.len() {
                assert(before + Seq::<WorkView>::empty() =~= before);
                return Ok(works);
            }
            let (w, next): (Work, usize) = self.parse_one_work(q)?;
            if next < self.tokens.len() && !self.at_kw(next, Kw::Go) && !self.at_kw(
                next,
                Kw::Work,
            ) {
                return Err(
                    err(self.line(next), "工作項目結束後預期 WORK、GO 或檔案結尾"),
                );
            }
            proof {
                assert(works_view(works@.push(w)) =~= before.push(w@));
                if let Ok(rest) = work_list(ts, next as nat, rd) {
                    assert(before + (seq![w@] + rest) =~= before.push(w@) + rest);
                }
            }
            works.push(w);
            at = next;
        }
    }
}

/// Parses a script: an optional SOURCE / TARGET header, then jobs, GO between
/// them or not. `read` turns the decimal text of a number into a double.
pub fn parse<F: Fn(String) -> Option<Real>>(input: &str, read: &F) -> (r: Result<
    Script,
    ScriptIssue,
>)
    requires
        is_reader(*read),
    ensures
        match r {
            Ok(s) => parse_spec(input@, reading(*read)) == Ok::<ScriptView, IssueView>(s@),
            Err(e) => parse_spec(input@, reading(*read)) == Err::<ScriptView, IssueView>(e@),
        },
{
    let tokens: Vec<Token> = lex(input)?;
    let parser: Parser<F> = Parser { tokens: &tokens, scope: Scope::empty(false), read };
    let (header, p): (ScriptHeader, usize) = parser.parse_header()?;
    let works: Vec<Work> = parser.parse_works(p)?;
    assert(works_view(works@).len() == works@.len());
    if works.len() == 0 {
        return Err(err(1, "腳本為空"));
    }
    Ok(Script { header, works })
}

} // verus!
