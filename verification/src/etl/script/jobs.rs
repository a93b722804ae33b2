//! What clauses, jobs, headers and whole scripts mean.
use crate::double::Reading;
use crate::etl::script::alias::alias_for;
use crate::etl::script::ast::{CmpOp, ColRefView, ComparisonView, CondView, ExprView};
use crate::etl::script::clauses::{
    issue, ActionView, AssignmentView, BindingView, ConnRef, ConnectionSourceView, FileSourceView,
    HeaderView, IntoView, IssueView, JoinPolicy, JoinView, MergeView, ScriptView, SourceDeclView,
    WorkView,
};
use crate::etl::script::grammar::{
    after, dotted, eat_kw, eat_sym, expr, ident, is_ident_like, is_kw, is_sym, line_at, or_cond,
    paren_cond, quoted_text, raw_parts, stuck, tok_at, Env, Parsed,
};
use crate::etl::script::lexer::{lex_spec, Kw, Sym, TokView, TokenView};
use crate::etl::script::scope::{no_scope, with_alias, ScopeView};
use crate::text;
use vstd::prelude::*;

verus! {

/// `SOURCE` or `TARGET`.
pub open spec fn conn_ref(ts: Seq<TokenView>, p: nat, line: usize) -> Parsed<ConnRef> {
    if is_kw(ts, p, Kw::Source) {
        Ok((ConnRef::Source, p + 1))
    } else if is_kw(ts, p, Kw::Target) {
        Ok((ConnRef::Target, p + 1))
    } else {
        Err(issue(line, "FROM / JOIN / INTO 來源需為 SOURCE 或 TARGET"@))
    }
}

/// `.[segment]…` of a table path.
pub open spec fn table_path(ts: Seq<TokenView>, p: nat) -> Parsed<Seq<Seq<char>>> {
    dotted(ts, p, "`.` 之後的資料表段"@)
}

/// `alias = SOURCE.[segment]…`.
pub open spec fn binding(ts: Seq<TokenView>, p: nat) -> Parsed<BindingView> {
    match ident(ts, p, "別名（如 entra / account）"@) {
        Err(e) => Err(e),
        Ok(((alias, line), q)) => match eat_sym(
            ts,
            q,
            Sym::Assign,
            "別名 "@ + alias + " 之後的 `=`"@,
        ) {
            Err(e) => Err(e),
            Ok(r) => match conn_ref(ts, r, line) {
                Err(e) => Err(e),
                Ok((conn, s)) => match table_path(ts, s) {
                    Err(e) => Err(e),
                    Ok((table, t)) => Ok((BindingView { alias, conn, table, line }, t)),
                },
            },
        },
    }
}

/// The rest of INTO behind its optional alias.
pub open spec fn into_rest(
    ts: Seq<TokenView>,
    p: nat,
    alias: Option<Seq<char>>,
    line: usize,
) -> Parsed<IntoView> {
    match conn_ref(ts, p, line) {
        Err(e) => Err(e),
        Ok((conn, q)) => if conn != ConnRef::Target {
            Err(issue(line, "INTO 目標必須是 TARGET（檔案不可當目標）"@))
        } else {
            match table_path(ts, q) {
                Err(e) => Err(e),
                Ok((table, r)) => if table.len() == 0 {
                    Err(issue(line, "INTO 之後需指定目標資料表"@))
                } else if is_ident_like(ts, r, "AS"@) {
                    Err(
                        issue(
                            line_at(ts, r),
                            "別名請寫成 `INTO 別名 = TARGET.[…]`（不支援 `AS`）"@,
                        ),
                    )
                } else {
                    Ok((IntoView { conn, table, alias, line }, r))
                },
            }
        },
    }
}

/// `INTO [alias =] TARGET.[segment]…`.
pub open spec fn into_clause(ts: Seq<TokenView>, p: nat) -> Parsed<IntoView> {
    let line = line_at(ts, p);
    match eat_kw(ts, p, Kw::Into, "INTO"@) {
        Err(e) => Err(e),
        Ok(q) => match tok_at(ts, q) {
            Some(TokView::Ident(a)) => if is_sym(ts, q + 1, Sym::Assign) {
                into_rest(ts, q + 2, Some(a), line)
            } else {
                into_rest(ts, q, None, line)
            },
            _ => into_rest(ts, q, None, line),
        },
    }
}

/// `column = expression`.
pub open spec fn assignment(ts: Seq<TokenView>, p: nat, env: Env) -> Parsed<AssignmentView> {
    match ident(ts, p, "目標欄位名稱"@) {
        Err(e) => Err(e),
        Ok(((column, line), q)) => match eat_sym(
            ts,
            q,
            Sym::Assign,
            "欄位 "@ + column + " 之後的 `=`"@,
        ) {
            Err(e) => Err(e),
            Ok(r) => match expr(ts, r, env) {
                Err(e) => Err(e),
                Ok((value, s)) => Ok((AssignmentView { target_column: column, value, line }, s)),
            },
        },
    }
}

/// Assignments separated by commas, up to the closing brace.
pub open spec fn assignments_rest(ts: Seq<TokenView>, p: nat, env: Env, first: bool) -> Parsed<
    Seq<AssignmentView>,
>
    decreases ts.len() - p,
{
    if is_sym(ts, p, Sym::RBrace) {
        Ok((seq![], p + 1))
    } else if !first && !is_sym(ts, p, Sym::Comma) {
        Err(issue(line_at(ts, after(ts, p)), "欄位指派之間需以 `,` 分隔"@))
    } else {
        match assignment(
            ts,
            if first {
                p
            } else {
                p + 1
            },
            env,
        ) {
            Err(e) => Err(e),
            Ok((a, q)) => if !(p < q <= ts.len()) {
                stuck()
            } else {
                match assignments_rest(ts, q, env, false) {
                    Err(e) => Err(e),
                    Ok((rest, r)) => Ok((seq![a] + rest, r)),
                }
            },
        }
    }
}

/// `{ column = expression, … }`.
pub open spec fn assignment_block(ts: Seq<TokenView>, p: nat, env: Env) -> Parsed<
    Seq<AssignmentView>,
> {
    match eat_sym(ts, p, Sym::LBrace, "`{`"@) {
        Err(e) => Err(e),
        Ok(q) => assignments_rest(ts, q, env, true),
    }
}

/// `ADD { … }`, `UPDATE { … }`, `SKIP` or `DELETE`.
pub open spec fn action(ts: Seq<TokenView>, p: nat, env: Env) -> Parsed<ActionView> {
    if is_kw(ts, p, Kw::Add) {
        match assignment_block(ts, p + 1, env) {
            Err(e) => Err(e),
            Ok((v, q)) => Ok((ActionView::Add(v), q)),
        }
    } else if is_kw(ts, p, Kw::Update) {
        match assignment_block(ts, p + 1, env) {
            Err(e) => Err(e),
            Ok((v, q)) => Ok((ActionView::Update(v), q)),
        }
    } else if is_kw(ts, p, Kw::Skip) {
        Ok((ActionView::Skip, p + 1))
    } else if is_kw(ts, p, Kw::Delete) {
        Ok((ActionView::Delete, p + 1))
    } else {
        Err(issue(line_at(ts, p), "預期動作 ADD / UPDATE / SKIP / DELETE"@))
    }
}

/// The body of a `MATCHED` or `NOT MATCHED` branch.
pub open spec fn merge_branch(ts: Seq<TokenView>, p: nat, env: Env) -> Parsed<ActionView> {
    match eat_sym(ts, p, Sym::LBrace, "MATCHED / NOT MATCHED 之後的 `{`"@) {
        Err(e) => Err(e),
        Ok(q) => match action(ts, q, env) {
            Err(e) => Err(e),
            Ok((a, r)) => match eat_sym(
                ts,
                r,
                Sym::RBrace,
                "MATCHED / NOT MATCHED 區塊結尾 `}`"@,
            ) {
                Err(e) => Err(e),
                Ok(s) => Ok((a, s)),
            },
        },
    }
}

/// `MATCHED { … }` and `NOT MATCHED { … }` in any order, each at most once.
pub open spec fn merge_branches(
    ts: Seq<TokenView>,
    p: nat,
    env: Env,
    matched: Option<ActionView>,
    not_matched: Option<ActionView>,
) -> Parsed<(Option<ActionView>, Option<ActionView>)>
    decreases ts.len() - p,
{
    if is_kw(ts, p, Kw::Not) {
        match eat_kw(ts, p + 1, Kw::Matched, "NOT 之後的 MATCHED"@) {
            Err(e) => Err(e),
            Ok(q) => if not_matched is Some {
                Err(issue(line_at(ts, q), "重複的 NOT MATCHED 區塊"@))
            } else {
                match merge_branch(ts, q, env) {
                    Err(e) => Err(e),
                    Ok((a, r)) => if !(p < r <= ts.len()) {
                        stuck()
                    } else {
                        merge_branches(ts, r, env, matched, Some(a))
                    },
                }
            },
        }
    } else if is_kw(ts, p, Kw::Matched) {
        if matched is Some {
            Err(issue(line_at(ts, p + 1), "重複的 MATCHED 區塊"@))
        } else {
            match merge_branch(ts, p + 1, env) {
                Err(e) => Err(e),
                Ok((a, r)) => if !(p < r <= ts.len()) {
                    stuck()
                } else {
                    merge_branches(ts, r, env, Some(a), not_matched)
                },
            }
        }
    } else {
        Ok(((matched, not_matched), p))
    }
}

/// `ON (condition)` with its branches, where there is one.
pub open spec fn merge_clause(ts: Seq<TokenView>, p: nat, env: Env, into_line: usize) -> Parsed<
    Option<MergeView>,
> {
    if !is_kw(ts, p, Kw::On) {
        Ok((None, p))
    } else {
        match paren_cond(ts, p + 1, env) {
            Err(e) => Err(e),
            Ok((on, q)) => match merge_branches(ts, q, env, None, None) {
                Err(e) => Err(e),
                Ok(((matched, not_matched), r)) => if matched is None && not_matched is None {
                    Err(
                        issue(
                            into_line,
                            "頂層 ON 之後需要至少一個 MATCHED 或 NOT MATCHED 區塊"@,
                        ),
                    )
                } else {
                    Ok((Some(MergeView { on, matched, not_matched }), r))
                },
            },
        }
    }
}

pub open spec fn join_policy(ts: Seq<TokenView>, p: nat) -> Option<JoinPolicy> {
    if is_kw(ts, p, Kw::Inner) {
        Some(JoinPolicy::Inner)
    } else if is_kw(ts, p, Kw::Left) {
        Some(JoinPolicy::Left)
    } else {
        None
    }
}

/// One lookup behind its JOIN keyword, and the scope with its alias.
pub open spec fn join_clause(
    ts: Seq<TokenView>,
    p: nat,
    scope: ScopeView,
    rd: Reading,
    policy: JoinPolicy,
) -> Parsed<(JoinView, ScopeView)> {
    match binding(ts, p) {
        Err(e) => Err(e),
        Ok((b, q)) => match eat_kw(ts, q, Kw::On, "JOIN 之後的 ON (<條件>)"@) {
            Err(e) => Err(e),
            Ok(r) => {
                let inner = with_alias(scope, b.alias, b.table);
                match paren_cond(ts, r, Env { scope: inner, rd }) {
                    Err(e) => Err(e),
                    Ok((on, s)) => Ok(((JoinView { binding: b, on, policy }, inner), s)),
                }
            },
        },
    }
}

/// Any number of lookups, and the scope with their aliases.
pub open spec fn join_clauses(ts: Seq<TokenView>, p: nat, scope: ScopeView, rd: Reading) -> Parsed<
    (Seq<JoinView>, ScopeView),
>
    decreases ts.len() - p,
{
    let policy = join_policy(ts, p);
    let q = if policy is Some {
        p + 1
    } else {
        p
    };
    if !is_kw(ts, q, Kw::Join) {
        if policy is Some {
            Err(issue(line_at(ts, q), "INNER / LEFT 之後預期 JOIN"@))
        } else {
            Ok(((seq![], scope), p))
        }
    } else {
        match join_clause(
            ts,
            q + 1,
            scope,
            rd,
            match policy {
                Some(x) => x,
                None => JoinPolicy::Inner,
            },
        ) {
            Err(e) => Err(e),
            Ok(((j, inner), r)) => if !(p < r <= ts.len()) {
                stuck()
            } else {
                match join_clauses(ts, r, inner, rd) {
                    Err(e) => Err(e),
                    Ok(((rest, last), s)) => Ok(((seq![j] + rest, last), s)),
                }
            },
        }
    }
}

/// `WHERE condition`, where there is one.
pub open spec fn where_clause(ts: Seq<TokenView>, p: nat, env: Env) -> Parsed<Option<CondView>> {
    if is_kw(ts, p, Kw::Where) {
        match or_cond(ts, p + 1, env) {
            Err(e) => Err(e),
            Ok((c, q)) => Ok((Some(c), q)),
        }
    } else {
        Ok((None, p))
    }
}

/// The scope of a job whose FROM is known.
pub open spec fn from_scope(alias: Seq<char>, table: Seq<Seq<char>>, legacy: bool) -> ScopeView {
    with_alias(ScopeView { from_alias: alias, ..no_scope(legacy) }, alias, table)
}

/// What is written: the merge, or else the plain action.
pub open spec fn write_clause(ts: Seq<TokenView>, p: nat, env: Env, into_line: usize) -> Parsed<
    (Option<MergeView>, Option<ActionView>),
> {
    match merge_clause(ts, p, env, into_line) {
        Err(e) => Err(e),
        Ok((Some(m), q)) => Ok(((Some(m), None), q)),
        Ok((None, q)) => match action(ts, q, env) {
            Err(e) => Err(e),
            Ok((a, r)) => Ok(((None, Some(a)), r)),
        },
    }
}

/// `FROM … JOIN … WHERE … INTO … ON … ADD …`.
pub open spec fn new_work(
    ts: Seq<TokenView>,
    p: nat,
    name: Option<Seq<char>>,
    line: usize,
    rd: Reading,
) -> Parsed<WorkView> {
    match eat_kw(ts, p, Kw::From, "FROM"@) {
        Err(e) => Err(e),
        Ok(q) => match binding(ts, q) {
            Err(e) => Err(e),
            Ok((from, r)) => match join_clauses(
                ts,
                r,
                from_scope(from.alias, from.table, false),
                rd,
            ) {
                Err(e) => Err(e),
                Ok(((joins, scope), s)) => match where_clause(ts, s, Env { scope, rd }) {
                    Err(e) => Err(e),
                    Ok((where_, t)) => match into_clause(ts, t) {
                        Err(e) => Err(e),
                        Ok((into, u)) => {
                            let inner = match into.alias {
                                Some(a) => with_alias(scope, a, into.table),
                                None => scope,
                            };
                            match write_clause(ts, u, Env { scope: inner, rd }, into.line) {
                                Err(e) => Err(e),
                                Ok(((merge, plain), v)) => Ok(
                                    (
                                        WorkView {
                                            name,
                                            from,
                                            joins,
                                            where_,
                                            into,
                                            merge,
                                            action: plain,
                                            line,
                                        },
                                        v,
                                    ),
                                ),
                            }
                        },
                    },
                },
            },
        },
    }
}

/// The two columns of an `If left == right`, and its line.
pub struct IfView {
    pub left: Seq<Seq<char>>,
    pub right: Seq<Seq<char>>,
    pub line: usize,
}

/// `If left == right`, where there is one.
pub open spec fn if_clause(ts: Seq<TokenView>, p: nat) -> Parsed<Option<IfView>> {
    if !is_kw(ts, p, Kw::If) {
        Ok((None, p))
    } else {
        let line = line_at(ts, p);
        match raw_parts(ts, p + 1) {
            Err(e) => Err(e),
            Ok(((left, _), q)) => match eat_sym(ts, q, Sym::Eq, "If 條件需使用 `==` 比較"@) {
                Err(e) => Err(e),
                Ok(r) => match raw_parts(ts, r) {
                    Err(e) => Err(e),
                    Ok(((right, _), s)) => if right.len() < 2 {
                        Err(
                            issue(
                                line,
                                "`==` 右側必須是資料表欄位（如 [db].[schema].[Table].[Col]）"@,
                            ),
                        )
                    } else {
                        Ok((Some(IfView { left, right, line }), s))
                    },
                },
            },
        }
    }
}

/// Every segment reads `source`, in any case.
pub open spec fn names_source(table: Seq<Seq<char>>) -> bool {
    forall|i: int|
        0 <= i < table.len() ==> text::same_ignoring_case(#[trigger] table[i], "source"@)
}

/// The table that the left side of an If reads from.
pub open spec fn if_from_table(c: Option<IfView>) -> Seq<Seq<char>> {
    match c {
        Some(x) => if names_source(x.left.drop_last()) {
            seq![]
        } else {
            x.left.drop_last()
        },
        None => seq![],
    }
}

/// The lookup that an If stands for.
pub open spec fn if_join(x: IfView, from_alias: Seq<char>) -> JoinView {
    let table = x.right.drop_last();
    let alias = alias_for(table, "lookup"@, seq![from_alias]);
    JoinView {
        binding: BindingView { alias, conn: ConnRef::Target, table, line: x.line },
        on: CondView::Compare(
            ComparisonView {
                left: ExprView::Col(
                    ColRefView { alias: from_alias, column: x.left.last(), line: x.line },
                ),
                op: CmpOp::Eq,
                right: ExprView::Col(
                    ColRefView { alias, column: x.right.last(), line: x.line },
                ),
                line: x.line,
            },
        ),
        policy: JoinPolicy::Inner,
    }
}

/// `[If left == right] table ADD { … }`, brought into the form with FROM and JOIN.
pub open spec fn legacy_work(
    ts: Seq<TokenView>,
    p: nat,
    name: Option<Seq<char>>,
    line: usize,
    rd: Reading,
) -> Parsed<WorkView> {
    match if_clause(ts, p) {
        Err(e) => Err(e),
        Ok((cond, q)) => match raw_parts(ts, q) {
            Err(e) => Err(e),
            Ok(((target, tline), r)) => if target.len() > 3 {
                Err(issue(tline, "目標資料表最多 3 段（db.schema.table）"@))
            } else {
                let from_table = if_from_table(cond);
                let from_alias = alias_for(from_table, "src"@, seq![]);
                let outer = from_scope(from_alias, from_table, true);
                let joins = match cond {
                    Some(x) => seq![if_join(x, from_alias)],
                    None => seq![],
                };
                let scope = match cond {
                    Some(x) => with_alias(
                        outer,
                        if_join(x, from_alias).binding.alias,
                        x.right.drop_last(),
                    ),
                    None => outer,
                };
                match eat_kw(ts, r, Kw::Add, "目標資料表之後預期 ADD"@) {
                    Err(e) => Err(e),
                    Ok(s) => match assignment_block(ts, s, Env { scope, rd }) {
                        Err(e) => Err(e),
                        Ok((v, t)) => Ok(
                            (
                                WorkView {
                                    name,
                                    from: BindingView {
                                        alias: from_alias,
                                        conn: ConnRef::Source,
                                        table: from_table,
                                        line,
                                    },
                                    joins,
                                    where_: None,
                                    into: IntoView {
                                        conn: ConnRef::Target,
                                        table: target,
                                        alias: None,
                                        line: tline,
                                    },
                                    merge: None,
                                    action: Some(ActionView::Add(v)),
                                    line,
                                },
                                t,
                            ),
                        ),
                    },
                }
            },
        },
    }
}

/// The body of a job.
pub open spec fn work_body(
    ts: Seq<TokenView>,
    p: nat,
    name: Option<Seq<char>>,
    line: usize,
    rd: Reading,
) -> Parsed<WorkView> {
    match tok_at(ts, p) {
        Some(TokView::Kw(Kw::From)) => new_work(ts, p, name, line, rd),
        Some(TokView::Kw(Kw::If)) => legacy_work(ts, p, name, line, rd),
        Some(TokView::Ident(s)) => {
            let up = text::upper(s);
            if up == "JUDGE"@ || up == "EXECUTE"@ || up == "MATCH"@ {
                Err(
                    issue(
                        line,
                        "`"@ + up
                            + "` 為舊提案語法，請改用新子句：JUDGE/讀取→FROM/JOIN、EXECUTE/目標→INTO、MATCH→JOIN…ON 或頂層 ON + MATCHED/NOT MATCHED"@,
                    ),
                )
            } else {
                legacy_work(ts, p, name, line, rd)
            }
        },
        _ => Err(issue(line, "作業需以 FROM（或舊式 If / 目標表）開始"@)),
    }
}

/// `WORK 'name' { … }`.
pub open spec fn work_block(ts: Seq<TokenView>, p: nat, rd: Reading) -> Parsed<WorkView> {
    let line = line_at(ts, p);
    match quoted_text(ts, p + 1, line, "WORK 之後預期 '作業名稱'（字串）"@) {
        Err(e) => Err(e),
        Ok((name, q)) => match eat_sym(ts, q, Sym::LBrace, "WORK '名稱' 之後的 `{`"@) {
            Err(e) => Err(e),
            Ok(r) => match work_body(ts, r, Some(name), line, rd) {
                Err(e) => Err(e),
                Ok((w, s)) => match eat_sym(ts, s, Sym::RBrace, "WORK 區塊結尾 `}`"@) {
                    Err(e) => Err(e),
                    Ok(t) => Ok((w, t)),
                },
            },
        },
    }
}

/// The parameters of a CONNECTION source behind its name, up to the closing parenthesis.
pub open spec fn connection_params(ts: Seq<TokenView>, p: nat, src: ConnectionSourceView) -> Parsed<
    ConnectionSourceView,
>
    decreases ts.len() - p,
{
    if !is_sym(ts, p, Sym::Comma) {
        match eat_sym(ts, p, Sym::RParen, "CONNECTION(...) 的 `)`"@) {
            Err(e) => Err(e),
            Ok(q) => Ok((src, q)),
        }
    } else {
        match ident(ts, p + 1, "TABLE 或 QUERY"@) {
            Err(e) => Err(e),
            Ok(((key, kline), q)) => match eat_sym(ts, q, Sym::Assign, key + " 之後的 `=`"@) {
                Err(e) => Err(e),
                Ok(r) => {
                    let up = text::upper(key);
                    if up == "TABLE"@ {
                        match quoted_text(ts, r, kline, "TABLE 需為字串（'schema.table'）"@) {
                            Err(e) => Err(e),
                            Ok((s, t)) => connection_params(
                                ts,
                                t,
                                ConnectionSourceView { table: Some(s), ..src },
                            ),
                        }
                    } else if up == "QUERY"@ {
                        match quoted_text(ts, r, kline, "QUERY 需為字串（'SELECT ...'）"@) {
                            Err(e) => Err(e),
                            Ok((s, t)) => connection_params(
                                ts,
                                t,
                                ConnectionSourceView { query: Some(s), ..src },
                            ),
                        }
                    } else {
                        Err(issue(kline, "未知的 CONNECTION 參數 "@ + up))
                    }
                },
            },
        }
    }
}

/// `('name'[, TABLE = '…'][, QUERY = '…'])`.
pub open spec fn connection_args(ts: Seq<TokenView>, p: nat, line: usize) -> Parsed<
    ConnectionSourceView,
> {
    match eat_sym(ts, p, Sym::LParen, "CONNECTION 之後的 `(`"@) {
        Err(e) => Err(e),
        Ok(q) => match quoted_text(ts, q, line, "CONNECTION 參數需為字串（'連線名稱'）"@) {
            Err(e) => Err(e),
            Ok((name, r)) => match connection_params(
                ts,
                r,
                ConnectionSourceView { name, table: None, query: None },
            ) {
                Err(e) => Err(e),
                Ok((src, s)) => if src.table is Some && src.query is Some {
                    Err(issue(line, "TABLE 與 QUERY 只能擇一"@))
                } else {
                    Ok((src, s))
                },
            },
        },
    }
}

/// `CONNECTION('name')` of a target.
pub open spec fn connection_ref(ts: Seq<TokenView>, p: nat, line: usize) -> Parsed<Seq<char>> {
    match ident(ts, p, "CONNECTION('已儲存連線名稱')"@) {
        Err(e) => Err(e),
        Ok(((func, _), q)) => if text::upper(func) != "CONNECTION"@ {
            Err(
                issue(
                    line,
                    "TARGET 僅支援 CONNECTION('已儲存連線名稱')——密碼存於系統金鑰圈，不寫入腳本"@,
                ),
            )
        } else {
            match eat_sym(ts, q, Sym::LParen, "CONNECTION 之後的 `(`"@) {
                Err(e) => Err(e),
                Ok(r) => match quoted_text(
                    ts,
                    r,
                    line,
                    "CONNECTION 參數需為字串（'連線名稱'）"@,
                ) {
                    Err(e) => Err(e),
                    Ok((name, s)) => match eat_sym(
                        ts,
                        s,
                        Sym::RParen,
                        "CONNECTION('...') 的 `)`"@,
                    ) {
                        Err(e) => Err(e),
                        Ok(t) => Ok((name, t)),
                    },
                },
            }
        },
    }
}

/// The value of one FILE parameter, put into the source.
pub open spec fn file_param(
    ts: Seq<TokenView>,
    p: nat,
    up: Seq<char>,
    kline: usize,
    fs: FileSourceView,
) -> Parsed<FileSourceView> {
    if up == "TYPE"@ {
        match tok_at(ts, p) {
            Some(TokView::Ident(_)) => Ok((fs, p + 1)),
            Some(TokView::Str(_)) => Ok((fs, p + 1)),
            _ => Err(issue(kline, "TYPE 需為格式名稱（如 CSV、XLSX）"@)),
        }
    } else if up == "PATH"@ {
        match quoted_text(ts, p, kline, "PATH 需為字串（'...'）"@) {
            Err(e) => Err(e),
            Ok((s, q)) => Ok((FileSourceView { path: s, ..fs }, q)),
        }
    } else if up == "SHEET"@ {
        match quoted_text(ts, p, kline, "SHEET 需為字串"@) {
            Err(e) => Err(e),
            Ok((s, q)) => Ok((FileSourceView { sheet: Some(s), ..fs }, q)),
        }
    } else if up == "ENCODING"@ {
        match quoted_text(ts, p, kline, "ENCODING 需為字串（如 'Big5'）"@) {
            Err(e) => Err(e),
            Ok((s, q)) => Ok((FileSourceView { encoding: Some(s), ..fs }, q)),
        }
    } else if up == "HEADER"@ {
        if is_kw(ts, p, Kw::True) {
            Ok((FileSourceView { has_header: Some(true), ..fs }, p + 1))
        } else if is_kw(ts, p, Kw::False) {
            Ok((FileSourceView { has_header: Some(false), ..fs }, p + 1))
        } else {
            Err(issue(kline, "HEADER 需為 TRUE / FALSE"@))
        }
    } else {
        Err(issue(kline, "未知的 FILE 參數 "@ + up))
    }
}

/// The parameters of a FILE source, up to the closing parenthesis.
pub open spec fn file_params(ts: Seq<TokenView>, p: nat, fs: FileSourceView, first: bool) -> Parsed<
    FileSourceView,
>
    decreases ts.len() - p,
{
    if is_sym(ts, p, Sym::RParen) {
        Ok((fs, p + 1))
    } else if !first && !is_sym(ts, p, Sym::Comma) {
        Err(issue(line_at(ts, after(ts, p)), "FILE 參數之間需以 `,` 分隔"@))
    } else {
        match ident(
            ts,
            if first {
                p
            } else {
                p + 1
            },
            "FILE 參數名稱（PATH / SHEET / ENCODING / HEADER / TYPE）"@,
        ) {
            Err(e) => Err(e),
            Ok(((key, kline), q)) => match eat_sym(ts, q, Sym::Assign, key + " 之後的 `=`"@) {
                Err(e) => Err(e),
                Ok(r) => match file_param(ts, r, text::upper(key), kline, fs) {
                    Err(e) => Err(e),
                    Ok((next, s)) => file_params(ts, s, next, false),
                },
            },
        }
    }
}

/// `(PATH = '…', …)`.
pub open spec fn file_args(ts: Seq<TokenView>, p: nat, line: usize) -> Parsed<FileSourceView> {
    match eat_sym(ts, p, Sym::LParen, "FILE 之後的 `(`"@) {
        Err(e) => Err(e),
        Ok(q) => match file_params(
            ts,
            q,
            FileSourceView { path: seq![], sheet: None, encoding: None, has_header: None },
            true,
        ) {
            Err(e) => Err(e),
            Ok((fs, r)) => if fs.path.len() == 0 {
                Err(issue(line, "FILE(...) 需要 PATH 參數"@))
            } else {
                Ok((fs, r))
            },
        },
    }
}

/// `FILE(…)` or `CONNECTION(…)` of a source.
pub open spec fn source_decl(ts: Seq<TokenView>, p: nat, line: usize) -> Parsed<SourceDeclView> {
    match ident(ts, p, "FILE(...) 或 CONNECTION('名稱')"@) {
        Err(e) => Err(e),
        Ok(((func, _), q)) => {
            let up = text::upper(func);
            if up == "FILE"@ {
                match file_args(ts, q, line) {
                    Err(e) => Err(e),
                    Ok((f, r)) => Ok((SourceDeclView::File(f), r)),
                }
            } else if up == "CONNECTION"@ {
                match connection_args(ts, q, line) {
                    Err(e) => Err(e),
                    Ok((c, r)) => Ok((SourceDeclView::Connection(c), r)),
                }
            } else {
                Err(
                    issue(
                        line,
                        "未知的來源型式 "@ + up + "（支援 FILE / CONNECTION）"@,
                    ),
                )
            }
        },
    }
}

/// `SOURCE = …` and `TARGET = …`, each at most once.
pub open spec fn header_decls(ts: Seq<TokenView>, p: nat, h: HeaderView) -> Parsed<HeaderView>
    decreases ts.len() - p,
{
    let line = line_at(ts, p);
    if is_kw(ts, p, Kw::Source) && is_sym(ts, p + 1, Sym::Assign) {
        if h.source is Some {
            Err(issue(line, "重複的 SOURCE 宣告"@))
        } else {
            match source_decl(ts, p + 2, line) {
                Err(e) => Err(e),
                Ok((s, q)) => if !(p < q <= ts.len()) {
                    stuck()
                } else {
                    header_decls(ts, q, HeaderView { source: Some(s), ..h })
                },
            }
        }
    } else if is_kw(ts, p, Kw::Target) && is_sym(ts, p + 1, Sym::Assign) {
        if h.target_connection is Some {
            Err(issue(line, "重複的 TARGET 宣告"@))
        } else {
            match connection_ref(ts, p + 2, line) {
                Err(e) => Err(e),
                Ok((s, q)) => if !(p < q <= ts.len()) {
                    stuck()
                } else {
                    header_decls(ts, q, HeaderView { target_connection: Some(s), ..h })
                },
            }
        }
    } else {
        Ok((h, p))
    }
}

pub open spec fn no_header() -> HeaderView {
    HeaderView { source: None, target_connection: None }
}

/// The place behind any number of GO.
pub open spec fn skip_go(ts: Seq<TokenView>, p: nat) -> nat
    decreases ts.len() - p,
{
    if is_kw(ts, p, Kw::Go) {
        skip_go(ts, p + 1)
    } else {
        p
    }
}

pub proof fn lemma_skip_go(ts: Seq<TokenView>, p: nat)
    requires
        p <= ts.len(),
    ensures
        p <= skip_go(ts, p) <= ts.len(),
        !is_kw(ts, skip_go(ts, p), Kw::Go),
    decreases ts.len() - p,
{
    if is_kw(ts, p, Kw::Go) {
        lemma_skip_go(ts, p + 1);
    }
}

/// One job: a WORK block, or a bare body.
#[verifier::opaque]
pub open spec fn one_work(ts: Seq<TokenView>, p: nat, rd: Reading) -> Parsed<WorkView> {
    if is_kw(ts, p, Kw::Work) {
        work_block(ts, p, rd)
    } else {
        work_body(ts, p, None, line_at(ts, p), rd)
    }
}

/// The jobs up to the end, GO between them or not.
pub open spec fn work_list(ts: Seq<TokenView>, p: nat, rd: Reading) -> Result<
    Seq<WorkView>,
    IssueView,
>
    decreases ts.len() - p,
{
    let q = skip_go(ts, p);
    if q >= ts.len() {
        Ok(seq![])
    } else {
        match one_work(ts, q, rd) {
            Err(e) => Err(e),
            Ok((w, r)) => if !(p < r <= ts.len()) {
                Err(issue(0, seq![]))
            } else if r < ts.len() && !is_kw(ts, r, Kw::Go) && !is_kw(ts, r, Kw::Work) {
                Err(issue(line_at(ts, r), "工作項目結束後預期 WORK、GO 或檔案結尾"@))
            } else {
                match work_list(ts, r, rd) {
                    Err(e) => Err(e),
                    Ok(rest) => Ok(seq![w] + rest),
                }
            },
        }
    }
}

/// The script that a token list stands for.
pub open spec fn script_of(ts: Seq<TokenView>, rd: Reading) -> Result<ScriptView, IssueView> {
    match header_decls(ts, 0, no_header()) {
        Err(e) => Err(e),
        Ok((header, p)) => match work_list(ts, p, rd) {
            Err(e) => Err(e),
            Ok(works) => if works.len() == 0 {
                Err(issue(1, "腳本為空"@))
            } else {
                Ok(ScriptView { header, works })
            },
        },
    }
}

/// The script that a text stands for, or the first thing wrong with it.
pub open spec fn parse_spec(input: Seq<char>, rd: Reading) -> Result<ScriptView, IssueView> {
    match lex_spec(input, 1) {
        Err(e) => Err(e),
        Ok(ts) => script_of(ts, rd),
    }
}

/// An action is what its word says, and only ADD and UPDATE have assignments.
pub proof fn law_actions_are_what_they_say(ts: Seq<TokenView>, p: nat, env: Env)
    ensures
        action(ts, p, env) matches Ok((a, q)) ==> {
            &&& a is Add <==> is_kw(ts, p, Kw::Add)
            &&& a is Update <==> is_kw(ts, p, Kw::Update)
            &&& a is Skip <==> is_kw(ts, p, Kw::Skip)
            &&& a is Delete <==> is_kw(ts, p, Kw::Delete)
            &&& a is Skip || a is Delete ==> q == p + 1
        },
        action(ts, p, env) matches Ok((ActionView::Add(v), q)) ==> assignment_block(ts, p + 1, env)
            == Ok::<(Seq<AssignmentView>, nat), IssueView>((v, q)),
        action(ts, p, env) matches Ok((ActionView::Update(v), q)) ==> assignment_block(
            ts,
            p + 1,
            env,
        ) == Ok::<(Seq<AssignmentView>, nat), IssueView>((v, q)),
        is_kw(ts, p, Kw::Skip) || is_kw(ts, p, Kw::Delete) ==> action(ts, p, env) is Ok,
{
}

/// A lookup may miss exactly where it says LEFT.
pub proof fn law_only_left_joins_may_miss(
    ts: Seq<TokenView>,
    p: nat,
    scope: ScopeView,
    rd: Reading,
)
    ensures
        join_clauses(ts, p, scope, rd) matches Ok(((joins, _), _)) ==> {
            &&& joins.len() > 0 ==> (joins[0].policy is Left <==> is_kw(ts, p, Kw::Left))
            &&& joins.len() == 0 ==> !is_kw(ts, p, Kw::Left) && !is_kw(ts, p, Kw::Inner) && !is_kw(
                ts,
                p,
                Kw::Join,
            )
        },
{
}

/// A MATCHED branch says what happens to rows that exist, a NOT MATCHED branch what happens
/// to the others, in either order; each may stand once.
pub proof fn law_branches_go_to_their_side(
    ts: Seq<TokenView>,
    p: nat,
    env: Env,
    matched: Option<ActionView>,
    not_matched: Option<ActionView>,
)
    ensures
        merge_branches(ts, p, env, matched, not_matched) matches Ok(((m, n), _)) ==> {
            &&& matched is Some ==> m == matched
            &&& not_matched is Some ==> n == not_matched
            &&& is_kw(ts, p, Kw::Matched) ==> matched is None && (merge_branch(
                ts,
                p + 1,
                env,
            ) matches Ok((a, _)) && m == Some(a))
            &&& is_kw(ts, p, Kw::Not) ==> not_matched is None && is_kw(ts, p + 1, Kw::Matched) && (
            merge_branch(ts, p + 2, env) matches Ok((a, _)) && n == Some(a))
            &&& !is_kw(ts, p, Kw::Matched) && !is_kw(ts, p, Kw::Not) ==> m == matched && n
                == not_matched
        },
    decreases ts.len() - p,
{
    if is_kw(ts, p, Kw::Not) {
        if let Ok((a, r)) = merge_branch(ts, p + 2, env) {
            if is_kw(ts, p + 1, Kw::Matched) && not_matched is None && p < r <= ts.len() {
                law_branches_go_to_their_side(ts, r, env, matched, Some(a));
            }
        }
    } else if is_kw(ts, p, Kw::Matched) {
        if let Ok((a, r)) = merge_branch(ts, p + 1, env) {
            if matched is None && p < r <= ts.len() {
                law_branches_go_to_their_side(ts, r, env, Some(a), not_matched);
            }
        }
    }
}

/// Assignments are read in the order in which they stand.
pub proof fn law_assignments_are_read_in_order(ts: Seq<TokenView>, p: nat, env: Env, first: bool)
    ensures
        assignments_rest(ts, p, env, first) matches Ok((v, r)) ==> {
            &&& v.len() == 0 <==> is_sym(ts, p, Sym::RBrace)
            &&& v.len() > 0 ==> (assignment(
                ts,
                if first {
                    p
                } else {
                    p + 1
                },
                env,
            ) matches Ok((a, q)) && v[0] == a && assignments_rest(ts, q, env, false) == Ok::<
                (Seq<AssignmentView>, nat),
                IssueView,
            >((v.skip(1), r)))
        },
        assignment(ts, p, env) matches Ok((a, q)) ==> tok_at(ts, p) == Some(
            TokView::Ident(a.target_column),
        ) && is_sym(ts, p + 1, Sym::Assign) && a.line == line_at(ts, p) && expr(ts, p + 2, env)
            == Ok::<(ExprView, nat), IssueView>((a.value, q)),
{
    let at = if first {
        p
    } else {
        p + 1
    };
    if let Ok((v, r)) = assignments_rest(ts, p, env, first) {
        if !is_sym(ts, p, Sym::RBrace) {
            if let Ok((a, q)) = assignment(ts, at, env) {
                if let Ok((rest, s)) = assignments_rest(ts, q, env, false) {
                    assert((seq![a] + rest).skip(1) =~= rest);
                }
            }
        }
    }
}

/// The `i`-th name of a path that starts at `p` stands at its place, behind its dot.
pub open spec fn name_stands(ts: Seq<TokenView>, p: nat, names: Seq<Seq<char>>, i: int) -> bool {
    is_sym(ts, (p + 2 * i) as nat, Sym::Dot) && tok_at(ts, (p + 2 * i + 1) as nat) == Some(
        TokView::Ident(names[i]),
    )
}

/// The names of a path stand at their places, each behind its dot, and the path ends where
/// no dot follows.
pub proof fn law_paths_hold_their_names(ts: Seq<TokenView>, p: nat, what: Seq<char>)
    ensures
        dotted(ts, p, what) matches Ok((names, q)) ==> {
            &&& q == p + 2 * names.len()
            &&& !is_sym(ts, q, Sym::Dot)
            &&& forall|i: int| 0 <= i < names.len() ==> #[trigger] name_stands(ts, p, names, i)
        },
    decreases ts.len() - p,
{
    if is_sym(ts, p, Sym::Dot) {
        if let Ok(((s, _), q)) = ident(ts, p + 1, what) {
            law_paths_hold_their_names(ts, q, what);
            if let Ok((rest, r)) = dotted(ts, q, what) {
                let names = seq![s] + rest;
                assert forall|i: int| 0 <= i < names.len() implies #[trigger] name_stands(
                    ts,
                    p,
                    names,
                    i,
                ) by {
                    if i > 0 {
                        assert(name_stands(ts, q, rest, i - 1));
                        assert(rest[i - 1] == names[i]);
                        assert(q + 2 * (i - 1) == p + 2 * i);
                    }
                }
            }
        }
    }
}

/// A binding gives a table of the source or of the target its alias: `alias = SOURCE…` or
/// `alias = TARGET…`, and the path of the table behind it.
pub proof fn law_bindings_name_their_side(ts: Seq<TokenView>, p: nat)
    ensures
        binding(ts, p) matches Ok((b, q)) ==> {
            &&& tok_at(ts, p) == Some(TokView::Ident(b.alias))
            &&& is_sym(ts, p + 1, Sym::Assign)
            &&& b.conn is Source <==> is_kw(ts, p + 2, Kw::Source)
            &&& b.conn is Target <==> is_kw(ts, p + 2, Kw::Target)
            &&& b.line == line_at(ts, p)
            &&& q == p + 3 + 2 * b.table.len()
            &&& forall|i: int|
                0 <= i < b.table.len() ==> #[trigger] name_stands(ts, p + 3, b.table, i)
        },
{
    law_paths_hold_their_names(ts, p + 3, "`.` 之後的資料表段"@);
}

/// Rows go into a named table of the target, with an alias exactly where one is written.
pub proof fn law_rows_go_into_a_target_table(ts: Seq<TokenView>, p: nat)
    ensures
        into_clause(ts, p) matches Ok((x, _)) ==> {
            &&& is_kw(ts, p, Kw::Into)
            &&& x.conn is Target
            &&& x.table.len() > 0
            &&& x.line == line_at(ts, p)
            &&& x.alias matches Some(a) ==> tok_at(ts, p + 1) == Some(TokView::Ident(a)) && is_sym(
                ts,
                p + 2,
                Sym::Assign,
            ) && is_kw(ts, p + 3, Kw::Target)
            &&& x.alias is None ==> is_kw(ts, p + 1, Kw::Target)
        },
{
}

/// What the header says of the source and of the target each counts once, in either order.
pub proof fn law_headers_keep_what_they_say(ts: Seq<TokenView>, p: nat, h: HeaderView)
    ensures
        header_decls(ts, p, h) matches Ok((r, q)) ==> {
            &&& h.source is Some ==> r.source == h.source
            &&& h.target_connection is Some ==> r.target_connection == h.target_connection
            &&& is_kw(ts, p, Kw::Source) && is_sym(ts, p + 1, Sym::Assign) ==> h.source is None && (
            source_decl(ts, p + 2, line_at(ts, p)) matches Ok((s, _)) && r.source == Some(s))
            &&& is_kw(ts, p, Kw::Target) && is_sym(ts, p + 1, Sym::Assign) ==> h.target_connection
                is None && (connection_ref(ts, p + 2, line_at(ts, p)) matches Ok((s, _))
                && r.target_connection == Some(s))
        },
    decreases ts.len() - p,
{
    let line = line_at(ts, p);
    if is_kw(ts, p, Kw::Source) && is_sym(ts, p + 1, Sym::Assign) {
        if let Ok((s, q)) = source_decl(ts, p + 2, line) {
            if h.source is None && p < q <= ts.len() {
                law_headers_keep_what_they_say(ts, q, HeaderView { source: Some(s), ..h });
            }
        }
    } else if is_kw(ts, p, Kw::Target) && is_sym(ts, p + 1, Sym::Assign) {
        if let Ok((s, q)) = connection_ref(ts, p + 2, line) {
            if h.target_connection is None && p < q <= ts.len() {
                law_headers_keep_what_they_say(
                    ts,
                    q,
                    HeaderView { target_connection: Some(s), ..h },
                );
            }
        }
    }
}

/// Each parameter of a file sets its own part and leaves the others; TYPE sets none.
pub proof fn law_file_parameters_set_their_part(
    ts: Seq<TokenView>,
    p: nat,
    up: Seq<char>,
    kline: usize,
    fs: FileSourceView,
)
    ensures
        file_param(ts, p, up, kline, fs) matches Ok((f, q)) ==> {
            &&& q == p + 1
            &&& f.path != fs.path ==> up == "PATH"@ && tok_at(ts, p) == Some(TokView::Str(f.path))
            &&& f.sheet != fs.sheet ==> up == "SHEET"@ && (f.sheet matches Some(s) && tok_at(ts, p)
                == Some(TokView::Str(s)))
            &&& f.encoding != fs.encoding ==> up == "ENCODING"@ && (f.encoding matches Some(s)
                && tok_at(ts, p) == Some(TokView::Str(s)))
            &&& f.has_header != fs.has_header ==> up == "HEADER"@
            &&& up == "PATH"@ ==> tok_at(ts, p) == Some(TokView::Str(f.path))
            &&& up == "SHEET"@ ==> (f.sheet matches Some(s) && tok_at(ts, p) == Some(
                TokView::Str(s),
            ))
            &&& up == "ENCODING"@ ==> (f.encoding matches Some(s) && tok_at(ts, p) == Some(
                TokView::Str(s),
            ))
            &&& up == "HEADER"@ ==> f.has_header == Some(is_kw(ts, p, Kw::True))
        },
{
    reveal_strlit("TYPE");
    reveal_strlit("PATH");
    reveal_strlit("SHEET");
    reveal_strlit("ENCODING");
    reveal_strlit("HEADER");
    assert("TYPE"@[0] == 'T' && "PATH"@[0] == 'P' && "SHEET"@[0] == 'S' && "ENCODING"@[0] == 'E'
        && "HEADER"@[0] == 'H');
}

/// The jobs of a script are read in the order in which they stand, and GO adds none.
pub proof fn law_jobs_are_read_in_order(ts: Seq<TokenView>, p: nat, rd: Reading)
    ensures
        work_list(ts, p, rd) matches Ok(works) ==> {
            &&& works.len() == 0 <==> skip_go(ts, p) >= ts.len()
            &&& works.len() > 0 ==> (one_work(ts, skip_go(ts, p), rd) matches Ok((w, r)) && works[0]
                == w && work_list(ts, r, rd) == Ok::<Seq<WorkView>, IssueView>(works.skip(1)))
        },
        is_kw(ts, p, Kw::Go) ==> work_list(ts, p + 1, rd) == work_list(ts, p, rd) || work_list(
            ts,
            p,
            rd,
        ) is Err,
{
    let q = skip_go(ts, p);
    if q < ts.len() {
        if let Ok((w, r)) = one_work(ts, q, rd) {
            if let Ok(rest) = work_list(ts, r, rd) {
                assert((seq![w] + rest).skip(1) =~= rest);
            }
        }
    }
}

} // verus!
