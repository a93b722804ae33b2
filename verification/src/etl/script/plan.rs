//! What a job writes, which columns its lookups need, and the keys that its
//! conditions match by.
use crate::db::dialect::Dialect;
use crate::double::{is_reader, reading, Real};
use crate::etl::script::ast::{
    cond_refs, equalities, expr_refs, extend_refs, ref_views, ColRef, ColRefView, Comparison,
    ComparisonView, Expr, ExprView,
};
use crate::etl::script::clauses::{
    action_assignments, assignments_view, borrowed_actions, joins_view, work_actions, Action,
    ActionView, Assignment, AssignmentView, Join, JoinView, MergeView, Script, Work, WorkView,
};
use crate::etl::script::job_parser::parse;
use crate::etl::script::jobs::parse_spec;
use crate::models::errors::{at_line, line_message, EluEtlError, ErrorView};
use crate::models::value::DataType;
use crate::text;
use vstd::hash_map::StringHashMap;
use vstd::prelude::*;

verus! {

/// What a job writes.
pub struct WorkPlan<'a> {
    /// The assignments for rows to add.
    pub insert: Option<&'a Vec<Assignment>>,
    /// The assignments for rows that exist already.
    pub update: Option<&'a Vec<Assignment>>,
    /// Whether rows that exist already are deleted.
    pub delete: bool,
}

#[verifier::ext_equal]
pub struct WorkPlanView {
    pub insert: Option<Seq<AssignmentView>>,
    pub update: Option<Seq<AssignmentView>>,
    pub delete: bool,
}

pub open spec fn opt_assignments(x: Option<&Vec<Assignment>>) -> Option<Seq<AssignmentView>> {
    match x {
        Some(v) => Some(assignments_view(v@)),
        None => None,
    }
}

impl<'a> View for WorkPlan<'a> {
    type V = WorkPlanView;

    open spec fn view(&self) -> WorkPlanView {
        WorkPlanView {
            insert: opt_assignments(self.insert),
            update: opt_assignments(self.update),
            delete: self.delete,
        }
    }
}

pub open spec fn etl_error(line: usize, rest: Seq<char>) -> ErrorView {
    ErrorView::Etl(line_message(line, rest))
}

/// What the branches of a merge write.
pub open spec fn merge_writes(m: MergeView, line: usize) -> Result<WorkPlanView, ErrorView> {
    match m.not_matched {
        Some(ActionView::Update(_)) => Err(
            etl_error(line, "NOT MATCHED 不支援 UPDATE（目標尚無此列可更新）"@),
        ),
        Some(ActionView::Delete) => Err(etl_error(line, "NOT MATCHED 不支援 DELETE"@)),
        other => {
            let insert = match other {
                Some(ActionView::Add(a)) => Some(a),
                _ => None,
            };
            match m.matched {
                Some(ActionView::Add(_)) => Err(
                    etl_error(line, "MATCHED 不支援 ADD（目標已存在）"@),
                ),
                Some(ActionView::Update(a)) => Ok(
                    WorkPlanView { insert, update: Some(a), delete: false },
                ),
                Some(ActionView::Delete) => Ok(WorkPlanView { insert, update: None, delete: true }),
                _ => Ok(WorkPlanView { insert, update: None, delete: false }),
            }
        },
    }
}

/// What a job writes: the branches of its merge, or its plain ADD. UPDATE and
/// DELETE need a merge.
pub open spec fn work_writes(w: WorkView) -> Result<WorkPlanView, ErrorView> {
    match w.merge {
        Some(m) => merge_writes(m, w.line),
        None => match w.action {
            Some(ActionView::Add(a)) => Ok(
                WorkPlanView { insert: Some(a), update: None, delete: false },
            ),
            Some(ActionView::Update(_)) => Err(
                etl_error(w.line, "UPDATE / DELETE 需搭配頂層 ON 比對鍵（合併模式）"@),
            ),
            Some(ActionView::Delete) => Err(
                etl_error(w.line, "UPDATE / DELETE 需搭配頂層 ON 比對鍵（合併模式）"@),
            ),
            _ => Ok(WorkPlanView { insert: None, update: None, delete: false }),
        },
    }
}

/// What a job writes, or why it cannot.
pub fn plan_work(work: &Work) -> (r: Result<WorkPlan, EluEtlError>)
    ensures
        match r {
            Ok(p) => work_writes(work@) == Ok::<WorkPlanView, ErrorView>(p@),
            Err(e) => work_writes(work@) == Err::<WorkPlanView, ErrorView>(e@),
        },
{
    match &work.merge {
        Some(m) => {
            let insert: Option<&Vec<Assignment>> = match &m.not_matched {
                Some(Action::Add(a)) => Some(a),
                Some(Action::Update(_)) => {
                    return Err(
                        at_line(
                            work.line,
                            "NOT MATCHED 不支援 UPDATE（目標尚無此列可更新）",
                        ),
                    );
                },
                Some(Action::Delete) => {
                    return Err(at_line(work.line, "NOT MATCHED 不支援 DELETE"));
                },
                _ => None,
            };
            match &m.matched {
                Some(Action::Add(_)) => Err(
                    at_line(work.line, "MATCHED 不支援 ADD（目標已存在）"),
                ),
                Some(Action::Update(a)) => Ok(
                    WorkPlan { insert, update: Some(a), delete: false },
                ),
                Some(Action::Delete) => Ok(WorkPlan { insert, update: None, delete: true }),
                _ => Ok(WorkPlan { insert, update: None, delete: false }),
            }
        },
        None => match &work.action {
            Some(Action::Add(a)) => Ok(WorkPlan { insert: Some(a), update: None, delete: false }),
            Some(Action::Update(_)) => Err(
                at_line(work.line, "UPDATE / DELETE 需搭配頂層 ON 比對鍵（合併模式）"),
            ),
            Some(Action::Delete) => Err(
                at_line(work.line, "UPDATE / DELETE 需搭配頂層 ON 比對鍵（合併模式）"),
            ),
            _ => Ok(WorkPlan { insert: None, update: None, delete: false }),
        },
    }
}

/// The dotted name of a table path. Only SQL Server takes a database before the schema.
pub open spec fn table_name(parts: Seq<Seq<char>>, d: Dialect) -> Result<Seq<char>, ErrorView> {
    let joined = text::join_seq(parts, "."@);
    if parts.len() == 3 && d != Dialect::Mssql {
        Err(
            ErrorView::Config(
                joined + " 不支援 db 前綴的三段式資料表名稱（僅 SQL Server 支援）"@,
            ),
        )
    } else {
        Ok(joined)
    }
}

/// The dotted name of a table path.
pub fn table_ref_to_string(parts: &Vec<String>, dialect: Dialect) -> (r: Result<
    String,
    EluEtlError,
>)
    ensures
        match r {
            Ok(s) => table_name(text::views(parts@), dialect) == Ok::<Seq<char>, ErrorView>(s@),
            Err(e) => table_name(text::views(parts@), dialect) == Err::<Seq<char>, ErrorView>(e@),
        },
{
    let joined: String = text::join(parts, ".");
    if parts.len() == 3 && dialect != Dialect::Mssql {
        return Err(
            EluEtlError::Config(
                text::cat(
                    joined.as_str(),
                    " 不支援 db 前綴的三段式資料表名稱（僅 SQL Server 支援）",
                ),
            ),
        );
    }
    Ok(joined)
}

/// Parses a script and reports a mistake as an error of the run.
pub fn run_blocking_parse<F: Fn(String) -> Option<Real>>(script_text: &str, read: &F) -> (r: Result<
    Script,
    EluEtlError,
>)
    requires
        is_reader(*read),
    ensures
        match (r, parse_spec(script_text@, reading(*read))) {
            (Ok(s), Ok(x)) => s@ == x,
            (Err(e), Err(x)) => e@ == etl_error(x.line, x.message),
            _ => false,
        },
{
    match parse(script_text, read) {
        Ok(s) => Ok(s),
        Err(e) => Err(at_line(e.line, e.message.as_str())),
    }
}

/// The expression is a column of that alias.
pub open spec fn is_col_of(e: ExprView, alias: Seq<char>) -> bool {
    e matches ExprView::Col(r) && text::same_ignoring_case(r.alias, alias)
}

/// The sides of an equality: the column of the alias, and the other expression.
pub open spec fn equality_sides(c: ComparisonView, alias: Seq<char>) -> Option<(Seq<char>, ExprView)> {
    let left = is_col_of(c.left, alias);
    let right = is_col_of(c.right, alias);
    if left && !right {
        Some((c.left->Col_0.column, c.right))
    } else if right && !left {
        Some((c.right->Col_0.column, c.left))
    } else {
        None
    }
}

/// Whether an expression is a column of the alias.
fn col_of<'a>(e: &'a Expr, alias: &str) -> (r: Option<&'a ColRef>)
    ensures
        match r {
            Some(c) => is_col_of(e@, alias@) && e@ == ExprView::Col(c@),
            None => !is_col_of(e@, alias@),
        },
{
    match e {
        Expr::Col(c) => if text::eq_ignore_case(c.alias.as_str(), alias) { Some(c) } else { None },
        _ => None,
    }
}

/// The sides of an equality.
pub fn split_equality<'a>(c: &'a Comparison, alias: &str) -> (r: Option<(&'a ColRef, &'a Expr)>)
    ensures
        match r {
            Some((col, e)) => equality_sides(c@, alias@) == Some((col@.column, e@)),
            None => equality_sides(c@, alias@) is None,
        },
{
    match (col_of(&c.left, alias), col_of(&c.right, alias)) {
        (Some(l), None) => Some((l, &c.right)),
        (None, Some(r)) => Some((r, &c.left)),
        _ => None,
    }
}

pub open spec fn borrowed_exprs(v: Seq<&Expr>) -> Seq<ExprView> {
    Seq::new(v.len(), |i: int| v[i]@)
}

/// The key columns of a lookup and the expressions that they are matched with.
pub open spec fn split_sides(v: Seq<ComparisonView>, alias: Seq<char>, shown: Seq<char>) -> Result<
    (Seq<Seq<char>>, Seq<ExprView>),
    ErrorView,
>
    decreases v.len(),
{
    if v.len() == 0 {
        Ok((seq![], seq![]))
    } else {
        match split_sides(v.drop_last(), alias, shown) {
            Err(e) => Err(e),
            Ok((keys, probes)) => match equality_sides(v.last(), alias) {
                Some((k, p)) => Ok((keys.push(k), probes.push(p))),
                None => Err(
                    etl_error(
                        v.last().line,
                        "JOIN ON 的每個等式需一邊是查表 ["@ + shown
                            + "] 的欄位、另一邊是來源值"@,
                    ),
                ),
            },
        }
    }
}

/// The keys of a lookup: its ON must be equalities with one side in the lookup each.
pub open spec fn join_keys(j: JoinView) -> Result<(Seq<Seq<char>>, Seq<ExprView>), ErrorView> {
    match equalities(j.on) {
        None => Err(
            etl_error(
                j.binding.line,
                "JOIN ON 僅支援等值比較（&& 串接的 ==），不支援 OR / NOT / IN / LIKE / BETWEEN / IS EMPTY"@,
            ),
        ),
        Some(eqs) => match split_sides(eqs, text::lower(j.binding.alias), j.binding.alias) {
            Err(e) => Err(e),
            Ok((keys, probes)) => if keys.len() == 0 {
                Err(
                    etl_error(
                        j.binding.line,
                        "JOIN ["@ + j.binding.alias + "] 缺少 ON 條件"@,
                    ),
                )
            } else {
                Ok((keys, probes))
            },
        },
    }
}

proof fn lemma_sides_error(v: Seq<ComparisonView>, k: int, alias: Seq<char>, shown: Seq<char>)
    requires
        0 <= k <= v.len(),
        split_sides(v.take(k), alias, shown) is Err,
    ensures
        split_sides(v, alias, shown) == split_sides(v.take(k), alias, shown),
    decreases v.len() - k,
{
    if k < v.len() {
        assert(v.take(k + 1).drop_last() =~= v.take(k));
        lemma_sides_error(v, k + 1, alias, shown);
    } else {
        assert(v.take(k) =~= v);
    }
}

/// The key columns of a lookup and the expressions that they are matched with.
pub fn split_join_keys(join: &Join) -> (r: Result<(Vec<String>, Vec<&Expr>), EluEtlError>)
    ensures
        match r {
            Ok((keys, probes)) => join_keys(join@) == Ok::<
                (Seq<Seq<char>>, Seq<ExprView>),
                ErrorView,
            >((text::views(keys@), borrowed_exprs(probes@))),
            Err(e) => join_keys(join@) == Err::<(Seq<Seq<char>>, Seq<ExprView>), ErrorView>(e@),
        },
{
    match join.on.as_eq_conjunction() {
        None => Err(
            at_line(
                join.binding.line,
                "JOIN ON 僅支援等值比較（&& 串接的 ==），不支援 OR / NOT / IN / LIKE / BETWEEN / IS EMPTY",
            ),
        ),
        Some(eqs) => {
            let alias: String = text::to_lower(join.binding.alias.as_str());
            let ghost all = equalities(join@.on)->0;
            let ghost shown = join@.binding.alias;
            let mut keys: Vec<String> = Vec::new();
            let mut probes: Vec<&Expr> = Vec::new();
            let mut i: usize = 0;
            proof {
                assert(text::views(keys@) =~= seq![]);
                assert(borrowed_exprs(probes@) =~= seq![]);
            }
            while i < eqs.len()
                invariant
                    i <= eqs@.len() == all.len(),
                    equalities(join@.on) == Some(all),
                    shown == join@.binding.alias,
                    alias@ == text::lower(shown),
                    forall|j: int| 0 <= j < eqs@.len() ==> #[trigger] all[j] == eqs@[j]@,
                    split_sides(all.take(i as int), alias@, shown) == Ok::<
                        (Seq<Seq<char>>, Seq<ExprView>),
                        ErrorView,
                    >((text::views(keys@), borrowed_exprs(probes@))),
                decreases eqs@.len() - i,
            {
                let c: &Comparison = eqs[i];
                proof {
                    assert(all.take(i + 1).drop_last() =~= all.take(i as int));
                    assert(all.take(i + 1).last() == c@);
                }
                match split_equality(c, alias.as_str()) {
                    Some((col, other)) => {
                        let name: String = col.column.clone();
                        proof {
                            text::lemma_views_push(keys@, name);
                            assert(borrowed_exprs(probes@.push(other)) =~= borrowed_exprs(
                                probes@,
                            ).push(other@));
                        }
                        keys.push(name);
                        probes.push(other);
                    },
                    None => {
                        proof {
                            lemma_sides_error(all, i + 1, alias@, shown);
                        }
                        return Err(
                            at_line(
                                c.line,
                                text::cat3(
                                    "JOIN ON 的每個等式需一邊是查表 [",
                                    join.binding.alias.as_str(),
                                    "] 的欄位、另一邊是來源值",
                                ).as_str(),
                            ),
                        );
                    },
                }
                i += 1;
            }
            assert(all.take(i as int) =~= all);
            assert(text::views(keys@).len() == keys@.len());
            if keys.len() == 0 {
                return Err(
                    at_line(
                        join.binding.line,
                        text::cat3("JOIN [", join.binding.alias.as_str(), "] 缺少 ON 條件").as_str(),
                    ),
                );
            }
            Ok((keys, probes))
        },
    }
}

/// The column references of all assignments, in order.
pub open spec fn assignment_refs(v: Seq<AssignmentView>) -> Seq<ColRefView>
    decreases v.len(),
{
    if v.len() == 0 {
        seq![]
    } else {
        assignment_refs(v.drop_last()) + expr_refs(v.last().value)
    }
}

pub open spec fn action_refs(v: Seq<ActionView>) -> Seq<ColRefView>
    decreases v.len(),
{
    if v.len() == 0 {
        seq![]
    } else {
        action_refs(v.drop_last()) + assignment_refs(action_assignments(v.last()))
    }
}

pub open spec fn join_refs(v: Seq<JoinView>) -> Seq<ColRefView>
    decreases v.len(),
{
    if v.len() == 0 {
        seq![]
    } else {
        join_refs(v.drop_last()) + cond_refs(v.last().on)
    }
}

/// The column references of a job: lookups, WHERE, merge key, assignments.
pub open spec fn work_refs(w: WorkView) -> Seq<ColRefView> {
    join_refs(w.joins) + (match w.where_ {
        Some(c) => cond_refs(c),
        None => seq![],
    }) + (match w.merge {
        Some(m) => cond_refs(m.on),
        None => seq![],
    }) + action_refs(work_actions(w))
}

/// The name is among the names, in any case.
pub open spec fn has_name(names: Seq<Seq<char>>, name: Seq<char>) -> bool {
    exists|i: int| 0 <= i < names.len() && text::same_ignoring_case(#[trigger] names[i], name)
}

/// The columns of an alias, each once, in the order of their first mention.
pub open spec fn columns_of(refs: Seq<ColRefView>, alias: Seq<char>) -> Seq<Seq<char>>
    decreases refs.len(),
{
    if refs.len() == 0 {
        seq![]
    } else {
        let before = columns_of(refs.drop_last(), alias);
        let r = refs.last();
        if text::same_ignoring_case(r.alias, alias) && !has_name(before, r.column) {
            before.push(r.column)
        } else {
            before
        }
    }
}

/// Whether the name is among the names, in any case.
pub fn contains_name(names: &Vec<String>, name: &str) -> (r: bool)
    ensures
        r == has_name(text::views(names@), name@),
{
    let mut i: usize = 0;
    while i < names.len()
        invariant
            i <= names@.len(),
            forall|j: int|
                0 <= j < i ==> !text::same_ignoring_case(#[trigger] text::views(names@)[j], name@),
        decreases names@.len() - i,
    {
        if text::eq_ignore_case(names[i].as_str(), name) {
            assert(text::same_ignoring_case(text::views(names@)[i as int], name@));
            return true;
        }
        i += 1;
    }
    false
}

fn refs_of_assignments<'a>(v: &'a [Assignment], out: &mut Vec<&'a ColRef>)
    ensures
        ref_views(final(out)@) == ref_views(old(out)@) + assignment_refs(assignments_view(v@)),
{
    let ghost start = ref_views(out@);
    let ghost all = assignments_view(v@);
    let mut i: usize = 0;
    assert(start + assignment_refs(all.take(0)) =~= start);
    while i < v.len()
        invariant
            i <= v@.len(),
            all == assignments_view(v@),
            ref_views(out@) == start + assignment_refs(all.take(i as int)),
        decreases v@.len() - i,
    {
        let more: Vec<&ColRef> = v[i].value.col_refs();
        proof {
            assert(all.take(i + 1).drop_last() =~= all.take(i as int));
            assert(all.take(i + 1).last() == v@[i as int]@);
        }
        let ghost before = ref_views(out@);
        extend_refs(out, more);
        assert(ref_views(out@) =~= start + assignment_refs(all.take(i + 1)));
        i += 1;
    }
    assert(all.take(i as int) =~= all);
}

/// The column references of a job: lookups, WHERE, merge key, assignments.
pub fn refs_of_work(work: &Work) -> (r: Vec<&ColRef>)
    ensures
        ref_views(r@) == work_refs(work@),
{
    let mut out: Vec<&ColRef> = Vec::new();
    let ghost joins = joins_view(work.joins@);
    let mut i: usize = 0;
    assert(ref_views(out@) =~= join_refs(joins.take(0)));
    while i < work.joins.len()
        invariant
            i <= work.joins@.len(),
            joins == joins_view(work.joins@),
            ref_views(out@) == join_refs(joins.take(i as int)),
        decreases work.joins@.len() - i,
    {
        let more: Vec<&ColRef> = work.joins[i].on.col_refs();
        proof {
            assert(joins.take(i + 1).drop_last() =~= joins.take(i as int));
            assert(joins.take(i + 1).last() == work.joins@[i as int]@);
        }
        extend_refs(&mut out, more);
        i += 1;
    }
    assert(joins.take(i as int) =~= joins);
    let ghost a = ref_views(out@);
    if let Some(c) = &work.where_ {
        extend_refs(&mut out, c.col_refs());
    } else {
        assert(a + Seq::<ColRefView>::empty() =~= a);
    }
    let ghost b = ref_views(out@);
    if let Some(m) = &work.merge {
        extend_refs(&mut out, m.on.col_refs());
    } else {
        assert(b + Seq::<ColRefView>::empty() =~= b);
    }
    let ghost c = ref_views(out@);
    let actions: Vec<&Action> = work.actions();
    let ghost acts = borrowed_actions(actions@);
    let mut k: usize = 0;
    assert(c + action_refs(acts.take(0)) =~= c);
    while k < actions.len()
        invariant
            k <= actions@.len(),
            acts == borrowed_actions(actions@),
            ref_views(out@) == c + action_refs(acts.take(k as int)),
        decreases actions@.len() - k,
    {
        let asn: &[Assignment] = actions[k].assignments();
        proof {
            assert(acts.take(k + 1).drop_last() =~= acts.take(k as int));
            assert(acts.take(k + 1).last() == actions@[k as int]@);
        }
        refs_of_assignments(asn, &mut out);
        assert(ref_views(out@) =~= c + action_refs(acts.take(k + 1)));
        k += 1;
    }
    assert(acts.take(k as int) =~= acts);
    out
}

/// The columns of an alias that a job mentions, each once.
pub fn referenced_columns(work: &Work, alias_lower: &str) -> (r: Vec<String>)
    ensures
        text::views(r@) == columns_of(work_refs(work@), alias_lower@),
{
    let refs: Vec<&ColRef> = refs_of_work(work);
    let ghost all = ref_views(refs@);
    let mut cols: Vec<String> = Vec::new();
    let mut i: usize = 0;
    assert(text::views(cols@) =~= columns_of(all.take(0), alias_lower@));
    while i < refs.len()
        invariant
            i <= refs@.len(),
            all == ref_views(refs@),
            text::views(cols@) == columns_of(all.take(i as int), alias_lower@),
        decreases refs@.len() - i,
    {
        let c: &ColRef = refs[i];
        proof {
            assert(all.take(i + 1).drop_last() =~= all.take(i as int));
            assert(all.take(i + 1).last() == c@);
        }
        if text::eq_ignore_case(c.alias.as_str(), alias_lower) && !contains_name(
            &cols,
            c.column.as_str(),
        ) {
            let name: String = c.column.clone();
            proof {
                text::lemma_views_push(cols@, name);
            }
            cols.push(name);
        }
        i += 1;
    }
    assert(all.take(i as int) =~= all);
    cols
}

/// The key columns, then the other columns that are not among those before them.
pub open spec fn select_columns(keys: Seq<Seq<char>>, values: Seq<Seq<char>>) -> Seq<Seq<char>>
    decreases values.len(),
{
    if values.len() == 0 {
        keys
    } else {
        let before = select_columns(keys, values.drop_last());
        if has_name(before, values.last()) {
            before
        } else {
            before.push(values.last())
        }
    }
}

/// The columns that a lookup selects.
pub fn select_list(keys: &Vec<String>, values: &Vec<String>) -> (r: Vec<String>)
    ensures
        text::views(r@) == select_columns(text::views(keys@), text::views(values@)),
        r@.len() >= keys@.len(),
{
    let mut out: Vec<String> = crate::etl::script::scope::copy_texts(keys);
    let ghost all = text::views(values@);
    let mut i: usize = 0;
    assert(text::views(out@) =~= select_columns(text::views(keys@), all.take(0)));
    while i < values.len()
        invariant
            i <= values@.len(),
            all == text::views(values@),
            out@.len() >= keys@.len(),
            text::views(out@) == select_columns(text::views(keys@), all.take(i as int)),
        decreases values@.len() - i,
    {
        assert(all.take(i + 1).drop_last() =~= all.take(i as int));
        if !contains_name(&out, values[i].as_str()) {
            let name: String = values[i].clone();
            proof {
                text::lemma_views_push(out@, name);
            }
            out.push(name);
        }
        i += 1;
    }
    assert(all.take(i as int) =~= all);
    out
}

/// The target columns of assignments and their types.
pub open spec fn typed_targets(
    v: Seq<AssignmentView>,
    types: Map<Seq<char>, DataType>,
    target: Seq<char>,
) -> Result<(Seq<Seq<char>>, Seq<DataType>), ErrorView>
    decreases v.len(),
{
    if v.len() == 0 {
        Ok((seq![], seq![]))
    } else {
        match typed_targets(v.drop_last(), types, target) {
            Err(e) => Err(e),
            Ok((cols, tys)) => {
                let a = v.last();
                let key = text::lower(a.target_column);
                if types.contains_key(key) {
                    Ok((cols.push(a.target_column), tys.push(types[key])))
                } else {
                    Err(
                        etl_error(
                            a.line,
                            "目標表 "@ + target + " 沒有欄位 "@ + a.target_column,
                        ),
                    )
                }
            },
        }
    }
}

proof fn lemma_targets_error(
    v: Seq<AssignmentView>,
    k: int,
    types: Map<Seq<char>, DataType>,
    target: Seq<char>,
)
    requires
        0 <= k <= v.len(),
        typed_targets(v.take(k), types, target) is Err,
    ensures
        typed_targets(v, types, target) == typed_targets(v.take(k), types, target),
    decreases v.len() - k,
{
    if k < v.len() {
        assert(v.take(k + 1).drop_last() =~= v.take(k));
        lemma_targets_error(v, k + 1, types, target);
    } else {
        assert(v.take(k) =~= v);
    }
}

/// The target columns of assignments and their types.
pub fn type_targets(v: &Vec<Assignment>, types: &StringHashMap<DataType>, target: &str) -> (r: Result<
    (Vec<String>, Vec<DataType>),
    EluEtlError,
>)
    ensures
        match r {
            Ok((cols, tys)) => typed_targets(assignments_view(v@), types@, target@) == Ok::<
                (Seq<Seq<char>>, Seq<DataType>),
                ErrorView,
            >((text::views(cols@), tys@)) && cols@.len() == v@.len() && tys@.len() == v@.len(),
            Err(e) => typed_targets(assignments_view(v@), types@, target@) == Err::<
                (Seq<Seq<char>>, Seq<DataType>),
                ErrorView,
            >(e@),
        },
{
    let ghost all = assignments_view(v@);
    let mut cols: Vec<String> = Vec::new();
    let mut tys: Vec<DataType> = Vec::new();
    let mut i: usize = 0;
    assert(text::views(cols@) =~= seq![]);
    while i < v.len()
        invariant
            i <= v@.len(),
            cols@.len() == i,
            tys@.len() == i,
            all == assignments_view(v@),
            typed_targets(all.take(i as int), types@, target@) == Ok::<
                (Seq<Seq<char>>, Seq<DataType>),
                ErrorView,
            >((text::views(cols@), tys@)),
        decreases v@.len() - i,
    {
        let a: &Assignment = &v[i];
        proof {
            assert(all.take(i + 1).drop_last() =~= all.take(i as int));
            assert(all.take(i + 1).last() == a@);
        }
        match types.get(text::to_lower(a.target_column.as_str()).as_str()) {
            Some(t) => {
                let name: String = a.target_column.clone();
                proof {
                    text::lemma_views_push(cols@, name);
                }
                cols.push(name);
                tys.push(*t);
            },
            None => {
                proof {
                    lemma_targets_error(all, i + 1, types@, target@);
                }
                return Err(
                    at_line(
                        a.line,
                        text::cat4(
                            "目標表 ",
                            target,
                            " 沒有欄位 ",
                            a.target_column.as_str(),
                        ).as_str(),
                    ),
                );
            },
        }
        i += 1;
    }
    assert(all.take(i as int) =~= all);
    Ok((cols, tys))
}

/// A job adds rows where it says ADD, for all rows or for those that are not matched;
/// it updates or deletes only rows that are matched. A branch on the wrong side, or an
/// UPDATE or DELETE without a key, is refused.
pub proof fn law_jobs_write_what_they_say(w: WorkView)
    ensures
        w.merge is None ==> (work_writes(w) matches Ok(p) ==> p.update is None && !p.delete
            && p.insert == (match w.action {
            Some(ActionView::Add(a)) => Some(a),
            _ => None,
        })),
        w.merge is None && (w.action matches Some(ActionView::Update(_))) ==> work_writes(w) is Err,
        w.merge is None && (w.action matches Some(ActionView::Delete)) ==> work_writes(w) is Err,
        w.merge matches Some(m) ==> (work_writes(w) matches Ok(p) ==> {
            &&& p.insert == (match m.not_matched {
                Some(ActionView::Add(a)) => Some(a),
                _ => None,
            })
            &&& p.update == (match m.matched {
                Some(ActionView::Update(a)) => Some(a),
                _ => None,
            })
            &&& p.delete == (m.matched matches Some(ActionView::Delete))
        }),
        w.merge matches Some(m) ==> (work_writes(w) is Err <==> (m.not_matched matches Some(
            ActionView::Update(_),
        )) || (m.not_matched matches Some(ActionView::Delete)) || (m.matched matches Some(
            ActionView::Add(_),
        ))),
{
}

/// An equality between a lookup and the rest may be written either way round.
pub proof fn law_equalities_turn_round(c: ComparisonView, alias: Seq<char>)
    ensures
        equality_sides(
            ComparisonView { left: c.right, right: c.left, ..c },
            alias,
        ) == equality_sides(c, alias),
        equality_sides(c, alias) matches Some((col, other)) ==> !is_col_of(other, alias) && ((
        is_col_of(c.left, alias) && c.left->Col_0.column == col && other == c.right) || (is_col_of(
            c.right,
            alias,
        ) && c.right->Col_0.column == col && other == c.left)),
        equality_sides(c, alias) is None <==> is_col_of(c.left, alias) == is_col_of(c.right, alias),
{
}

/// A lookup is asked by one key column for each of its equalities, in their order,
/// and the value to look for is what stands on the other side.
pub proof fn law_keys_stand_beside_their_values(
    v: Seq<ComparisonView>,
    alias: Seq<char>,
    shown: Seq<char>,
)
    ensures
        split_sides(v, alias, shown) matches Ok((keys, probes)) ==> keys.len() == v.len()
            && probes.len() == v.len() && forall|i: int|
            0 <= i < v.len() ==> equality_sides(#[trigger] v[i], alias) == Some(
                (keys[i], probes[i]),
            ),
        split_sides(v, alias, shown) is Ok <==> forall|i: int|
            0 <= i < v.len() ==> equality_sides(#[trigger] v[i], alias) is Some,
    decreases v.len(),
{
    if v.len() > 0 {
        let front = v.drop_last();
        let last = v.len() - 1;
        law_keys_stand_beside_their_values(front, alias, shown);
        assert(v[last] == v.last());
        assert forall|i: int| 0 <= i < last implies front[i] == #[trigger] v[i] by {}
        if let Ok((keys, probes)) = split_sides(v, alias, shown) {
            let (k, p) = split_sides(front, alias, shown)->Ok_0;
            assert forall|i: int| 0 <= i < v.len() implies equality_sides(#[trigger] v[i], alias)
                == Some((keys[i], probes[i])) by {
                if i < last {
                    assert(front[i] == v[i]);
                    assert(keys[i] == k[i] && probes[i] == p[i]);
                }
            }
        } else if split_sides(front, alias, shown) is Err {
            let i = choose|i: int|
                0 <= i < front.len() && equality_sides(#[trigger] front[i], alias) is None;
            assert(equality_sides(v[i], alias) is None);
        } else {
            assert(equality_sides(v[last], alias) is None);
        }
    }
}

/// The columns of an alias are those that are named with it, each once.
pub proof fn law_each_used_column_is_listed_once(refs: Seq<ColRefView>, alias: Seq<char>)
    ensures
        forall|i: int|
            0 <= i < refs.len() && text::same_ignoring_case((#[trigger] refs[i]).alias, alias)
                ==> has_name(columns_of(refs, alias), refs[i].column),
        forall|k: int|
            0 <= k < columns_of(refs, alias).len() ==> comes_from(
                refs,
                alias,
                #[trigger] columns_of(refs, alias)[k],
            ),
        forall|k: int, l: int|
            0 <= k < l < columns_of(refs, alias).len() ==> !text::same_ignoring_case(
                #[trigger] columns_of(refs, alias)[k],
                #[trigger] columns_of(refs, alias)[l],
            ),
    decreases refs.len(),
{
    if refs.len() > 0 {
        let front = refs.drop_last();
        let last = refs.len() - 1;
        let r = refs.last();
        law_each_used_column_is_listed_once(front, alias);
        let before = columns_of(front, alias);
        let all = columns_of(refs, alias);
        assert(refs[last] == r);
        assert forall|k: int| 0 <= k < before.len() implies #[trigger] all[k] == before[k] by {}
        if all.len() > before.len() {
            assert(all[all.len() - 1] == r.column);
        }
        assert forall|i: int|
            0 <= i < refs.len() && text::same_ignoring_case(
                (#[trigger] refs[i]).alias,
                alias,
            ) implies has_name(all, refs[i].column) by {
            if i < last {
                assert(front[i] == refs[i]);
                let k = choose|k: int|
                    0 <= k < before.len() && text::same_ignoring_case(
                        #[trigger] before[k],
                        refs[i].column,
                    );
                assert(text::same_ignoring_case(all[k], refs[i].column));
            } else if has_name(before, r.column) {
                let k = choose|k: int|
                    0 <= k < before.len() && text::same_ignoring_case(
                        #[trigger] before[k],
                        r.column,
                    );
                assert(text::same_ignoring_case(all[k], r.column));
            } else {
                assert(text::same_ignoring_case(all[all.len() - 1], r.column));
            }
        }
        assert forall|k: int| 0 <= k < all.len() implies comes_from(
            refs,
            alias,
            #[trigger] all[k],
        ) by {
            if k < before.len() {
                assert(comes_from(front, alias, before[k]));
                let i = choose|i: int|
                    0 <= i < front.len() && text::same_ignoring_case(
                        (#[trigger] front[i]).alias,
                        alias,
                    ) && front[i].column == before[k];
                assert(refs[i] == front[i]);
            } else {
                assert(refs[last].column == all[k]);
            }
        }
        assert forall|k: int, l: int| 0 <= k < l < all.len() implies !text::same_ignoring_case(
            #[trigger] all[k],
            #[trigger] all[l],
        ) by {
            if l < before.len() {
                assert(all[k] == before[k] && all[l] == before[l]);
            } else {
                assert(!has_name(before, r.column));
                assert(all[k] == before[k]);
            }
        }
    }
}

/// Some reference of the alias names the column.
pub open spec fn comes_from(refs: Seq<ColRefView>, alias: Seq<char>, column: Seq<char>) -> bool {
    exists|i: int|
        0 <= i < refs.len() && text::same_ignoring_case((#[trigger] refs[i]).alias, alias)
            && refs[i].column == column
}

/// A lookup fetches its key columns first, in their order, and behind them only
/// columns whose values are needed.
pub proof fn law_keys_are_fetched_first(keys: Seq<Seq<char>>, values: Seq<Seq<char>>)
    ensures
        select_columns(keys, values).len() >= keys.len(),
        select_columns(keys, values).take(keys.len() as int) == keys,
        forall|k: int|
            keys.len() <= k < select_columns(keys, values).len() ==> values.contains(
                #[trigger] select_columns(keys, values)[k],
            ),
    decreases values.len(),
{
    let all = select_columns(keys, values);
    if values.len() == 0 {
        assert(all.take(keys.len() as int) =~= keys);
    } else {
        let before = select_columns(keys, values.drop_last());
        law_keys_are_fetched_first(keys, values.drop_last());
        assert(all.take(keys.len() as int) =~= before.take(keys.len() as int));
        assert forall|k: int| keys.len() <= k < all.len() implies values.contains(
            #[trigger] all[k],
        ) by {
            if k < before.len() {
                assert(all[k] == before[k]);
                let i = choose|i: int|
                    0 <= i < values.drop_last().len() && values.drop_last()[i] == before[k];
                assert(values[i] == before[k]);
            } else {
                assert(values[values.len() - 1] == all[k]);
            }
        }
    }
}

/// A table name in at most two parts is allowed everywhere and one in three parts only
/// where the database has such names; it is the parts with dots between them.
pub proof fn law_table_names_have_their_parts(parts: Seq<Seq<char>>, d: Dialect)
    ensures
        table_name(parts, d) is Err <==> parts.len() == 3 && d != Dialect::Mssql,
        table_name(parts, d) matches Ok(t) ==> t == text::join_seq(parts, "."@),
{
}

/// The cells of an action go to its columns in the order of its assignments, each with
/// the type that the target has for the column of that name in any case; an error
/// comes exactly where the target has no such column.
pub proof fn law_assignments_get_their_types(
    v: Seq<AssignmentView>,
    types: Map<Seq<char>, DataType>,
    target: Seq<char>,
)
    ensures
        typed_targets(v, types, target) matches Ok((cols, tys)) ==> cols.len() == v.len()
            && tys.len() == v.len() && forall|i: int|
            0 <= i < v.len() ==> cols[i] == (#[trigger] v[i]).target_column && types[text::lower(
                v[i].target_column,
            )] == tys[i],
        typed_targets(v, types, target) is Ok <==> forall|i: int|
            0 <= i < v.len() ==> types.contains_key(text::lower((#[trigger] v[i]).target_column)),
    decreases v.len(),
{
    if v.len() > 0 {
        let front = v.drop_last();
        let last = v.len() - 1;
        law_assignments_get_their_types(front, types, target);
        assert(v[last] == v.last());
        assert forall|i: int| 0 <= i < last implies front[i] == #[trigger] v[i] by {}
        if let Ok((cols, tys)) = typed_targets(v, types, target) {
            let (c, t) = typed_targets(front, types, target)->Ok_0;
            assert forall|i: int| 0 <= i < v.len() implies cols[i] == (#[trigger] v[i]).target_column
                && types[text::lower(v[i].target_column)] == tys[i] by {
                if i < last {
                    assert(front[i] == v[i]);
                    assert(cols[i] == c[i] && tys[i] == t[i]);
                }
            }
            assert forall|i: int| 0 <= i < v.len() implies types.contains_key(
                text::lower((#[trigger] v[i]).target_column),
            ) by {
                if i < last {
                    assert(front[i] == v[i]);
                }
            }
        } else if typed_targets(front, types, target) is Err {
            let i = choose|i: int|
                0 <= i < front.len() && !types.contains_key(
                    text::lower((#[trigger] front[i]).target_column),
                );
            assert(front[i] == v[i]);
        } else {
            assert(!types.contains_key(text::lower(v[last].target_column)));
        }
    }
}

/// Every column that a job reads is among its references: those of its lookups'
/// conditions, of its filter, of its merge key, and of the values it assigns.
pub proof fn law_every_reference_of_a_job_counts(w: WorkView, r: ColRefView)
    ensures
        w.where_ matches Some(c) && cond_refs(c).contains(r) ==> work_refs(w).contains(r),
        w.merge matches Some(m) && cond_refs(m.on).contains(r) ==> work_refs(w).contains(r),
        (exists|i: int| 0 <= i < w.joins.len() && cond_refs((#[trigger] w.joins[i]).on).contains(r))
            ==> work_refs(w).contains(r),
        (exists|i: int|
            0 <= i < work_actions(w).len() && assignment_refs(
                action_assignments(#[trigger] work_actions(w)[i]),
            ).contains(r)) ==> work_refs(w).contains(r),
{
    let a = join_refs(w.joins);
    let b = match w.where_ {
        Some(c) => cond_refs(c),
        None => seq![],
    };
    let c = match w.merge {
        Some(m) => cond_refs(m.on),
        None => seq![],
    };
    let d = action_refs(work_actions(w));
    assert(work_refs(w) == a + b + c + d);
    if b.contains(r) {
        let k = choose|k: int| 0 <= k < b.len() && b[k] == r;
        assert(work_refs(w)[a.len() + k] == r);
    }
    if c.contains(r) {
        let k = choose|k: int| 0 <= k < c.len() && c[k] == r;
        assert(work_refs(w)[a.len() + b.len() + k] == r);
    }
    if exists|i: int| 0 <= i < w.joins.len() && cond_refs((#[trigger] w.joins[i]).on).contains(r) {
        let i = choose|i: int|
            0 <= i < w.joins.len() && cond_refs((#[trigger] w.joins[i]).on).contains(r);
        lemma_join_refs(w.joins, i, r);
        let k = choose|k: int| 0 <= k < a.len() && a[k] == r;
        assert(work_refs(w)[k] == r);
    }
    if exists|i: int|
        0 <= i < work_actions(w).len() && assignment_refs(
            action_assignments(#[trigger] work_actions(w)[i]),
        ).contains(r) {
        let i = choose|i: int|
            0 <= i < work_actions(w).len() && assignment_refs(
                action_assignments(#[trigger] work_actions(w)[i]),
            ).contains(r);
        lemma_action_refs(work_actions(w), i, r);
        let k = choose|k: int| 0 <= k < d.len() && d[k] == r;
        assert(work_refs(w)[a.len() + b.len() + c.len() + k] == r);
    }
}

proof fn lemma_join_refs(v: Seq<JoinView>, i: int, r: ColRefView)
    requires
        0 <= i < v.len(),
        cond_refs(v[i].on).contains(r),
    ensures
        join_refs(v).contains(r),
    decreases v.len(),
{
    let front = join_refs(v.drop_last());
    if i == v.len() - 1 {
        let x = cond_refs(v[i].on);
        let k = choose|k: int| 0 <= k < x.len() && x[k] == r;
        assert(join_refs(v)[front.len() + k] == r);
    } else {
        assert(v.drop_last()[i] == v[i]);
        lemma_join_refs(v.drop_last(), i, r);
        let k = choose|k: int| 0 <= k < front.len() && front[k] == r;
        assert(join_refs(v)[k] == r);
    }
}

proof fn lemma_action_refs(v: Seq<ActionView>, i: int, r: ColRefView)
    requires
        0 <= i < v.len(),
        assignment_refs(action_assignments(v[i])).contains(r),
    ensures
        action_refs(v).contains(r),
    decreases v.len(),
{
    let front = action_refs(v.drop_last());
    if i == v.len() - 1 {
        let x = assignment_refs(action_assignments(v[i]));
        let k = choose|k: int| 0 <= k < x.len() && x[k] == r;
        assert(action_refs(v)[front.len() + k] == r);
    } else {
        assert(v.drop_last()[i] == v[i]);
        lemma_action_refs(v.drop_last(), i, r);
        let k = choose|k: int| 0 <= k < front.len() && front[k] == r;
        assert(action_refs(v)[k] == r);
    }
}

/// The references of assignments are those of each assigned value.
pub proof fn law_every_assigned_value_counts(v: Seq<AssignmentView>, i: int, r: ColRefView)
    requires
        0 <= i < v.len(),
        expr_refs(v[i].value).contains(r),
    ensures
        assignment_refs(v).contains(r),
    decreases v.len(),
{
    let front = assignment_refs(v.drop_last());
    if i == v.len() - 1 {
        let x = expr_refs(v[i].value);
        let k = choose|k: int| 0 <= k < x.len() && x[k] == r;
        assert(assignment_refs(v)[front.len() + k] == r);
    } else {
        assert(v.drop_last()[i] == v[i]);
        law_every_assigned_value_counts(v.drop_last(), i, r);
        let k = choose|k: int| 0 <= k < front.len() && front[k] == r;
        assert(assignment_refs(v)[k] == r);
    }
}

} // verus!
