//! A job before its rows: its target, its lookups, and everything it binds.
use crate::db::dialect::Dialect;
use crate::etl::script::ast::{ColRefView, Expr, ExprView};
use crate::etl::script::bind::{
    bind, bind_cond, bind_exprs, build_cond_plan, build_valbind,
    law_expressions_are_bound_in_order, lemma_exprs_error, BindCtx, BindCtxView, JoinMeta,
    JoinMetaView,
};
use crate::etl::script::clauses::{
    assignments_view, Assignment, AssignmentView, ConnRef, Join, JoinView, Merge, MergeView, Work,
    WorkView,
};
use crate::etl::script::eval::{binds_view, lemma_binds_push, BindView, CondPlan, PlanView, ValBind};
use crate::etl::script::lookup::{
    by_key, index_rows, merge_key, place_values, select_sql, select_text, split_merge_key,
    value_places,
};
use crate::etl::script::plan::{
    borrowed_exprs, columns_of, etl_error, has_name, join_keys,
    law_each_used_column_is_listed_once, opt_assignments, plan_work,
    referenced_columns, select_columns, select_list, split_join_keys, table_name,
    table_ref_to_string, type_targets, typed_targets, work_refs, work_writes, WorkPlan,
    WorkPlanView,
};
use crate::etl::script::rows::{opt_plan, JoinRun, JoinRuntime};
use crate::models::errors::{at_line, EluEtlError, ErrorView};
use crate::models::value::{rows_view, CellValue, CellView, DataType};
use crate::text;
use vstd::hash_map::StringHashMap;
use vstd::prelude::*;

verus! {

/// The name of a job in messages.
pub open spec fn shown_name(w: WorkView) -> Seq<char> {
    match w.name {
        Some(n) => n,
        None => "-"@,
    }
}

pub open spec fn nothing_assigned(w: WorkView, action: Seq<char>) -> ErrorView {
    etl_error(
        w.line,
        "作業「"@ + shown_name(w) + "」的 "@ + action + " 沒有任何欄位指派，至少需要一個"@,
    )
}

/// The table that a job writes to; none where it writes nothing.
pub open spec fn work_target(w: WorkView, d: Dialect) -> Result<Option<Seq<char>>, ErrorView> {
    match work_writes(w) {
        Err(e) => Err(e),
        Ok(p) => if p.insert is None && p.update is None && !p.delete {
            Ok(None)
        } else if p.insert matches Some(a) && a.len() == 0 {
            Err(nothing_assigned(w, "ADD"@))
        } else if p.update matches Some(a) && a.len() == 0 {
            Err(nothing_assigned(w, "UPDATE"@))
        } else {
            match table_name(w.into.table, d) {
                Err(e) => Err(e),
                Ok(t) => Ok(Some(t)),
            }
        },
    }
}

fn empty_action(work: &Work, action: &str) -> (r: EluEtlError)
    ensures
        r@ == nothing_assigned(work@, action@),
{
    let name: &str = match &work.name {
        Some(n) => n.as_str(),
        None => "-",
    };
    let text: String = text::cat5(
        "作業「",
        name,
        "」的 ",
        action,
        " 沒有任何欄位指派，至少需要一個",
    );
    at_line(work.line, text.as_str())
}

/// The table that a job writes to.
pub fn target_of(work: &Work, dialect: Dialect) -> (r: Result<Option<String>, EluEtlError>)
    ensures
        match r {
            Ok(t) => work_target(work@, dialect) == Ok::<Option<Seq<char>>, ErrorView>(
                text::opt_view(t),
            ),
            Err(e) => work_target(work@, dialect) == Err::<Option<Seq<char>>, ErrorView>(e@),
        },
{
    let plan: WorkPlan = plan_work(work)?;
    if plan.insert.is_none() && plan.update.is_none() && !plan.delete {
        return Ok(None);
    }
    if let Some(a) = plan.insert {
        if a.len() == 0 {
            return Err(empty_action(work, "ADD"));
        }
    }
    if let Some(a) = plan.update {
        if a.len() == 0 {
            return Err(empty_action(work, "UPDATE"));
        }
    }
    match table_ref_to_string(&work.into.table, dialect) {
        Ok(t) => Ok(Some(t)),
        Err(e) => Err(e),
    }
}

/// Columns and their types.
#[verifier::ext_equal]
pub struct ShapeView {
    pub cols: Seq<Seq<char>>,
    pub types: Seq<DataType>,
}

/// Columns and their types.
pub struct Shape {
    pub cols: Vec<String>,
    pub types: Vec<DataType>,
}

impl View for Shape {
    type V = ShapeView;

    open spec fn view(&self) -> ShapeView {
        ShapeView { cols: text::views(self.cols@), types: self.types@ }
    }
}

/// The columns that an action fills, if there is one, and their types.
pub open spec fn action_shape(
    v: Option<Seq<AssignmentView>>,
    types: Map<Seq<char>, DataType>,
    target: Seq<char>,
) -> Result<ShapeView, ErrorView> {
    match v {
        None => Ok(ShapeView { cols: seq![], types: seq![] }),
        Some(a) => match typed_targets(a, types, target) {
            Err(e) => Err(e),
            Ok((cols, types)) => Ok(ShapeView { cols, types }),
        },
    }
}

pub open spec fn shaped(r: Result<Shape, EluEtlError>, s: Result<ShapeView, ErrorView>) -> bool {
    match r {
        Ok(x) => s == Ok::<ShapeView, ErrorView>(x@),
        Err(e) => s == Err::<ShapeView, ErrorView>(e@),
    }
}

/// How many columns an action fills.
pub open spec fn action_width(v: Option<Seq<AssignmentView>>) -> nat {
    match v {
        Some(a) => a.len(),
        None => 0,
    }
}

/// The columns that an action fills and their types.
pub fn shape_of(v: Option<&Vec<Assignment>>, types: &StringHashMap<DataType>, target: &str) -> (r:
    Result<Shape, EluEtlError>)
    ensures
        shaped(r, action_shape(opt_assignments(v), types@, target@)),
        r matches Ok(x) ==> x.cols@.len() == x.types@.len() == action_width(opt_assignments(v)),
{
    match v {
        None => {
            let x = Shape { cols: Vec::new(), types: Vec::new() };
            proof {
                assert(x@.cols =~= seq![]);
                assert(x@.types =~= seq![]);
            }
            Ok(x)
        },
        Some(a) => {
            let (cols, tys): (Vec<String>, Vec<DataType>) = type_targets(a, types, target)?;
            Ok(Shape { cols, types: tys })
        },
    }
}

/// What to ask a database for a lookup.
#[verifier::ext_equal]
pub struct LookupAskView {
    pub side: ConnRef,
    pub table: Seq<char>,
    pub sql: Seq<char>,
}

/// What to ask a database for a lookup.
pub struct LookupAsk {
    pub side: ConnRef,
    pub table: String,
    pub sql: String,
}

impl View for LookupAsk {
    type V = LookupAskView;

    open spec fn view(&self) -> LookupAskView {
        LookupAskView { side: self.side, table: self.table@, sql: self.sql@ }
    }
}

/// The columns of a lookup that its job mentions.
pub open spec fn lookup_values(w: WorkView, j: JoinView) -> Seq<Seq<char>> {
    columns_of(work_refs(w), text::lower(j.binding.alias))
}

/// What to ask a database for a lookup: its key columns and the columns that
/// the job mentions. A file cannot be looked up in.
pub open spec fn ask_lookup(w: WorkView, j: JoinView, d: Dialect, file_source: bool) -> Result<
    LookupAskView,
    ErrorView,
> {
    if j.binding.conn == ConnRef::Source && file_source {
        Err(
            ErrorView::Etl(
                "JOIN 於 SOURCE，但來源是檔案，無法當查表（請改用 TARGET 連線）"@,
            ),
        )
    } else {
        match join_keys(j) {
            Err(e) => Err(e),
            Ok((keys, _)) => match table_name(j.binding.table, d) {
                Err(e) => Err(e),
                Ok(table) => match select_text(
                    d,
                    "SELECT "@,
                    select_columns(keys, lookup_values(w, j)),
                    table,
                ) {
                    Err(e) => Err(e),
                    Ok(sql) => Ok(LookupAskView { side: j.binding.conn, table, sql }),
                },
            },
        }
    }
}

/// What to ask a database for a lookup.
pub fn ask_for_lookup(work: &Work, join: &Join, dialect: Dialect, file_source: bool) -> (r: Result<
    LookupAsk,
    EluEtlError,
>)
    ensures
        match r {
            Ok(a) => ask_lookup(work@, join@, dialect, file_source) == Ok::<
                LookupAskView,
                ErrorView,
            >(a@),
            Err(e) => ask_lookup(work@, join@, dialect, file_source) == Err::<
                LookupAskView,
                ErrorView,
            >(e@),
        },
{
    if join.binding.conn == ConnRef::Source && file_source {
        return Err(
            EluEtlError::Etl(
                "JOIN 於 SOURCE，但來源是檔案，無法當查表（請改用 TARGET 連線）".to_string(),
            ),
        );
    }
    let (keys, _): (Vec<String>, Vec<&Expr>) = split_join_keys(join)?;
    let values: Vec<String> = referenced_columns(
        work,
        text::to_lower(join.binding.alias.as_str()).as_str(),
    );
    let selected: Vec<String> = select_list(&keys, &values);
    let table: String = table_ref_to_string(&join.binding.table, dialect)?;
    let sql: String = select_sql(dialect, "SELECT ", &selected, table.as_str())?;
    Ok(LookupAsk { side: join.binding.conn, table, sql })
}

/// A lookup with the rows that were fetched for it: what later expressions see
/// of it, and how it is asked.
pub open spec fn take_lookup(w: WorkView, j: JoinView, ctx: BindCtxView, rows: Seq<Seq<CellView>>) -> Result<
    (JoinMetaView, JoinRun),
    ErrorView,
> {
    match join_keys(j) {
        Err(e) => Err(e),
        Ok((keys, probes)) => match bind_exprs(probes, ctx) {
            Err(e) => Err(e),
            Ok(binds) => {
                let values = lookup_values(w, j);
                Ok(
                    (
                        JoinMetaView {
                            alias_lower: text::lower(j.binding.alias),
                            col_pos: value_places(values, select_columns(keys, values)),
                        },
                        JoinRun {
                            alias: j.binding.alias,
                            policy: j.policy,
                            probes: binds,
                            map: by_key(rows, keys.len()),
                        },
                    ),
                )
            },
        },
    }
}

fn bind_borrowed(exprs: &Vec<&Expr>, ctx: &BindCtx) -> (r: Result<Vec<ValBind>, EluEtlError>)
    ensures
        match r {
            Ok(v) => bind_exprs(borrowed_exprs(exprs@), ctx@) == Ok::<Seq<BindView>, ErrorView>(
                binds_view(v@),
            ),
            Err(e) => bind_exprs(borrowed_exprs(exprs@), ctx@) == Err::<Seq<BindView>, ErrorView>(
                e@,
            ),
        },
{
    let ghost all = borrowed_exprs(exprs@);
    let mut out: Vec<ValBind> = Vec::new();
    let mut i: usize = 0;
    assert(binds_view(out@) =~= seq![]);
    while i < exprs.len()
        invariant
            i <= exprs@.len(),
            all == borrowed_exprs(exprs@),
            bind_exprs(all.take(i as int), ctx@) == Ok::<Seq<BindView>, ErrorView>(
                binds_view(out@),
            ),
        decreases exprs@.len() - i,
    {
        assert(all.take(i + 1).drop_last() =~= all.take(i as int));
        match build_valbind(exprs[i], ctx) {
            Ok(b) => {
                proof {
                    lemma_binds_push(out@, b);
                }
                out.push(b);
            },
            Err(e) => {
                proof {
                    lemma_exprs_error(all, i + 1, ctx@);
                }
                return Err(e);
            },
        }
        i += 1;
    }
    assert(all.take(i as int) =~= all);
    Ok(out)
}

/// Takes up a lookup with the rows that were fetched for it.
pub fn load_lookup(work: &Work, join: &Join, ctx: &BindCtx, rows: Vec<Vec<CellValue>>) -> (r: Result<
    (JoinMeta, JoinRuntime),
    EluEtlError,
>)
    ensures
        match r {
            Ok((m, j)) => take_lookup(work@, join@, ctx@, rows_view(rows@)) == Ok::<
                (JoinMetaView, JoinRun),
                ErrorView,
            >((m@, j@)),
            Err(e) => take_lookup(work@, join@, ctx@, rows_view(rows@)) == Err::<
                (JoinMetaView, JoinRun),
                ErrorView,
            >(e@),
        },
{
    let (keys, exprs): (Vec<String>, Vec<&Expr>) = split_join_keys(join)?;
    let alias_lower: String = text::to_lower(join.binding.alias.as_str());
    let values: Vec<String> = referenced_columns(work, alias_lower.as_str());
    let selected: Vec<String> = select_list(&keys, &values);
    let probes: Vec<ValBind> = bind_borrowed(&exprs, ctx)?;
    let map: StringHashMap<Vec<CellValue>> = index_rows(rows, keys.len());
    let col_pos: StringHashMap<usize> = place_values(&values, &selected);
    Ok(
        (
            JoinMeta { alias_lower, col_pos },
            JoinRuntime {
                alias: join.binding.alias.as_str().to_string(),
                policy: join.policy,
                probes,
                map,
            },
        ),
    )
}

/// The values of assignments.
pub open spec fn assigned_values(v: Seq<AssignmentView>) -> Seq<ExprView> {
    Seq::new(v.len(), |i: int| v[i].value)
}

/// Where the values of an action come from, if there is one.
pub open spec fn bind_action(v: Option<Seq<AssignmentView>>, ctx: BindCtxView) -> Result<
    Seq<BindView>,
    ErrorView,
> {
    match v {
        Some(a) => bind_exprs(assigned_values(a), ctx),
        None => Ok(seq![]),
    }
}

/// Where the values of a job come from, and its condition.
#[verifier::ext_equal]
pub struct BoundView {
    pub insert: Seq<BindView>,
    pub update: Seq<BindView>,
    pub filter: Option<PlanView>,
}

pub open spec fn bind_work(w: WorkView, p: WorkPlanView, ctx: BindCtxView) -> Result<
    BoundView,
    ErrorView,
> {
    match bind_action(p.insert, ctx) {
        Err(e) => Err(e),
        Ok(insert) => match bind_action(p.update, ctx) {
            Err(e) => Err(e),
            Ok(update) => match w.where_ {
                None => Ok(BoundView { insert, update, filter: None }),
                Some(c) => match bind_cond(c, ctx) {
                    Err(e) => Err(e),
                    Ok(f) => Ok(BoundView { insert, update, filter: Some(f) }),
                },
            },
        },
    }
}

/// Where the values of a job come from, and its condition.
pub struct Bound {
    pub insert: Vec<ValBind>,
    pub update: Vec<ValBind>,
    pub filter: Option<CondPlan>,
}

impl View for Bound {
    type V = BoundView;

    open spec fn view(&self) -> BoundView {
        BoundView {
            insert: binds_view(self.insert@),
            update: binds_view(self.update@),
            filter: opt_plan(self.filter),
        }
    }
}

fn bind_values(v: Option<&Vec<Assignment>>, ctx: &BindCtx) -> (r: Result<
    Vec<ValBind>,
    EluEtlError,
>)
    ensures
        match r {
            Ok(b) => bind_action(opt_assignments(v), ctx@) == Ok::<Seq<BindView>, ErrorView>(
                binds_view(b@),
            ) && b@.len() == action_width(opt_assignments(v)),
            Err(e) => bind_action(opt_assignments(v), ctx@) == Err::<Seq<BindView>, ErrorView>(e@),
        },
{
    let mut out: Vec<ValBind> = Vec::new();
    assert(binds_view(out@) =~= seq![]);
    if let Some(a) = v {
        let ghost all = assigned_values(assignments_view(a@));
        let mut i: usize = 0;
        while i < a.len()
            invariant
                i <= a@.len(),
                out@.len() == i,
                all == assigned_values(assignments_view(a@)),
                v == Some(a),
                bind_exprs(all.take(i as int), ctx@) == Ok::<Seq<BindView>, ErrorView>(
                    binds_view(out@),
                ),
            decreases a@.len() - i,
        {
            assert(all.take(i + 1).drop_last() =~= all.take(i as int));
            match build_valbind(&a[i].value, ctx) {
                Ok(b) => {
                    proof {
                        lemma_binds_push(out@, b);
                    }
                    out.push(b);
                },
                Err(e) => {
                    proof {
                        lemma_exprs_error(all, i + 1, ctx@);
                    }
                    return Err(e);
                },
            }
            i += 1;
        }
        assert(all.take(i as int) =~= all);
    }
    Ok(out)
}

/// Binds the values and the condition of a job.
pub fn bind_job(work: &Work, plan: &WorkPlan, ctx: &BindCtx) -> (r: Result<Bound, EluEtlError>)
    ensures
        match r {
            Ok(b) => bind_work(work@, plan@, ctx@) == Ok::<BoundView, ErrorView>(b@)
                && b.insert@.len() == action_width(plan@.insert) && b.update@.len()
                == action_width(plan@.update),
            Err(e) => bind_work(work@, plan@, ctx@) == Err::<BoundView, ErrorView>(e@),
        },
{
    let insert: Vec<ValBind> = bind_values(plan.insert, ctx)?;
    let update: Vec<ValBind> = bind_values(plan.update, ctx)?;
    match &work.where_ {
        None => Ok(Bound { insert, update, filter: None }),
        Some(c) => {
            let f: CondPlan = build_cond_plan(c, ctx)?;
            Ok(Bound { insert, update, filter: Some(f) })
        },
    }
}

/// The key of a merge, and the query for the keys that the target has.
#[verifier::ext_equal]
pub struct KeyAskView {
    pub cols: Seq<Seq<char>>,
    pub srcs: Seq<BindView>,
    pub sql: Seq<char>,
}

pub open spec fn ask_keys(m: MergeView, ctx: BindCtxView, target: Seq<char>, d: Dialect, line: usize) -> Result<
    KeyAskView,
    ErrorView,
> {
    match merge_key(m, ctx, line) {
        Err(e) => Err(e),
        Ok((cols, srcs)) => match select_text(d, "SELECT DISTINCT "@, cols, target) {
            Err(e) => Err(e),
            Ok(sql) => Ok(KeyAskView { cols, srcs, sql }),
        },
    }
}

/// The key of a merge, and the query for the keys that the target has.
pub struct KeyAsk {
    pub cols: Vec<String>,
    pub srcs: Vec<ValBind>,
    pub sql: String,
}

impl View for KeyAsk {
    type V = KeyAskView;

    open spec fn view(&self) -> KeyAskView {
        KeyAskView { cols: text::views(self.cols@), srcs: binds_view(self.srcs@), sql: self.sql@ }
    }
}

/// Splits the key of a merge and asks for the keys that the target has.
pub fn ask_for_keys(merge: &Merge, ctx: &BindCtx, target: &str, dialect: Dialect, line: usize) -> (r:
    Result<KeyAsk, EluEtlError>)
    ensures
        match r {
            Ok(k) => ask_keys(merge@, ctx@, target@, dialect, line) == Ok::<KeyAskView, ErrorView>(
                k@,
            ) && k.cols@.len() == k.srcs@.len(),
            Err(e) => ask_keys(merge@, ctx@, target@, dialect, line) == Err::<
                KeyAskView,
                ErrorView,
            >(e@),
        },
{
    let (cols, srcs): (Vec<String>, Vec<ValBind>) = split_merge_key(merge, ctx, line)?;
    let sql: String = select_sql(dialect, "SELECT DISTINCT ", &cols, target)?;
    Ok(KeyAsk { cols, srcs, sql })
}

/// Every column of a lookup that a job reads has a place in what the lookup brings.
pub proof fn law_lookups_bring_what_jobs_read(
    w: WorkView,
    j: JoinView,
    ctx: BindCtxView,
    rows: Seq<Seq<CellView>>,
    r: ColRefView,
)
    requires
        work_refs(w).contains(r),
        text::same_ignoring_case(r.alias, text::lower(j.binding.alias)),
        text::is_ascii_text(r.column),
        forall|k: int|
            0 <= k < lookup_values(w, j).len() ==> text::is_ascii_text(
                #[trigger] lookup_values(w, j)[k],
            ),
    ensures
        take_lookup(w, j, ctx, rows) matches Ok((meta, _)) ==> meta.col_pos.contains_key(
            text::lower(r.column),
        ),
{
    let refs = work_refs(w);
    let alias = text::lower(j.binding.alias);
    let values = lookup_values(w, j);
    law_each_used_column_is_listed_once(refs, alias);
    let i = choose|i: int| 0 <= i < refs.len() && refs[i] == r;
    assert(has_name(values, refs[i].column));
    let k = choose|k: int|
        0 <= k < values.len() && text::same_ignoring_case(#[trigger] values[k], r.column);
    assert(text::is_ascii_text(values[k]));
    if let Ok((keys, _)) = join_keys(j) {
        lemma_placed(values, select_columns(keys, values), k);
    }
}

proof fn lemma_placed(values: Seq<Seq<char>>, selected: Seq<Seq<char>>, i: int)
    requires
        0 <= i < values.len(),
    ensures
        value_places(values, selected).contains_key(text::lower(values[i])),
    decreases values.len(),
{
    if i < values.len() - 1 {
        lemma_placed(values.drop_last(), selected, i);
        assert(values.drop_last()[i] == values[i]);
    }
}

/// A lookup is asked for its key columns and the columns whose values are needed, of its
/// table, on its side; the keys of a target are asked for by the key columns, each once.
pub proof fn law_questions_name_their_columns(
    w: WorkView,
    j: JoinView,
    d: Dialect,
    file_source: bool,
)
    ensures
        ask_lookup(w, j, d, file_source) matches Ok(a) ==> {
            &&& a.side == j.binding.conn
            &&& !(file_source && j.binding.conn is Source)
            &&& join_keys(j) matches Ok((keys, _)) && select_text(
                d,
                "SELECT "@,
                select_columns(keys, columns_of(work_refs(w), text::lower(j.binding.alias))),
                a.table,
            ) == Ok::<Seq<char>, ErrorView>(a.sql)
            &&& table_name(j.binding.table, d) == Ok::<Seq<char>, ErrorView>(a.table)
        },
        file_source && j.binding.conn is Source ==> ask_lookup(w, j, d, file_source) is Err,
{
}

/// A job without anything to write has no target; one that assigns nothing is refused.
pub proof fn law_jobs_that_write_have_a_target(w: WorkView, d: Dialect)
    ensures
        work_target(w, d) matches Ok(Some(t)) ==> (work_writes(w) matches Ok(p) && (p.insert is Some
            || p.update is Some || p.delete) && (p.insert matches Some(a) ==> a.len() > 0) && (
        p.update matches Some(a) ==> a.len() > 0)) && table_name(w.into.table, d) == Ok::<
            Seq<char>,
            ErrorView,
        >(t),
        work_target(w, d) matches Ok(None) ==> (work_writes(w) matches Ok(p) && p.insert is None
            && p.update is None && !p.delete),
        work_writes(w) is Err ==> work_target(w, d) is Err,
{
}

/// The values of an action are bound in the order of its assignments, so each goes to the
/// column that it is assigned to.
pub proof fn law_assigned_values_are_bound_in_order(
    v: Seq<AssignmentView>,
    ctx: BindCtxView,
    b: Seq<BindView>,
    i: int,
)
    requires
        bind_action(Some(v), ctx) == Ok::<Seq<BindView>, ErrorView>(b),
        0 <= i < v.len(),
    ensures
        b.len() == v.len(),
        bind(v[i].value, ctx) == Ok::<BindView, ErrorView>(b[i]),
{
    law_expressions_are_bound_in_order(assigned_values(v), ctx);
    assert(assigned_values(v)[i] == v[i].value);
}

} // verus!
