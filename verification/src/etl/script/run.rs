//! The run of a script, one step at a time: the caller talks to databases, and
//! every answer leads to the next thing to do.
use crate::db::dialect::Dialect;
use crate::double::{is_reader, reading, Real, Reading};
use crate::etl::batches::{batch, batch_count, copy_batch, count_batches, law_batches_are_full};
use crate::etl::executor::{
    add_rows, events_view, plus, EtlProgress, EtlSummary, ProgressView, SummaryView,
};
use crate::etl::script::bind::{bind_exprs, index_names, metas_view, places, BindCtx, BindCtxView, JoinMeta, JoinMetaView};
use crate::etl::script::clauses::{works_view, ConnRef, Join, Work, WorkView};
use crate::etl::script::eval::{
    binds_view, continues, lemma_binds_index, lemma_continues_self, BindView, ValBind,
};
use crate::etl::script::gen::{CtxView, Entropy, GenContext};
use crate::etl::script::lookup::{
    by_key, collect_keys, delete_sql, delete_text, key_set, key_types, type_keys, update_sql, update_text,
};
use crate::etl::script::plan::{etl_error, join_keys, plan_work, work_writes, WorkPlan, WorkPlanView};
use crate::etl::script::prepare::{
    action_shape, action_width, ask_for_keys, ask_for_lookup, ask_keys, ask_lookup, bind_job,
    bind_work, load_lookup, shape_of, take_lookup, target_of, work_target, Bound, BoundView, KeyAsk,
    KeyAskView, Shape, ShapeView,
};
use crate::etl::script::rows::{
    fresh, go_over, join_runs, law_every_row_ends_once, run_rows, Fill, FillView, JoinRun, JoinRuntime, opt_fill, MergeRun,
    MergeRuntime, RowsDone, Setting, WorkRun, WorkRuntime,
};
use crate::etl::script::scope::copy_texts;
use crate::etl::source_input::SourceData;
use crate::etl::transform::{row_errors_view, RowError, RowErrorView};
use crate::models::errors::{at_line, EluEtlError, ErrorView};
use crate::models::schema::{column_types, columns_view, index_types, ColumnInfo, ColumnView};
use crate::models::value::{rows_view, CellValue, CellView, DataType};
use crate::text;
use vstd::hash_map::StringHashMap;
use vstd::hash_set::StringHashSet;
use vstd::prelude::*;

verus! {

/// A job whose target is known and whose lookups are being fetched.
#[verifier::ext_equal]
pub struct LoadView {
    pub target: Seq<char>,
    pub types: Map<Seq<char>, DataType>,
    pub insert: ShapeView,
    pub update: ShapeView,
    pub metas: Seq<JoinMetaView>,
    pub joins: Seq<JoinRun>,
}

/// What a job writes, and how far that is.
#[verifier::ext_equal]
pub struct WritesView {
    pub target: Seq<char>,
    pub insert: ShapeView,
    pub update: ShapeView,
    pub keys: ShapeView,
    pub inserts: Seq<Seq<CellView>>,
    pub updates: Seq<Seq<CellView>>,
    pub deletes: Seq<Seq<CellView>>,
    /// How many batches of rows are added.
    pub at: usize,
}

/// What a script run waits for.
#[verifier::ext_equal]
pub enum StageView {
    /// Whether the run is cancelled before the next job.
    Between,
    /// The columns of the target.
    Columns(Seq<char>),
    /// The rows of the next lookup, from the table.
    Lookup(LoadView, Seq<char>),
    /// The keys that the target has.
    Keys(LoadView, BoundView, KeyAskView),
    /// Whether the run is cancelled before the next batch.
    Check(WritesView),
    /// That a batch is added.
    Insert(WritesView),
    /// That rows are updated.
    Update(WritesView),
    /// That rows are deleted.
    Delete(WritesView),
    Done,
}

/// A script run.
#[verifier::ext_equal]
pub struct RunView {
    pub job_id: u128,
    pub dialect: Dialect,
    /// How many rows a batch has, at least one.
    pub size: usize,
    /// Whether the source is a file.
    pub from_file: bool,
    pub works: Seq<WorkView>,
    pub header: Seq<Seq<char>>,
    pub rows: Seq<Seq<CellView>>,
    /// The number of the first row in the source.
    pub first: usize,
    pub ctx: CtxView,
    /// The job at hand.
    pub at: usize,
    pub success_rows: u64,
    pub error_rows: u64,
    pub errors: Seq<RowErrorView>,
    pub done_batches: usize,
    pub total_batches: usize,
    pub stage: StageView,
}

/// What to do next.
#[verifier::ext_equal]
pub enum ActionView {
    AskCancelled,
    /// Ask the target for the columns of a table.
    GetColumns(Seq<char>),
    /// Ask a side for rows.
    Query { side: ConnRef, sql: Seq<char> },
    /// Add rows to a table of the target.
    Insert {
        table: Seq<char>,
        cols: Seq<Seq<char>>,
        types: Seq<DataType>,
        rows: Seq<Seq<CellView>>,
    },
    /// Run a statement on the target with each row as its parameters.
    Execute { sql: Seq<char>, types: Seq<DataType>, rows: Seq<Seq<CellView>> },
    Finish(Result<SummaryView, ErrorView>),
}

/// Where a step leads: the new state, the progress to report, and what to do next.
#[verifier::ext_equal]
pub struct OutView {
    pub run: RunView,
    pub events: Seq<ProgressView>,
    pub action: ActionView,
}

/// The job at hand.
pub open spec fn current(r: RunView) -> WorkView {
    r.works[r.at as int]
}

pub open spec fn run_progress(r: RunView, phase: Seq<char>, batch: usize) -> ProgressView {
    ProgressView {
        job_id: r.job_id,
        phase,
        batch,
        total_batches: r.total_batches,
        success_rows: r.success_rows,
        error_rows: r.error_rows,
    }
}

/// The run ends with a mistake in the script or its tables.
pub open spec fn fail(r: RunView, events: Seq<ProgressView>, e: ErrorView) -> OutView {
    OutView {
        run: RunView { stage: StageView::Done, ..r },
        events,
        action: ActionView::Finish(Err(e)),
    }
}

/// The run ends with a summary.
pub open spec fn finish(
    r: RunView,
    events: Seq<ProgressView>,
    status: Seq<char>,
    failure: Option<Seq<char>>,
    elapsed_ms: u64,
) -> OutView {
    OutView {
        run: RunView { stage: StageView::Done, ..r },
        events,
        action: ActionView::Finish(
            Ok(
                SummaryView {
                    job_id: r.job_id,
                    status,
                    total_rows: r.rows.len() as u64,
                    success_rows: r.success_rows,
                    error_rows: r.error_rows,
                    elapsed_ms,
                    failure,
                    errors: r.errors,
                },
            ),
        ),
    }
}

/// The run waits for an answer.
pub open spec fn wait(
    r: RunView,
    stage: StageView,
    events: Seq<ProgressView>,
    action: ActionView,
) -> OutView {
    OutView { run: RunView { stage, ..r }, events, action }
}

/// The next job, or the end.
pub open spec fn between(r: RunView, events: Seq<ProgressView>, elapsed_ms: u64) -> OutView {
    if r.at < r.works.len() {
        wait(r, StageView::Between, events, ActionView::AskCancelled)
    } else {
        finish(r, events, "completed"@, None, elapsed_ms)
    }
}

/// The sum, or the greatest number there is.
pub open spec fn plus_size(a: usize, b: nat) -> usize {
    if a + b <= usize::MAX {
        (a + b) as usize
    } else {
        usize::MAX
    }
}

/// The product, or the greatest number there is.
pub open spec fn times_size(a: nat, b: nat) -> usize {
    if a * b <= usize::MAX {
        (a * b) as usize
    } else {
        usize::MAX
    }
}

/// How many batches a job counts in the progress: at least one.
pub open spec fn share(rows: nat, size: nat) -> nat {
    let n = batch_count(rows, size);
    if n == 0 {
        1
    } else {
        n
    }
}

/// The progress of a job that adds no rows: it counts as done at once.
pub open spec fn passed(r: RunView) -> RunView {
    RunView { done_batches: plus_size(r.done_batches, share(r.rows.len(), r.size as nat)), ..r }
}

pub open spec fn shown_batches(r: RunView) -> usize {
    if r.done_batches <= r.total_batches {
        r.done_batches
    } else {
        r.total_batches
    }
}

pub open spec fn next_work(r: RunView) -> RunView {
    RunView { at: (r.at + 1) as usize, ..r }
}

/// The job is not cancelled: it asks for the columns of its target, or, where
/// it writes nothing, the next one follows.
pub open spec fn begin_work(r: RunView, elapsed_ms: u64) -> OutView {
    match work_target(current(r), r.dialect) {
        Err(e) => fail(r, seq![], e),
        Ok(None) => {
            let p = passed(r);
            between(
                next_work(p),
                seq![run_progress(p, "load"@, shown_batches(p))],
                elapsed_ms,
            )
        },
        Ok(Some(target)) => wait(
            r,
            StageView::Columns(target),
            seq![],
            ActionView::GetColumns(target),
        ),
    }
}

/// What expressions of the job may refer to.
pub open spec fn bind_ctx(r: RunView, load: LoadView) -> BindCtxView {
    BindCtxView {
        from_alias: text::lower(current(r).from.alias),
        col_index: places(r.header),
        header: r.header,
        joins: load.metas,
    }
}

/// What the job writes; only for jobs that can be carried out.
pub open spec fn plan_of(w: WorkView) -> WorkPlanView {
    work_writes(w)->Ok_0
}

/// The columns of the target are known: the first lookup follows.
pub open spec fn on_columns(
    r: RunView,
    target: Seq<char>,
    columns: Result<Seq<ColumnView>, Seq<char>>,
    s: Setting,
    from: nat,
    elapsed_ms: u64,
) -> OutView {
    let w = current(r);
    match columns {
        Err(e) => fail(
            r,
            seq![],
            etl_error(w.into.line, "無法讀取目標表 "@ + target + "："@ + e),
        ),
        Ok(v) => {
            let types = column_types(v);
            match action_shape(plan_of(w).insert, types, target) {
                Err(e) => fail(r, seq![], e),
                Ok(insert) => match action_shape(plan_of(w).update, types, target) {
                    Err(e) => fail(r, seq![], e),
                    Ok(update) => next_lookup(
                        r,
                        LoadView { target, types, insert, update, metas: seq![], joins: seq![] },
                        seq![run_progress(r, "lookup"@, r.done_batches)],
                        s,
                        from,
                        elapsed_ms,
                    ),
                },
            }
        },
    }
}

/// The next lookup, or everything is bound.
pub open spec fn next_lookup(
    r: RunView,
    load: LoadView,
    events: Seq<ProgressView>,
    s: Setting,
    from: nat,
    elapsed_ms: u64,
) -> OutView {
    let w = current(r);
    let n = load.joins.len() as int;
    if n < w.joins.len() {
        match ask_lookup(w, w.joins[n], r.dialect, r.from_file) {
            Err(e) => fail(r, events, e),
            Ok(a) => wait(
                r,
                StageView::Lookup(load, a.table),
                events,
                ActionView::Query { side: a.side, sql: a.sql },
            ),
        }
    } else {
        bind_all(r, load, events, s, from, elapsed_ms)
    }
}

/// All lookups are there: values, condition and merge key are bound, and for a
/// merge the keys of the target are asked for.
pub open spec fn bind_all(
    r: RunView,
    load: LoadView,
    events: Seq<ProgressView>,
    s: Setting,
    from: nat,
    elapsed_ms: u64,
) -> OutView {
    let w = current(r);
    let ctx = bind_ctx(r, load);
    match bind_work(w, plan_of(w), ctx) {
        Err(e) => fail(r, events, e),
        Ok(b) => match w.merge {
            None => go(r, load, b, None, events, s, from, elapsed_ms),
            Some(m) => match ask_keys(m, ctx, load.target, r.dialect, w.into.line) {
                Err(e) => fail(r, events, e),
                Ok(k) => wait(
                    r,
                    StageView::Keys(load, b, k),
                    events,
                    ActionView::Query { side: ConnRef::Target, sql: k.sql },
                ),
            },
        },
    }
}

/// Rows were fetched for a lookup, or for the keys of the target.
pub open spec fn on_rows(
    r: RunView,
    rows: Result<Seq<Seq<CellView>>, Seq<char>>,
    s: Setting,
    from: nat,
    elapsed_ms: u64,
) -> OutView {
    let w = current(r);
    match r.stage {
        StageView::Lookup(load, table) => {
            let join = w.joins[load.joins.len() as int];
            match rows {
                Err(e) => fail(
                    r,
                    seq![],
                    etl_error(
                        join.binding.line,
                        "讀取查表 "@ + table + " 失敗："@ + e,
                    ),
                ),
                Ok(v) => match take_lookup(w, join, bind_ctx(r, load), v) {
                    Err(e) => fail(r, seq![], e),
                    Ok((meta, run)) => next_lookup(
                        r,
                        LoadView {
                            metas: load.metas.push(meta),
                            joins: load.joins.push(run),
                            ..load
                        },
                        seq![],
                        s,
                        from,
                        elapsed_ms,
                    ),
                },
            }
        },
        StageView::Keys(load, b, k) => match rows {
            Err(e) => fail(
                r,
                seq![],
                etl_error(w.into.line, "預載目標鍵集合失敗："@ + e),
            ),
            Ok(v) => go(
                r,
                load,
                b,
                Some((k, key_set(v, k.cols.len()))),
                seq![],
                s,
                from,
                elapsed_ms,
            ),
        },
        _ => arbitrary(),
    }
}

/// The values of an action with its columns and types.
pub open spec fn fill_of(
    present: bool,
    binds: Seq<BindView>,
    shape: ShapeView,
) -> Option<FillView> {
    if present {
        Some(FillView { binds, cols: shape.cols, types: shape.types })
    } else {
        None
    }
}

/// The job as it goes over the rows.
pub open spec fn work_run(
    p: WorkPlanView,
    load: LoadView,
    b: BoundView,
    merge: Option<MergeRun>,
) -> WorkRun {
    WorkRun {
        joins: load.joins,
        filter: b.filter,
        merge,
        insert: fill_of(p.insert is Some, b.insert, load.insert),
        update: fill_of(p.update is Some, b.update, load.update),
        delete: p.delete,
    }
}

/// Everything is known: the job goes over the rows, and the first batch follows.
pub open spec fn go(
    r: RunView,
    load: LoadView,
    b: BoundView,
    keys: Option<(KeyAskView, Set<Seq<char>>)>,
    events: Seq<ProgressView>,
    s: Setting,
    from: nat,
    elapsed_ms: u64,
) -> OutView {
    let w = current(r);
    match keys {
        None => go_with(
            r,
            load,
            work_run(plan_of(w), load, b, None),
            ShapeView { cols: seq![], types: seq![] },
            events,
            s,
            from,
            elapsed_ms,
        ),
        Some((k, existing)) => match key_types(k.cols, load.types, load.target, w.into.line) {
            Err(e) => fail(r, events, e),
            Ok(types) => go_with(
                r,
                load,
                work_run(
                    plan_of(w),
                    load,
                    b,
                    Some(
                        MergeRun {
                            key_cols: k.cols,
                            key_types: types,
                            key_src: k.srcs,
                            existing,
                        },
                    ),
                ),
                ShapeView { cols: k.cols, types },
                events,
                s,
                from,
                elapsed_ms,
            ),
        },
    }
}

/// The rows are gone over and the first batch follows.
pub open spec fn go_with(
    r: RunView,
    load: LoadView,
    run: WorkRun,
    keys: ShapeView,
    events: Seq<ProgressView>,
    s: Setting,
    from: nat,
    elapsed_ms: u64,
) -> OutView {
    let b = go_over(run, r.rows, r.first, s, fresh(r.errors, from));
    next_batch(
        RunView { error_rows: plus(r.error_rows, b.error_rows), errors: b.errors, ..r },
        WritesView {
            target: load.target,
            insert: load.insert,
            update: load.update,
            keys,
            inserts: b.inserts,
            updates: b.updates,
            deletes: b.deletes,
            at: 0,
        },
        events.push(run_progress(r, "transform"@, r.done_batches)),
        elapsed_ms,
    )
}

/// The next batch to add; behind the last one the updates follow.
pub open spec fn next_batch(
    r: RunView,
    w: WritesView,
    events: Seq<ProgressView>,
    elapsed_ms: u64,
) -> OutView {
    if w.at < batch_count(w.inserts.len(), r.size as nat) {
        wait(r, StageView::Check(w), events, ActionView::AskCancelled)
    } else {
        updates(r, w, events, elapsed_ms)
    }
}

/// Rows that exist already are updated; the deletions follow.
pub open spec fn updates(
    r: RunView,
    w: WritesView,
    events: Seq<ProgressView>,
    elapsed_ms: u64,
) -> OutView {
    if w.updates.len() > 0 {
        match update_text(r.dialect, w.target, w.update.cols, w.keys.cols) {
            Err(e) => fail(r, events, e),
            Ok(sql) => wait(
                r,
                StageView::Update(WritesView { updates: seq![], ..w }),
                events,
                ActionView::Execute { sql, types: w.update.types + w.keys.types, rows: w.updates },
            ),
        }
    } else {
        deletes(r, w, events, elapsed_ms)
    }
}

/// Rows that exist already are deleted; the job is over.
pub open spec fn deletes(
    r: RunView,
    w: WritesView,
    events: Seq<ProgressView>,
    elapsed_ms: u64,
) -> OutView {
    if w.deletes.len() > 0 {
        match delete_text(r.dialect, w.target, w.keys.cols) {
            Err(e) => fail(r, events, e),
            Ok(sql) => wait(
                r,
                StageView::Delete(WritesView { deletes: seq![], ..w }),
                events,
                ActionView::Execute { sql, types: w.keys.types, rows: w.deletes },
            ),
        }
    } else {
        end_work(r, w, events, elapsed_ms)
    }
}

/// The job is over; where it added no rows, its batches count as done.
pub open spec fn end_work(
    r: RunView,
    w: WritesView,
    events: Seq<ProgressView>,
    elapsed_ms: u64,
) -> OutView {
    if w.inserts.len() == 0 {
        let p = passed(r);
        between(
            next_work(p),
            events.push(run_progress(p, "load"@, shown_batches(p))),
            elapsed_ms,
        )
    } else {
        between(next_work(r), events, elapsed_ms)
    }
}

/// It is known whether the run is cancelled.
pub open spec fn on_cancelled(r: RunView, yes: bool, elapsed_ms: u64) -> OutView {
    if yes {
        finish(r, seq![], "cancelled"@, None, elapsed_ms)
    } else {
        match r.stage {
            StageView::Between => begin_work(r, elapsed_ms),
            StageView::Check(w) => wait(
                r,
                StageView::Insert(w),
                seq![run_progress(r, "load"@, r.done_batches)],
                ActionView::Insert {
                    table: w.target,
                    cols: w.insert.cols,
                    types: w.insert.types,
                    rows: batch(w.inserts, r.size as nat, w.at as nat),
                },
            ),
            _ => arbitrary(),
        }
    }
}

pub open spec fn write_failed(what: Seq<char>, target: Seq<char>, e: Seq<char>) -> Option<Seq<char>> {
    Some(what + target + " 失敗："@ + e)
}

/// Rows were written, or writing failed.
pub open spec fn on_written(r: RunView, written: Result<u64, Seq<char>>, elapsed_ms: u64) -> OutView {
    match r.stage {
        StageView::Insert(w) => match written {
            Err(e) => finish(
                r,
                seq![],
                "failed"@,
                write_failed("寫入 "@, w.target, e),
                elapsed_ms,
            ),
            Ok(n) => {
                let p = RunView {
                    success_rows: plus(r.success_rows, n as nat),
                    done_batches: plus_size(r.done_batches, 1),
                    ..r
                };
                next_batch(
                    p,
                    WritesView { at: (w.at + 1) as usize, ..w },
                    seq![run_progress(p, "load"@, p.done_batches)],
                    elapsed_ms,
                )
            },
        },
        StageView::Update(w) => match written {
            Err(e) => finish(
                r,
                seq![],
                "failed"@,
                write_failed("更新 "@, w.target, e),
                elapsed_ms,
            ),
            Ok(n) => deletes(
                RunView { success_rows: plus(r.success_rows, n as nat), ..r },
                w,
                seq![],
                elapsed_ms,
            ),
        },
        StageView::Delete(w) => match written {
            Err(e) => finish(
                r,
                seq![],
                "failed"@,
                write_failed("刪除 "@, w.target, e),
                elapsed_ms,
            ),
            Ok(n) => end_work(
                RunView { success_rows: plus(r.success_rows, n as nat), ..r },
                w,
                seq![],
                elapsed_ms,
            ),
        },
        _ => arbitrary(),
    }
}

/// A job whose target is known and whose lookups are being fetched.
pub struct Load {
    pub target: String,
    pub types: StringHashMap<DataType>,
    pub insert: Shape,
    pub update: Shape,
    pub metas: Vec<JoinMeta>,
    pub joins: Vec<JoinRuntime>,
}

impl View for Load {
    type V = LoadView;

    open spec fn view(&self) -> LoadView {
        LoadView {
            target: self.target@,
            types: self.types@,
            insert: self.insert@,
            update: self.update@,
            metas: metas_view(self.metas@),
            joins: join_runs(self.joins@),
        }
    }
}

/// What a job writes, and how far that is.
pub struct Writes {
    pub target: String,
    pub insert: Shape,
    pub update: Shape,
    pub keys: Shape,
    pub inserts: Vec<Vec<CellValue>>,
    pub updates: Vec<Vec<CellValue>>,
    pub deletes: Vec<Vec<CellValue>>,
    pub at: usize,
}

impl View for Writes {
    type V = WritesView;

    open spec fn view(&self) -> WritesView {
        WritesView {
            target: self.target@,
            insert: self.insert@,
            update: self.update@,
            keys: self.keys@,
            inserts: rows_view(self.inserts@),
            updates: rows_view(self.updates@),
            deletes: rows_view(self.deletes@),
            at: self.at,
        }
    }
}

/// What a script run waits for.
pub enum Stage {
    Between,
    Columns(String),
    Lookup(Load, String),
    Keys(Load, Bound, KeyAsk),
    Check(Writes),
    Insert(Writes),
    Update(Writes),
    Delete(Writes),
    Done,
}

impl View for Stage {
    type V = StageView;

    open spec fn view(&self) -> StageView {
        match *self {
            Stage::Between => StageView::Between,
            Stage::Columns(t) => StageView::Columns(t@),
            Stage::Lookup(l, t) => StageView::Lookup(l@, t@),
            Stage::Keys(l, b, k) => StageView::Keys(l@, b@, k@),
            Stage::Check(w) => StageView::Check(w@),
            Stage::Insert(w) => StageView::Insert(w@),
            Stage::Update(w) => StageView::Update(w@),
            Stage::Delete(w) => StageView::Delete(w@),
            Stage::Done => StageView::Done,
        }
    }
}

/// What to do next.
pub enum ScriptAction {
    AskCancelled,
    GetColumns(String),
    Query { side: ConnRef, sql: String },
    Insert {
        table: String,
        cols: Vec<String>,
        types: Vec<DataType>,
        rows: Vec<Vec<CellValue>>,
    },
    Execute { sql: String, types: Vec<DataType>, rows: Vec<Vec<CellValue>> },
    Finish(Result<EtlSummary, EluEtlError>),
}

impl View for ScriptAction {
    type V = ActionView;

    open spec fn view(&self) -> ActionView {
        match *self {
            ScriptAction::AskCancelled => ActionView::AskCancelled,
            ScriptAction::GetColumns(t) => ActionView::GetColumns(t@),
            ScriptAction::Query { side, sql } => ActionView::Query { side, sql: sql@ },
            ScriptAction::Insert { table, cols, types, rows } => ActionView::Insert {
                table: table@,
                cols: text::views(cols@),
                types: types@,
                rows: rows_view(rows@),
            },
            ScriptAction::Execute { sql, types, rows } => ActionView::Execute {
                sql: sql@,
                types: types@,
                rows: rows_view(rows@),
            },
            ScriptAction::Finish(r) => ActionView::Finish(
                match r {
                    Ok(s) => Ok(s@),
                    Err(e) => Err(e@),
                },
            ),
        }
    }
}

/// What to report and what to do next.
pub struct ScriptStep {
    pub events: Vec<EtlProgress>,
    pub action: ScriptAction,
}

/// A script run.
pub struct ScriptRun {
    job_id: u128,
    dialect: Dialect,
    size: usize,
    from_file: bool,
    works: Vec<Work>,
    header: Vec<String>,
    col_index: StringHashMap<usize>,
    rows: Vec<Vec<CellValue>>,
    first: usize,
    gen: GenContext,
    at: usize,
    success_rows: u64,
    error_rows: u64,
    errors: Vec<RowError>,
    done_batches: usize,
    total_batches: usize,
    stage: Stage,
}

impl View for ScriptRun {
    type V = RunView;

    closed spec fn view(&self) -> RunView {
        RunView {
            job_id: self.job_id,
            dialect: self.dialect,
            size: self.size,
            from_file: self.from_file,
            works: works_view(self.works@),
            header: text::views(self.header@),
            rows: rows_view(self.rows@),
            first: self.first,
            ctx: self.gen@,
            at: self.at,
            success_rows: self.success_rows,
            error_rows: self.error_rows,
            errors: row_errors_view(self.errors@),
            done_batches: self.done_batches,
            total_batches: self.total_batches,
            stage: self.stage@,
        }
    }
}

/// The columns of a job and their types fit its assignments.
pub open spec fn load_wf(r: RunView, l: LoadView) -> bool {
    let w = current(r);
    &&& r.at < r.works.len()
    &&& work_writes(w) is Ok
    &&& l.insert.cols.len() == l.insert.types.len() == action_width(plan_of(w).insert)
    &&& l.update.cols.len() == l.update.types.len() == action_width(plan_of(w).update)
}

pub open spec fn bound_wf(r: RunView, b: BoundView) -> bool {
    &&& b.insert.len() == action_width(plan_of(current(r)).insert)
    &&& b.update.len() == action_width(plan_of(current(r)).update)
}

/// What a run waits for fits the job at hand.
pub open spec fn stage_wf(r: RunView) -> bool {
    match r.stage {
        StageView::Between => r.at < r.works.len(),
        StageView::Columns(t) => r.at < r.works.len() && work_target(current(r), r.dialect) == Ok::<
            Option<Seq<char>>,
            ErrorView,
        >(Some(t)),
        StageView::Lookup(l, _) => load_wf(r, l) && l.joins.len() < current(r).joins.len(),
        StageView::Keys(l, b, k) => load_wf(r, l) && bound_wf(r, b) && k.cols.len()
            == k.srcs.len(),
        StageView::Check(w) => r.at < r.works.len() && w.at < batch_count(
            w.inserts.len(),
            r.size as nat,
        ),
        StageView::Insert(w) => r.at < r.works.len() && w.at < batch_count(
            w.inserts.len(),
            r.size as nat,
        ),
        StageView::Update(_) => r.at < r.works.len(),
        StageView::Delete(_) => r.at < r.works.len(),
        StageView::Done => true,
    }
}

impl ScriptRun {
    /// Batches have rows, and what the run waits for fits the job at hand.
    pub closed spec fn wf(&self) -> bool {
        &&& self.steady()
        &&& stage_wf(self@)
    }

    /// What stays the same over the whole run.
    closed spec fn steady(&self) -> bool {
        &&& self.size > 0
        &&& self.col_index@ == places(text::views(self.header@))
    }

    /// A step leads where `out` says.
    pub open spec fn leads(&self, step: ScriptStep, out: OutView) -> bool {
        &&& self@ == out.run
        &&& events_view(step.events@) == out.events
        &&& step.action@ == out.action
        &&& self.wf()
    }
}

fn copy_types(v: &Vec<DataType>) -> (r: Vec<DataType>)
    ensures
        r@ == v@,
{
    let mut out: Vec<DataType> = Vec::new();
    let mut i: usize = 0;
    while i < v.len()
        invariant
            i <= v@.len(),
            out@ == v@.take(i as int),
        decreases v@.len() - i,
    {
        out.push(v[i]);
        i += 1;
        assert(v@.take(i as int) =~= v@.take(i - 1).push(v@[i - 1]));
    }
    assert(v@.take(i as int) =~= v@);
    out
}

fn copy_shape(s: &Shape) -> (r: Shape)
    ensures
        r@ == s@,
        r.cols@.len() == s.cols@.len(),
        r.types@.len() == s.types@.len(),
{
    let cols: Vec<String> = copy_texts(&s.cols);
    assert(text::views(cols@).len() == text::views(s.cols@).len());
    Shape { cols, types: copy_types(&s.types) }
}

fn none_yet() -> (r: Vec<EtlProgress>)
    ensures
        events_view(r@) == Seq::<ProgressView>::empty(),
{
    let v: Vec<EtlProgress> = Vec::new();
    assert(events_view(v@) =~= Seq::<ProgressView>::empty());
    v
}

fn and_also(events: Vec<EtlProgress>, e: EtlProgress) -> (r: Vec<EtlProgress>)
    ensures
        events_view(r@) == events_view(events@).push(e@),
{
    let mut v: Vec<EtlProgress> = events;
    assert(events_view(v@.push(e)) =~= events_view(v@).push(e@));
    v.push(e);
    v
}

fn add_size(a: usize, b: usize) -> (r: usize)
    ensures
        r == plus_size(a, b as nat),
{
    if b <= usize::MAX - a {
        a + b
    } else {
        usize::MAX
    }
}

fn count_share(rows: usize, size: usize) -> (r: usize)
    requires
        size > 0,
    ensures
        r == share(rows as nat, size as nat),
{
    let n: usize = count_batches(rows, size);
    if n == 0 {
        1
    } else {
        n
    }
}

/// The progress to report before the rows are read.
pub fn reading_progress(job_id: u128) -> (r: EtlProgress)
    ensures
        r@ == (ProgressView {
            job_id,
            phase: "read"@,
            batch: 0,
            total_batches: 0,
            success_rows: 0,
            error_rows: 0,
        }),
{
    EtlProgress {
        job_id,
        phase: "read".to_string(),
        batch: 0,
        total_batches: 0,
        success_rows: 0,
        error_rows: 0,
    }
}

impl ScriptRun {
    fn progress(&self, phase: &str, batch: usize) -> (r: EtlProgress)
        ensures
            r@ == run_progress(self@, phase@, batch),
    {
        EtlProgress {
            job_id: self.job_id,
            phase: phase.to_string(),
            batch,
            total_batches: self.total_batches,
            success_rows: self.success_rows,
            error_rows: self.error_rows,
        }
    }

    fn fail(&mut self, events: Vec<EtlProgress>, e: EluEtlError) -> (r: ScriptStep)
        requires
            old(self).steady(),
        ensures
            final(self).leads(r, fail(old(self)@, events_view(events@), e@)),
    {
        self.stage = Stage::Done;
        ScriptStep { events, action: ScriptAction::Finish(Err(e)) }
    }

    fn finish(
        &mut self,
        events: Vec<EtlProgress>,
        status: &str,
        failure: Option<String>,
        elapsed_ms: u64,
    ) -> (r: ScriptStep)
        requires
            old(self).steady(),
        ensures
            final(self).leads(
                r,
                finish(
                    old(self)@,
                    events_view(events@),
                    status@,
                    text::opt_view(failure),
                    elapsed_ms,
                ),
            ),
    {
        let mut errors: Vec<RowError> = Vec::new();
        let mut i: usize = 0;
        while i < self.errors.len()
            invariant
                i <= self.errors@.len(),
                errors@.len() == i,
                *self == *old(self),
                forall|j: int| 0 <= j < i ==> #[trigger] errors@[j]@ == self.errors@[j]@,
            decreases self.errors@.len() - i,
        {
            let e: &RowError = &self.errors[i];
            errors.push(
                RowError {
                    row: e.row,
                    column: e.column.as_str().to_string(),
                    reason: e.reason.as_str().to_string(),
                },
            );
            i += 1;
        }
        proof {
            assert(row_errors_view(errors@) =~= row_errors_view(self.errors@));
        }
        let total: usize = self.rows.len();
        self.stage = Stage::Done;
        let summary = EtlSummary {
            job_id: self.job_id,
            status: status.to_string(),
            total_rows: total as u64,
            success_rows: self.success_rows,
            error_rows: self.error_rows,
            elapsed_ms,
            failure,
            errors,
        };
        ScriptStep { events, action: ScriptAction::Finish(Ok(summary)) }
    }

    fn between(&mut self, events: Vec<EtlProgress>, elapsed_ms: u64) -> (r: ScriptStep)
        requires
            old(self).steady(),
        ensures
            final(self).leads(r, between(old(self)@, events_view(events@), elapsed_ms)),
    {
        if self.at < self.works.len() {
            self.stage = Stage::Between;
            ScriptStep { events, action: ScriptAction::AskCancelled }
        } else {
            self.finish(events, "completed", None, elapsed_ms)
        }
    }

    /// A run over the rows of a source, which are read already.
    pub fn new(
        job_id: u128,
        dialect: Dialect,
        batch_size: usize,
        from_file: bool,
        works: Vec<Work>,
        data: SourceData,
        gen: GenContext,
        elapsed_ms: u64,
    ) -> (r: (ScriptRun, ScriptStep))
        ensures
            ({
                let size: usize = if batch_size == 0 {
                    1
                } else {
                    batch_size
                };
                let rows = rows_view(data.rows@);
                r.0.leads(
                    r.1,
                    between(
                        RunView {
                            job_id,
                            dialect,
                            size,
                            from_file,
                            works: works_view(works@),
                            header: text::views(data.header@),
                            rows,
                            first: data.first_data_row,
                            ctx: gen@,
                            at: 0,
                            success_rows: 0,
                            error_rows: 0,
                            errors: seq![],
                            done_batches: 0,
                            total_batches: times_size(
                                share(rows.len(), size as nat),
                                works@.len(),
                            ),
                            stage: StageView::Between,
                        },
                        seq![],
                        elapsed_ms,
                    ),
                )
            }),
    {
        let size: usize = if batch_size == 0 {
            1
        } else {
            batch_size
        };
        let part: usize = count_share(data.rows.len(), size);
        let total_batches: usize = match part.checked_mul(works.len()) {
            Some(n) => n,
            None => usize::MAX,
        };
        let col_index: StringHashMap<usize> = index_names(&data.header);
        let mut run = ScriptRun {
            job_id,
            dialect,
            size,
            from_file,
            works,
            header: data.header,
            col_index,
            rows: data.rows,
            first: data.first_data_row,
            gen,
            at: 0,
            success_rows: 0,
            error_rows: 0,
            errors: Vec::new(),
            done_batches: 0,
            total_batches,
            stage: Stage::Between,
        };
        assert(run@.errors =~= seq![]);
        let step: ScriptStep = run.between(none_yet(), elapsed_ms);
        (run, step)
    }
}

impl ScriptRun {
    fn pass(&mut self)
        requires
            old(self).steady(),
        ensures
            final(self)@ == passed(old(self)@),
            final(self).steady(),
    {
        let part: usize = count_share(self.rows.len(), self.size);
        self.done_batches = add_size(self.done_batches, part);
    }

    fn shown_batches(&self) -> (r: usize)
        ensures
            r == shown_batches(self@),
    {
        if self.done_batches <= self.total_batches {
            self.done_batches
        } else {
            self.total_batches
        }
    }

    fn to_next_work(&mut self, events: Vec<EtlProgress>, elapsed_ms: u64) -> (r: ScriptStep)
        requires
            old(self).steady(),
            old(self)@.at < old(self)@.works.len(),
        ensures
            final(self).leads(r, between(next_work(old(self)@), events_view(events@), elapsed_ms)),
    {
        let n: usize = self.works.len();
        self.at = self.at + 1;
        self.between(events, elapsed_ms)
    }

    fn begin(&mut self, elapsed_ms: u64) -> (r: ScriptStep)
        requires
            old(self).wf(),
            old(self)@.stage is Between,
        ensures
            final(self).leads(r, begin_work(old(self)@, elapsed_ms)),
    {
        match target_of(&self.works[self.at], self.dialect) {
            Err(e) => self.fail(none_yet(), e),
            Ok(None) => {
                self.pass();
                let p: EtlProgress = self.progress("load", self.shown_batches());
                let events: Vec<EtlProgress> = and_also(none_yet(), p);
                self.to_next_work(events, elapsed_ms)
            },
            Ok(Some(target)) => {
                let table: String = target.as_str().to_string();
                self.stage = Stage::Columns(target);
                ScriptStep { events: none_yet(), action: ScriptAction::GetColumns(table) }
            },
        }
    }

    fn end(&mut self, w: Writes, events: Vec<EtlProgress>, elapsed_ms: u64) -> (r: ScriptStep)
        requires
            old(self).steady(),
            old(self)@.at < old(self)@.works.len(),
        ensures
            final(self).leads(r, end_work(old(self)@, w@, events_view(events@), elapsed_ms)),
    {
        if w.inserts.len() == 0 {
            self.pass();
            let p: EtlProgress = self.progress("load", self.shown_batches());
            let shown: Vec<EtlProgress> = and_also(events, p);
            self.to_next_work(shown, elapsed_ms)
        } else {
            self.to_next_work(events, elapsed_ms)
        }
    }

    fn delete(&mut self, w: Writes, events: Vec<EtlProgress>, elapsed_ms: u64) -> (r: ScriptStep)
        requires
            old(self).steady(),
            old(self)@.at < old(self)@.works.len(),
        ensures
            final(self).leads(r, deletes(old(self)@, w@, events_view(events@), elapsed_ms)),
    {
        if w.deletes.len() > 0 {
            match delete_sql(self.dialect, w.target.as_str(), &w.keys.cols) {
                Err(e) => self.fail(events, e),
                Ok(sql) => {
                    let types: Vec<DataType> = copy_types(&w.keys.types);
                    let mut rest: Writes = w;
                    let mut rows: Vec<Vec<CellValue>> = Vec::new();
                    std::mem::swap(&mut rows, &mut rest.deletes);
                    assert(rest@.deletes =~= seq![]);
                    self.stage = Stage::Delete(rest);
                    ScriptStep { events, action: ScriptAction::Execute { sql, types, rows } }
                },
            }
        } else {
            self.end(w, events, elapsed_ms)
        }
    }

    fn update(&mut self, w: Writes, events: Vec<EtlProgress>, elapsed_ms: u64) -> (r: ScriptStep)
        requires
            old(self).steady(),
            old(self)@.at < old(self)@.works.len(),
        ensures
            final(self).leads(r, updates(old(self)@, w@, events_view(events@), elapsed_ms)),
    {
        if w.updates.len() > 0 {
            match update_sql(self.dialect, w.target.as_str(), &w.update.cols, &w.keys.cols) {
                Err(e) => self.fail(events, e),
                Ok(sql) => {
                    let mut types: Vec<DataType> = copy_types(&w.update.types);
                    let mut more: Vec<DataType> = copy_types(&w.keys.types);
                    types.append(&mut more);
                    let mut rest: Writes = w;
                    let mut rows: Vec<Vec<CellValue>> = Vec::new();
                    std::mem::swap(&mut rows, &mut rest.updates);
                    assert(rest@.updates =~= seq![]);
                    self.stage = Stage::Update(rest);
                    ScriptStep { events, action: ScriptAction::Execute { sql, types, rows } }
                },
            }
        } else {
            self.delete(w, events, elapsed_ms)
        }
    }

    fn to_next_batch(&mut self, w: Writes, events: Vec<EtlProgress>, elapsed_ms: u64) -> (r: ScriptStep)
        requires
            old(self).steady(),
            old(self)@.at < old(self)@.works.len(),
        ensures
            final(self).leads(r, next_batch(old(self)@, w@, events_view(events@), elapsed_ms)),
    {
        let n: usize = count_batches(w.inserts.len(), self.size);
        if w.at < n {
            self.stage = Stage::Check(w);
            ScriptStep { events, action: ScriptAction::AskCancelled }
        } else {
            self.update(w, events, elapsed_ms)
        }
    }

    /// Whether the run is cancelled is known.
    pub fn cancel_known(&mut self, cancelled: bool, elapsed_ms: u64) -> (r: ScriptStep)
        requires
            old(self).wf(),
            old(self)@.stage is Between || old(self)@.stage is Check,
        ensures
            final(self).leads(r, on_cancelled(old(self)@, cancelled, elapsed_ms)),
    {
        if cancelled {
            return self.finish(none_yet(), "cancelled", None, elapsed_ms);
        }
        let mut stage: Stage = Stage::Between;
        std::mem::swap(&mut stage, &mut self.stage);
        match stage {
            Stage::Check(w) => {
                let p: EtlProgress = self.progress("load", self.done_batches);
                let rows: Vec<Vec<CellValue>> = copy_batch(&w.inserts, self.size, w.at);
                let table: String = w.target.as_str().to_string();
                let shape: Shape = copy_shape(&w.insert);
                self.stage = Stage::Insert(w);
                ScriptStep {
                    events: and_also(none_yet(), p),
                    action: ScriptAction::Insert {
                        table,
                        cols: shape.cols,
                        types: shape.types,
                        rows,
                    },
                }
            },
            _ => self.begin(elapsed_ms),
        }
    }

    fn write_error(&mut self, what: &str, w: &Writes, e: &str, elapsed_ms: u64) -> (r: ScriptStep)
        requires
            old(self).steady(),
        ensures
            final(self).leads(
                r,
                finish(
                    old(self)@,
                    seq![],
                    "failed"@,
                    write_failed(what@, w@.target, e@),
                    elapsed_ms,
                ),
            ),
    {
        let reason: String = text::cat4(what, w.target.as_str(), " 失敗：", e);
        self.finish(none_yet(), "failed", Some(reason), elapsed_ms)
    }

    /// Rows were written, or writing failed.
    pub fn written(&mut self, written: Result<u64, String>, elapsed_ms: u64) -> (r: ScriptStep)
        requires
            old(self).wf(),
            old(self)@.stage is Insert || old(self)@.stage is Update || old(self)@.stage is Delete,
        ensures
            final(self).leads(
                r,
                on_written(
                    old(self)@,
                    match written {
                        Ok(n) => Ok(n),
                        Err(e) => Err(e@),
                    },
                    elapsed_ms,
                ),
            ),
    {
        let mut stage: Stage = Stage::Done;
        std::mem::swap(&mut stage, &mut self.stage);
        match stage {
            Stage::Insert(w) => match written {
                Err(e) => self.write_error("寫入 ", &w, e.as_str(), elapsed_ms),
                Ok(n) => {
                    let count: usize = count_batches(w.inserts.len(), self.size);
                    self.success_rows = add_rows(self.success_rows, n);
                    self.done_batches = add_size(self.done_batches, 1);
                    let p: EtlProgress = self.progress("load", self.done_batches);
                    let mut next: Writes = w;
                    next.at = next.at + 1;
                    self.to_next_batch(next, and_also(none_yet(), p), elapsed_ms)
                },
            },
            Stage::Update(w) => match written {
                Err(e) => self.write_error("更新 ", &w, e.as_str(), elapsed_ms),
                Ok(n) => {
                    self.success_rows = add_rows(self.success_rows, n);
                    self.delete(w, none_yet(), elapsed_ms)
                },
            },
            Stage::Delete(w) => match written {
                Err(e) => self.write_error("刪除 ", &w, e.as_str(), elapsed_ms),
                Ok(n) => {
                    self.success_rows = add_rows(self.success_rows, n);
                    self.end(w, none_yet(), elapsed_ms)
                },
            },
            _ => {
                assert(false);
                self.finish(none_yet(), "failed", None, elapsed_ms)
            },
        }
    }
}

/// The setting of a step: the run's start, and the random numbers on record behind it.
pub open spec fn step_setting(r: RunView, draws: Seq<u128>, rd: Reading) -> Setting {
    Setting { ctx: r.ctx, draws, rd }
}

fn fill_from(present: bool, binds: Vec<ValBind>, shape: &Shape) -> (r: Option<Fill>)
    requires
        present ==> binds@.len() == shape.cols@.len() == shape.types@.len(),
    ensures
        opt_fill(r) == fill_of(present, binds_view(binds@), shape@),
        r matches Some(f) ==> f.wf(),
{
    if present {
        let s: Shape = copy_shape(shape);
        Some(Fill { binds, cols: s.cols, types: s.types })
    } else {
        None
    }
}

impl ScriptRun {
    fn go_with<F: Fn(String) -> Option<Real>>(
        &mut self,
        load: Load,
        run: WorkRuntime,
        keys: Shape,
        events: Vec<EtlProgress>,
        read: &F,
        entropy: &mut Entropy,
        elapsed_ms: u64,
    ) -> (r: ScriptStep)
        requires
            is_reader(*read),
            old(self).steady(),
            old(self)@.at < old(self)@.works.len(),
            run.wf(),
        ensures
            continues(final(entropy)@, old(entropy)@),
            final(self).leads(
                r,
                go_with(
                    old(self)@,
                    load@,
                    run@,
                    keys@,
                    events_view(events@),
                    step_setting(old(self)@, final(entropy)@, reading(*read)),
                    old(entropy)@.len(),
                    elapsed_ms,
                ),
            ),
    {
        let p: EtlProgress = self.progress("transform", self.done_batches);
        let shown: Vec<EtlProgress> = and_also(events, p);
        let mut errors: Vec<RowError> = Vec::new();
        std::mem::swap(&mut errors, &mut self.errors);
        let done: RowsDone = run_rows(
            &run,
            &self.rows,
            self.first,
            &self.gen,
            read,
            errors,
            entropy,
        );
        self.error_rows = add_rows(self.error_rows, done.error_rows as u64);
        self.errors = done.errors;
        let w = Writes {
            target: load.target,
            insert: load.insert,
            update: load.update,
            keys,
            inserts: done.inserts,
            updates: done.updates,
            deletes: done.deletes,
            at: 0,
        };
        self.to_next_batch(w, shown, elapsed_ms)
    }

    fn go<F: Fn(String) -> Option<Real>>(
        &mut self,
        load: Load,
        b: Bound,
        keys: Option<(KeyAsk, StringHashSet)>,
        events: Vec<EtlProgress>,
        read: &F,
        entropy: &mut Entropy,
        elapsed_ms: u64,
    ) -> (r: ScriptStep)
        requires
            is_reader(*read),
            old(self).steady(),
            load_wf(old(self)@, load@),
            bound_wf(old(self)@, b@),
            keys matches Some((k, _)) ==> k.cols@.len() == k.srcs@.len(),
        ensures
            continues(final(entropy)@, old(entropy)@),
            final(self).leads(
                r,
                go(
                    old(self)@,
                    load@,
                    b@,
                    match keys {
                        Some((k, e)) => Some((k@, e@)),
                        None => None,
                    },
                    events_view(events@),
                    step_setting(old(self)@, final(entropy)@, reading(*read)),
                    old(entropy)@.len(),
                    elapsed_ms,
                ),
            ),
    {
        proof {
            lemma_continues_self(entropy@);
            lemma_binds_index(b.insert@);
            lemma_binds_index(b.update@);
            assert(text::views(load.insert.cols@).len() == load.insert.cols@.len());
            assert(text::views(load.update.cols@).len() == load.update.cols@.len());
        }
        let (inserts, updates, delete): (bool, bool, bool) = match plan_work(&self.works[self.at]) {
            Ok(p) => (p.insert.is_some(), p.update.is_some(), p.delete),
            Err(e) => {
                assert(false);
                return self.fail(events, e);
            },
        };
        let line: usize = self.works[self.at].into.line;
        let insert: Option<Fill> = fill_from(inserts, b.insert, &load.insert);
        let update: Option<Fill> = fill_from(updates, b.update, &load.update);
        match keys {
            None => {
                let none = Shape { cols: Vec::new(), types: Vec::new() };
                proof {
                    assert(none@.cols =~= seq![]);
                    assert(none@.types =~= seq![]);
                }
                let mut joins: Vec<JoinRuntime> = Vec::new();
                let mut rest: Load = load;
                std::mem::swap(&mut joins, &mut rest.joins);
                let run = WorkRuntime {
                    joins,
                    filter: b.filter,
                    merge: None,
                    insert,
                    update,
                    delete,
                };
                self.go_with(rest, run, none, events, read, entropy, elapsed_ms)
            },
            Some((k, existing)) => match type_keys(
                &k.cols,
                &load.types,
                load.target.as_str(),
                line,
            ) {
                Err(e) => self.fail(events, e),
                Ok(types) => {
                    let shape = Shape { cols: copy_texts(&k.cols), types: copy_types(&types) };
                    let mut joins: Vec<JoinRuntime> = Vec::new();
                    let mut rest: Load = load;
                    std::mem::swap(&mut joins, &mut rest.joins);
                    let run = WorkRuntime {
                        joins,
                        filter: b.filter,
                        merge: Some(
                            MergeRuntime {
                                key_cols: k.cols,
                                key_types: types,
                                key_src: k.srcs,
                                existing,
                            },
                        ),
                        insert,
                        update,
                        delete,
                    };
                    self.go_with(rest, run, shape, events, read, entropy, elapsed_ms)
                },
            },
        }
    }
}

impl ScriptRun {
    fn bind_all<F: Fn(String) -> Option<Real>>(
        &mut self,
        load: Load,
        events: Vec<EtlProgress>,
        read: &F,
        entropy: &mut Entropy,
        elapsed_ms: u64,
    ) -> (r: ScriptStep)
        requires
            is_reader(*read),
            old(self).steady(),
            load_wf(old(self)@, load@),
        ensures
            continues(final(entropy)@, old(entropy)@),
            final(self).leads(
                r,
                bind_all(
                    old(self)@,
                    load@,
                    events_view(events@),
                    step_setting(old(self)@, final(entropy)@, reading(*read)),
                    old(entropy)@.len(),
                    elapsed_ms,
                ),
            ),
    {
        proof {
            lemma_continues_self(entropy@);
        }
        let (b, k): (Bound, Option<KeyAsk>) = {
            let work: &Work = &self.works[self.at];
            let from_alias: String = text::to_lower(work.from.alias.as_str());
            let ctx = BindCtx {
                from_alias: from_alias.as_str(),
                col_index: &self.col_index,
                header: &self.header,
                joins: &load.metas,
            };
            assert(ctx@ == bind_ctx(self@, load@));
            let plan: WorkPlan = match plan_work(work) {
                Ok(p) => p,
                Err(e) => {
                    assert(false);
                    return self.fail(events, e);
                },
            };
            let b: Bound = match bind_job(work, &plan, &ctx) {
                Ok(b) => b,
                Err(e) => {
                    return self.fail(events, e);
                },
            };
            match &work.merge {
                None => (b, None),
                Some(m) => match ask_for_keys(
                    m,
                    &ctx,
                    load.target.as_str(),
                    self.dialect,
                    work.into.line,
                ) {
                    Ok(k) => (b, Some(k)),
                    Err(e) => {
                        return self.fail(events, e);
                    },
                },
            }
        };
        proof {
            lemma_binds_index(b.insert@);
            lemma_binds_index(b.update@);
        }
        match k {
            None => self.go(load, b, None, events, read, entropy, elapsed_ms),
            Some(k) => {
                proof {
                    lemma_binds_index(k.srcs@);
                }
                let sql: String = k.sql.as_str().to_string();
                self.stage = Stage::Keys(load, b, k);
                ScriptStep { events, action: ScriptAction::Query { side: ConnRef::Target, sql } }
            },
        }
    }

    fn ask_next<F: Fn(String) -> Option<Real>>(
        &mut self,
        load: Load,
        events: Vec<EtlProgress>,
        read: &F,
        entropy: &mut Entropy,
        elapsed_ms: u64,
    ) -> (r: ScriptStep)
        requires
            is_reader(*read),
            old(self).steady(),
            load_wf(old(self)@, load@),
        ensures
            continues(final(entropy)@, old(entropy)@),
            final(self).leads(
                r,
                next_lookup(
                    old(self)@,
                    load@,
                    events_view(events@),
                    step_setting(old(self)@, final(entropy)@, reading(*read)),
                    old(entropy)@.len(),
                    elapsed_ms,
                ),
            ),
    {
        proof {
            lemma_continues_self(entropy@);
        }
        let n: usize = load.joins.len();
        if n < self.works[self.at].joins.len() {
            let work: &Work = &self.works[self.at];
            match ask_for_lookup(work, &work.joins[n], self.dialect, self.from_file) {
                Err(e) => self.fail(events, e),
                Ok(a) => {
                    self.stage = Stage::Lookup(load, a.table);
                    ScriptStep {
                        events,
                        action: ScriptAction::Query { side: a.side, sql: a.sql },
                    }
                },
            }
        } else {
            self.bind_all(load, events, read, entropy, elapsed_ms)
        }
    }

    /// The columns of the target are known, or could not be read.
    pub fn columns_known<F: Fn(String) -> Option<Real>>(
        &mut self,
        columns: Result<Vec<ColumnInfo>, String>,
        read: &F,
        entropy: &mut Entropy,
        elapsed_ms: u64,
    ) -> (r: ScriptStep)
        requires
            is_reader(*read),
            old(self).wf(),
            old(self)@.stage is Columns,
        ensures
            continues(final(entropy)@, old(entropy)@),
            final(self).leads(
                r,
                on_columns(
                    old(self)@,
                    old(self)@.stage->Columns_0,
                    match columns {
                        Ok(v) => Ok(columns_view(v@)),
                        Err(e) => Err(e@),
                    },
                    step_setting(old(self)@, final(entropy)@, reading(*read)),
                    old(entropy)@.len(),
                    elapsed_ms,
                ),
            ),
    {
        proof {
            lemma_continues_self(entropy@);
        }
        let mut stage: Stage = Stage::Done;
        std::mem::swap(&mut stage, &mut self.stage);
        let target: String = match stage {
            Stage::Columns(t) => t,
            _ => {
                assert(false);
                String::new()
            },
        };
        let line: usize = self.works[self.at].into.line;
        let columns: Vec<ColumnInfo> = match columns {
            Ok(v) => v,
            Err(e) => {
                let rest: String = text::cat4(
                    "無法讀取目標表 ",
                    target.as_str(),
                    "：",
                    e.as_str(),
                );
                return self.fail(none_yet(), at_line(line, rest.as_str()));
            },
        };
        let types: StringHashMap<DataType> = index_types(&columns);
        let (insert, update): (Shape, Shape) = {
            let plan: WorkPlan = match plan_work(&self.works[self.at]) {
                Ok(p) => p,
                Err(e) => {
                    assert(false);
                    return self.fail(none_yet(), e);
                },
            };
            let insert: Shape = match shape_of(plan.insert, &types, target.as_str()) {
                Ok(s) => s,
                Err(e) => {
                    return self.fail(none_yet(), e);
                },
            };
            let update: Shape = match shape_of(plan.update, &types, target.as_str()) {
                Ok(s) => s,
                Err(e) => {
                    return self.fail(none_yet(), e);
                },
            };
            (insert, update)
        };
        let load = Load { target, types, insert, update, metas: Vec::new(), joins: Vec::new() };
        proof {
            assert(load@.metas =~= seq![]);
            assert(load@.joins =~= seq![]);
        }
        let p: EtlProgress = self.progress("lookup", self.done_batches);
        self.ask_next(load, and_also(none_yet(), p), read, entropy, elapsed_ms)
    }

    /// Rows were fetched, or could not be.
    pub fn rows_known<F: Fn(String) -> Option<Real>>(
        &mut self,
        rows: Result<Vec<Vec<CellValue>>, String>,
        read: &F,
        entropy: &mut Entropy,
        elapsed_ms: u64,
    ) -> (r: ScriptStep)
        requires
            is_reader(*read),
            old(self).wf(),
            old(self)@.stage is Lookup || old(self)@.stage is Keys,
        ensures
            continues(final(entropy)@, old(entropy)@),
            final(self).leads(
                r,
                on_rows(
                    old(self)@,
                    match rows {
                        Ok(v) => Ok(rows_view(v@)),
                        Err(e) => Err(e@),
                    },
                    step_setting(old(self)@, final(entropy)@, reading(*read)),
                    old(entropy)@.len(),
                    elapsed_ms,
                ),
            ),
    {
        proof {
            lemma_continues_self(entropy@);
        }
        let mut stage: Stage = Stage::Done;
        std::mem::swap(&mut stage, &mut self.stage);
        match stage {
            Stage::Lookup(load, table) => {
                let (meta, run): (JoinMeta, JoinRuntime) = {
                    let work: &Work = &self.works[self.at];
                    let join: &Join = &work.joins[load.joins.len()];
                    let rows: Vec<Vec<CellValue>> = match rows {
                        Ok(v) => v,
                        Err(e) => {
                            let rest: String = text::cat4(
                                "讀取查表 ",
                                table.as_str(),
                                " 失敗：",
                                e.as_str(),
                            );
                            let line: usize = join.binding.line;
                            return self.fail(none_yet(), at_line(line, rest.as_str()));
                        },
                    };
                    let from_alias: String = text::to_lower(work.from.alias.as_str());
                    let ctx = BindCtx {
                        from_alias: from_alias.as_str(),
                        col_index: &self.col_index,
                        header: &self.header,
                        joins: &load.metas,
                    };
                    match load_lookup(work, join, &ctx, rows) {
                        Ok(p) => p,
                        Err(e) => {
                            return self.fail(none_yet(), e);
                        },
                    }
                };
                let mut next: Load = load;
                proof {
                    assert(metas_view(next.metas@.push(meta)) =~= metas_view(next.metas@).push(
                        meta@,
                    ));
                    assert(join_runs(next.joins@.push(run)) =~= join_runs(next.joins@).push(run@));
                }
                next.metas.push(meta);
                next.joins.push(run);
                self.ask_next(next, none_yet(), read, entropy, elapsed_ms)
            },
            Stage::Keys(load, b, k) => match rows {
                Err(e) => {
                    let line: usize = self.works[self.at].into.line;
                    let rest: String = text::cat("預載目標鍵集合失敗：", e.as_str());
                    self.fail(none_yet(), at_line(line, rest.as_str()))
                },
                Ok(v) => {
                    proof {
                        lemma_binds_index(k.srcs@);
                        assert(text::views(k.cols@).len() == k.cols@.len());
                    }
                    let existing: StringHashSet = collect_keys(&v, k.cols.len());
                    self.go(load, b, Some((k, existing)), none_yet(), read, entropy, elapsed_ms)
                },
            },
            _ => {
                assert(false);
                self.finish(none_yet(), "failed", None, elapsed_ms)
            },
        }
    }
}

/// A cancelled run ends at once with what was written so far.
pub proof fn law_cancelling_ends_the_run(r: RunView, elapsed_ms: u64)
    ensures
        ({
            let out = on_cancelled(r, true, elapsed_ms);
            &&& out.run.stage is Done
            &&& out.action matches ActionView::Finish(Ok(s)) && s.status == "cancelled"@
                && s.success_rows == r.success_rows && s.error_rows == r.error_rows && s.errors
                == r.errors
        }),
{
}

/// Where writing fails the run ends; what was written before stays counted,
/// and nothing of the failed write is.
pub proof fn law_failed_writes_end_the_run(r: RunView, e: Seq<char>, elapsed_ms: u64)
    requires
        r.stage is Insert || r.stage is Update || r.stage is Delete,
    ensures
        ({
            let out = on_written(r, Err(e), elapsed_ms);
            &&& out.run.stage is Done
            &&& out.action matches ActionView::Finish(Ok(s)) && s.status == "failed"@ && s.failure
                is Some && s.success_rows == r.success_rows
        }),
{
}

/// The batches of a job are added in order: the one at hand is written, and
/// only once it is there the next one is asked for.
pub proof fn law_batches_are_added_in_order(r: RunView, w: WritesView, n: u64, elapsed_ms: u64)
    requires
        r.stage == StageView::Check(w),
        r.size > 0,
        w.inserts.len() <= usize::MAX,
        w.at < batch_count(w.inserts.len(), r.size as nat),
    ensures
        ({
            let asked = on_cancelled(r, false, elapsed_ms);
            let done = on_written(asked.run, Ok(n), elapsed_ms);
            &&& asked.action matches ActionView::Insert { rows, .. } && rows == batch(
                w.inserts,
                r.size as nat,
                w.at as nat,
            )
            &&& asked.run.stage == StageView::Insert(w)
            &&& w.at + 1 < batch_count(w.inserts.len(), r.size as nat) ==> done.run.stage
                == StageView::Check(WritesView { at: (w.at + 1) as usize, ..w })
            &&& w.at + 1 < batch_count(w.inserts.len(), r.size as nat) ==> done.run.success_rows
                == plus(r.success_rows, n as nat)
        }),
{
    law_batches_are_full(w.inserts.len(), r.size as nat, w.at as nat);
    assert(w.at + 1 <= w.inserts.len()) by (nonlinear_arith)
        requires
            w.at * r.size < w.inserts.len(),
            r.size >= 1,
    ;
}

/// A job without a write action does not touch the databases: the next one
/// follows at once.
pub proof fn law_idle_jobs_are_passed_over(r: RunView, elapsed_ms: u64)
    requires
        r.stage is Between,
        r.at < r.works.len() <= usize::MAX,
        work_writes(current(r)) == Ok::<WorkPlanView, ErrorView>(
            WorkPlanView { insert: None, update: None, delete: false },
        ),
    ensures
        ({
            let out = on_cancelled(r, false, elapsed_ms);
            if r.at + 1 < r.works.len() {
                out.action is AskCancelled && out.run.at == r.at + 1 && out.run.stage is Between
            } else {
                out.action matches ActionView::Finish(Ok(s)) && s.status == "completed"@
            }
        }),
{
}

/// The progress that is shown never goes beyond the total.
pub proof fn law_passed_jobs_stay_within_the_total(r: RunView)
    ensures
        shown_batches(passed(r)) <= r.total_batches,
{
}

/// What is written counts: each write adds the rows it reports, whatever comes next,
/// and no write changes the count of failed rows.
pub proof fn law_written_rows_are_counted(r: RunView, n: u64, elapsed_ms: u64)
    requires
        r.stage is Insert || r.stage is Update || r.stage is Delete,
        r.success_rows + n <= u64::MAX,
    ensures
        on_written(r, Ok(n), elapsed_ms).run.success_rows == r.success_rows + n,
        on_written(r, Ok(n), elapsed_ms).run.error_rows == r.error_rows,
        on_written(r, Ok(n), elapsed_ms).run.errors == r.errors,
        on_written(r, Ok(n), elapsed_ms).run.rows == r.rows,
{
}

/// A job is left only when nothing of it is left to write: all batches are added, then
/// the rows to update are updated, then the rows to delete are deleted.
pub proof fn law_nothing_is_left_unwritten(
    r: RunView,
    w: WritesView,
    events: Seq<ProgressView>,
    elapsed_ms: u64,
)
    requires
        r.at < usize::MAX,
    ensures
        ({
            let out = next_batch(r, w, events, elapsed_ms);
            &&& out.run.at != r.at ==> w.at >= batch_count(w.inserts.len(), r.size as nat)
                && w.updates.len() == 0 && w.deletes.len() == 0
            &&& w.at < batch_count(w.inserts.len(), r.size as nat) ==> out.run.stage
                == StageView::Check(w)
            &&& w.at >= batch_count(w.inserts.len(), r.size as nat) && w.updates.len() > 0
                && update_text(r.dialect, w.target, w.update.cols, w.keys.cols) is Ok
                ==> out.action is Execute
            &&& w.at >= batch_count(w.inserts.len(), r.size as nat) && w.updates.len() == 0
                && w.deletes.len() > 0 && delete_text(r.dialect, w.target, w.keys.cols) is Ok
                ==> out.action is Execute
        }),
{
}

/// An update runs the statement that sets the columns of the update for the rows of the
/// key, once with every row that was to be updated; its parameters are those columns
/// and behind them the key. A delete runs the statement for the rows of the key with
/// every row that was to be deleted.
pub proof fn law_statements_run_with_their_rows(
    r: RunView,
    w: WritesView,
    events: Seq<ProgressView>,
    elapsed_ms: u64,
)
    ensures
        w.updates.len() > 0 ==> (updates(r, w, events, elapsed_ms).action matches ActionView::Execute {
            sql,
            types,
            rows,
        } ==> {
            &&& Ok::<Seq<char>, ErrorView>(sql) == update_text(
                r.dialect,
                w.target,
                w.update.cols,
                w.keys.cols,
            )
            &&& rows == w.updates
            &&& types.len() == w.update.types.len() + w.keys.types.len()
            &&& types.take(w.update.types.len() as int) == w.update.types
            &&& types.skip(w.update.types.len() as int) == w.keys.types
        }),
        w.deletes.len() > 0 ==> (deletes(r, w, events, elapsed_ms).action matches ActionView::Execute {
            sql,
            types,
            rows,
        } ==> {
            &&& Ok::<Seq<char>, ErrorView>(sql) == delete_text(r.dialect, w.target, w.keys.cols)
            &&& rows == w.deletes
            &&& types == w.keys.types
        }),
        updates(r, w, events, elapsed_ms).run.stage matches StageView::Update(left)
            ==> left.updates.len() == 0 && left.deletes == w.deletes,
{
    let a = w.update.types;
    let b = w.keys.types;
    assert((a + b).take(a.len() as int) =~= a);
    assert((a + b).skip(a.len() as int) =~= b);
}

/// Updated rows come before deleted ones: once the update is done, the rows to delete
/// come next.
pub proof fn law_deletes_follow_updates(r: RunView, w: WritesView, n: u64, elapsed_ms: u64)
    requires
        r.stage == StageView::Update(w),
        w.deletes.len() > 0,
        delete_text(r.dialect, w.target, w.keys.cols) is Ok,
    ensures
        on_written(r, Ok(n), elapsed_ms).action matches ActionView::Execute { rows, .. } && rows
            == w.deletes,
        on_written(r, Ok(n), elapsed_ms).run.stage matches StageView::Delete(left)
            && left.deletes.len() == 0,
{
}

/// The lookups of a job are asked in the order in which they are written, each on the
/// side that it names, and the job goes on only when all are there.
pub proof fn law_lookups_are_asked_in_order(
    r: RunView,
    load: LoadView,
    events: Seq<ProgressView>,
    s: Setting,
    from: nat,
    elapsed_ms: u64,
)
    requires
        load.joins.len() < current(r).joins.len(),
    ensures
        ({
            let out = next_lookup(r, load, events, s, from, elapsed_ms);
            let join = current(r).joins[load.joins.len() as int];
            match ask_lookup(current(r), join, r.dialect, r.from_file) {
                Ok(a) => out.action == (ActionView::Query { side: join.binding.conn, sql: a.sql })
                    && (out.run.stage matches StageView::Lookup(l, _) && l == load),
                Err(e) => out.action == ActionView::Finish(Err(e)),
            }
        }),
{
}

/// The rows that a lookup brings are kept for that lookup, behind those of the earlier
/// ones; its conditions may use those.
pub proof fn law_fetched_rows_go_to_their_lookup(
    r: RunView,
    load: LoadView,
    table: Seq<char>,
    rows: Seq<Seq<CellView>>,
    s: Setting,
    from: nat,
    elapsed_ms: u64,
)
    requires
        r.stage == StageView::Lookup(load, table),
        load.joins.len() + 1 < current(r).joins.len(),
    ensures
        ({
            let out = on_rows(r, Ok(rows), s, from, elapsed_ms);
            let join = current(r).joins[load.joins.len() as int];
            out.run.stage matches StageView::Lookup(l, _) ==> {
                &&& l.joins.len() == load.joins.len() + 1
                &&& l.joins.drop_last() == load.joins
                &&& l.metas.drop_last() == load.metas
                &&& l.joins.last().alias == join.binding.alias
                &&& l.joins.last().policy == join.policy
                &&& l.metas.last().alias_lower == text::lower(join.binding.alias)
                &&& join_keys(join) matches Ok((keys, probes)) && l.joins.last().map == by_key(
                    rows,
                    keys.len(),
                ) && bind_exprs(probes, bind_ctx(r, load)) == Ok::<Seq<BindView>, ErrorView>(
                    l.joins.last().probes,
                )
            }
        }),
{
    let join = current(r).joins[load.joins.len() as int];
    if let Ok((meta, run)) = take_lookup(current(r), join, bind_ctx(r, load), rows) {
        assert(load.joins.push(run).drop_last() =~= load.joins);
        assert(load.metas.push(meta).drop_last() =~= load.metas);
    }
}

/// The keys that a target has decide which rows exist: exactly the keys of the rows that
/// it answered with.
pub proof fn law_keys_of_the_target_count(
    r: RunView,
    load: LoadView,
    b: BoundView,
    k: KeyAskView,
    rows: Seq<Seq<CellView>>,
    s: Setting,
    from: nat,
    elapsed_ms: u64,
)
    requires
        r.stage == StageView::Keys(load, b, k),
    ensures
        on_rows(r, Ok(rows), s, from, elapsed_ms) == go(
            r,
            load,
            b,
            Some((k, key_set(rows, k.cols.len()))),
            seq![],
            s,
            from,
            elapsed_ms,
        ),
{
}

/// Failed rows of a job are added to those of the jobs before it, and the rows of the
/// source stay as they are.
pub proof fn law_failed_rows_add_up(
    r: RunView,
    load: LoadView,
    run: WorkRun,
    keys: ShapeView,
    events: Seq<ProgressView>,
    s: Setting,
    from: nat,
    elapsed_ms: u64,
)
    requires
        r.error_rows + r.rows.len() <= u64::MAX,
    ensures
        ({
            let b = go_over(run, r.rows, r.first, s, fresh(r.errors, from));
            let out = go_with(r, load, run, keys, events, s, from, elapsed_ms);
            &&& out.run.error_rows == r.error_rows + b.error_rows
            &&& out.run.errors == b.errors
            &&& out.run.success_rows == r.success_rows
            &&& out.run.rows == r.rows
        }),
{
    law_every_row_ends_once(run, r.rows, r.first, s, fresh(r.errors, from));
}

/// A run ends as completed only behind its last job, and tells how many rows the source
/// had, how many were written and how many failed.
pub proof fn law_runs_complete_behind_the_last_job(
    r: RunView,
    events: Seq<ProgressView>,
    elapsed_ms: u64,
)
    ensures
        between(r, events, elapsed_ms).action matches ActionView::Finish(Ok(s)) ==> {
            &&& r.at >= r.works.len()
            &&& s.status == "completed"@
            &&& s.success_rows == r.success_rows
            &&& s.error_rows == r.error_rows
            &&& s.errors == r.errors
            &&& r.rows.len() <= u64::MAX ==> s.total_rows == r.rows.len()
            &&& s.failure is None
            &&& s.job_id == r.job_id
            &&& s.elapsed_ms == elapsed_ms
        },
        r.at < r.works.len() ==> between(r, events, elapsed_ms).action is AskCancelled,
{
}

/// A job with something to write asks the target for the columns of its table first; what
/// it writes gets the types of those columns, by name.
pub proof fn law_jobs_learn_their_columns(
    r: RunView,
    target: Seq<char>,
    columns: Seq<ColumnView>,
    s: Setting,
    from: nat,
    elapsed_ms: u64,
)
    requires
        r.stage is Between,
        work_target(current(r), r.dialect) == Ok::<Option<Seq<char>>, ErrorView>(Some(target)),
    ensures
        on_cancelled(r, false, elapsed_ms).action == ActionView::GetColumns(target),
        on_cancelled(r, false, elapsed_ms).run.stage == StageView::Columns(target),
        on_columns(r, target, Ok(columns), s, from, elapsed_ms).run.stage matches StageView::Lookup(
            load,
            _,
        ) ==> load.types == column_types(columns) && load.target == target && action_shape(
            plan_of(current(r)).insert,
            column_types(columns),
            target,
        ) == Ok::<ShapeView, ErrorView>(load.insert) && action_shape(
            plan_of(current(r)).update,
            column_types(columns),
            target,
        ) == Ok::<ShapeView, ErrorView>(load.update),
{
}

/// Each action writes the columns that it assigns with the types of those columns.
pub proof fn law_actions_fill_their_columns(
    p: WorkPlanView,
    load: LoadView,
    b: BoundView,
    merge: Option<MergeRun>,
)
    ensures
        ({
            let w = work_run(p, load, b, merge);
            &&& w.joins == load.joins
            &&& w.filter == b.filter
            &&& w.merge == merge
            &&& w.delete == p.delete
            &&& w.insert is Some <==> p.insert is Some
            &&& w.update is Some <==> p.update is Some
            &&& w.insert matches Some(f) ==> f.binds == b.insert && f.cols == load.insert.cols
                && f.types == load.insert.types
            &&& w.update matches Some(f) ==> f.binds == b.update && f.cols == load.update.cols
                && f.types == load.update.types
        }),
{
}

/// All jobs together have as many batches as one has, times the jobs; a job without rows
/// to add counts as at least one.
pub proof fn law_batches_of_a_run(rows: nat, size: nat, works: nat)
    requires
        size > 0,
    ensures
        share(rows, size) >= 1,
        rows > 0 ==> share(rows, size) == batch_count(rows, size),
        share(rows, size) * works <= usize::MAX ==> times_size(share(rows, size), works)
            == share(rows, size) * works,
{
    if rows > 0 {
        let q = rows / size;
        assert(rows % size == 0 ==> q > 0) by (nonlinear_arith)
            requires
                size > 0,
                rows > 0,
                q == rows / size,
        ;
    }
}

/// When every lookup is there, none is asked for again: the job binds what it writes, or
/// fails where that cannot be bound.
pub proof fn law_complete_lookups_are_not_asked_again(
    r: RunView,
    load: LoadView,
    events: Seq<ProgressView>,
    s: Setting,
    from: nat,
    elapsed_ms: u64,
)
    requires
        load.joins.len() == current(r).joins.len(),
    ensures
        ({
            let out = next_lookup(r, load, events, s, from, elapsed_ms);
            &&& !(out.run.stage is Lookup)
            &&& bind_work(current(r), plan_of(current(r)), bind_ctx(r, load)) matches Err(e)
                ==> out.action == ActionView::Finish(Err(e))
        }),
{
}

} // verus!
