//! The row loop of a job: lookups, filter, merge, and the cells to write.
use crate::double::{is_reader, reading, Real, Reading};
use crate::etl::script::clauses::JoinPolicy;
use crate::etl::script::eval::{
    binds_view, continues, eval, eval_all, eval_cells, eval_cond_plan, eval_valbind, found_view,
    holds, lemma_all_stable, lemma_binds_index, lemma_continues_on, lemma_continues_self,
    lemma_eval_stable, lemma_holds_stable, more_draws, BindView, CondPlan, PlanView, RowCtx, RowEnv,
    ValBind,
};
use crate::etl::script::gen::{CtxView, Entropy, GenContext};
use crate::etl::script::keys::{compose_key, key_of_cells};
use crate::etl::script::lookup::map_view;
use crate::etl::transform::{
    number_row, row_errors_view, row_number, RowError, RowErrorView,
};
use crate::models::value::{
    cell_text, convert, row_view, rows_view, CellValue, CellView, DataType,
};
use crate::text;
use vstd::hash_map::StringHashMap;
use vstd::hash_set::StringHashSet;
use vstd::prelude::*;

verus! {

/// How many row errors are kept in detail.
pub const ERROR_DETAIL_CAP: usize = 1000;

/// A lookup ready to be asked.
pub struct JoinRuntime {
    pub alias: String,
    pub policy: JoinPolicy,
    /// The values that make up its key.
    pub probes: Vec<ValBind>,
    pub map: StringHashMap<Vec<CellValue>>,
}

#[verifier::ext_equal]
pub struct JoinRun {
    pub alias: Seq<char>,
    pub policy: JoinPolicy,
    pub probes: Seq<BindView>,
    pub map: Map<Seq<char>, Seq<CellView>>,
}

impl View for JoinRuntime {
    type V = JoinRun;

    open spec fn view(&self) -> JoinRun {
        JoinRun {
            alias: self.alias@,
            policy: self.policy,
            probes: binds_view(self.probes@),
            map: map_view(self.map@),
        }
    }
}

pub open spec fn join_runs(v: Seq<JoinRuntime>) -> Seq<JoinRun> {
    Seq::new(v.len(), |i: int| v[i]@)
}

/// The columns that an action fills, with their types and values.
pub struct Fill {
    pub binds: Vec<ValBind>,
    pub cols: Vec<String>,
    pub types: Vec<DataType>,
}

#[verifier::ext_equal]
pub struct FillView {
    pub binds: Seq<BindView>,
    pub cols: Seq<Seq<char>>,
    pub types: Seq<DataType>,
}

impl View for Fill {
    type V = FillView;

    open spec fn view(&self) -> FillView {
        FillView {
            binds: binds_view(self.binds@),
            cols: text::views(self.cols@),
            types: self.types@,
        }
    }
}

impl Fill {
    /// There is a column and a type for every value.
    pub open spec fn wf(&self) -> bool {
        self.binds@.len() == self.cols@.len() == self.types@.len()
    }
}

pub open spec fn opt_fill(x: Option<Fill>) -> Option<FillView> {
    match x {
        Some(f) => Some(f@),
        None => None,
    }
}

/// The key of a merge, and the keys that the target has already.
pub struct MergeRuntime {
    pub key_cols: Vec<String>,
    pub key_types: Vec<DataType>,
    pub key_src: Vec<ValBind>,
    pub existing: StringHashSet,
}

#[verifier::ext_equal]
pub struct MergeRun {
    pub key_cols: Seq<Seq<char>>,
    pub key_types: Seq<DataType>,
    pub key_src: Seq<BindView>,
    pub existing: Set<Seq<char>>,
}

impl View for MergeRuntime {
    type V = MergeRun;

    open spec fn view(&self) -> MergeRun {
        MergeRun {
            key_cols: text::views(self.key_cols@),
            key_types: self.key_types@,
            key_src: binds_view(self.key_src@),
            existing: self.existing@,
        }
    }
}

impl MergeRuntime {
    /// There is a column and a type for every part of the key.
    pub open spec fn wf(&self) -> bool {
        self.key_cols@.len() == self.key_types@.len() == self.key_src@.len()
    }
}

pub open spec fn opt_merge_run(x: Option<MergeRuntime>) -> Option<MergeRun> {
    match x {
        Some(m) => Some(m@),
        None => None,
    }
}

pub open spec fn opt_plan(x: Option<CondPlan>) -> Option<PlanView> {
    match x {
        Some(p) => Some(p@),
        None => None,
    }
}

/// A job ready to go over the rows.
pub struct WorkRuntime {
    pub joins: Vec<JoinRuntime>,
    pub filter: Option<CondPlan>,
    pub merge: Option<MergeRuntime>,
    pub insert: Option<Fill>,
    pub update: Option<Fill>,
    pub delete: bool,
}

#[verifier::ext_equal]
pub struct WorkRun {
    pub joins: Seq<JoinRun>,
    pub filter: Option<PlanView>,
    pub merge: Option<MergeRun>,
    pub insert: Option<FillView>,
    pub update: Option<FillView>,
    pub delete: bool,
}

impl View for WorkRuntime {
    type V = WorkRun;

    open spec fn view(&self) -> WorkRun {
        WorkRun {
            joins: join_runs(self.joins@),
            filter: opt_plan(self.filter),
            merge: opt_merge_run(self.merge),
            insert: opt_fill(self.insert),
            update: opt_fill(self.update),
            delete: self.delete,
        }
    }
}

impl WorkRuntime {
    pub open spec fn wf(&self) -> bool {
        &&& self.merge matches Some(m) ==> m.wf()
        &&& self.insert matches Some(f) ==> f.wf()
        &&& self.update matches Some(f) ==> f.wf()
    }
}

/// What happens to all rows of a run alike.
pub struct Setting {
    pub ctx: CtxView,
    pub draws: Seq<u128>,
    pub rd: Reading,
}

pub open spec fn row_env(row: Seq<CellView>, joins: Seq<Option<Seq<CellView>>>, s: Setting) -> RowEnv {
    RowEnv { row, joins, ctx: s.ctx, draws: s.draws }
}

/// Why a row is not written.
#[verifier::ext_equal]
pub struct Failure {
    pub column: Seq<char>,
    pub reason: Seq<char>,
}

/// The row that a lookup finds for some key cells.
pub open spec fn find(map: Map<Seq<char>, Seq<CellView>>, cells: Seq<CellView>) -> Option<
    Seq<CellView>,
> {
    match compose_key(cells) {
        Some(k) => if map.contains_key(k) {
            Some(map[k])
        } else {
            None
        },
        None => None,
    }
}

pub open spec fn texts_of(cells: Seq<CellView>) -> Seq<Seq<char>> {
    Seq::new(cells.len(), |i: int| cell_text(cells[i]))
}

/// What the lookups of a row find, one after the other. A lookup may use what
/// those before it found. Where one finds nothing, its policy decides.
pub open spec fn look_up(joins: Seq<JoinRun>, row: Seq<CellView>, s: Setting, at: nat) -> (
    Result<Seq<Option<Seq<CellView>>>, Failure>,
    nat,
)
    decreases joins.len(),
{
    if joins.len() == 0 {
        (Ok(seq![]), at)
    } else {
        match look_up(joins.drop_last(), row, s, at) {
            (Err(f), n) => (Err(f), n),
            (Ok(found), n) => {
                let j = joins.last();
                let (cells, m) = eval_all(j.probes, row_env(row, found, s), n);
                match find(j.map, cells) {
                    Some(hit) => (Ok(found.push(Some(hit))), m),
                    None => match j.policy {
                        JoinPolicy::Left => (Ok(found.push(None)), m),
                        JoinPolicy::Inner => (
                            Err(
                                Failure {
                                    column: j.alias,
                                    reason: "查表 ["@ + j.alias + "] 查無對應："@
                                        + text::join_seq(texts_of(cells), ", "@),
                                },
                            ),
                            m,
                        ),
                    },
                }
            },
        }
    }
}

/// The cells that an action writes, converted to the types of their columns;
/// the first that cannot be converted fails the row.
pub open spec fn filled(f: FillView, env: RowEnv, rd: Reading, at: nat) -> (
    Result<Seq<CellView>, Failure>,
    nat,
)
    decreases f.binds.len(),
{
    if f.binds.len() == 0 {
        (Ok(seq![]), at)
    } else {
        match filled(
            FillView {
                binds: f.binds.drop_last(),
                cols: f.cols.drop_last(),
                types: f.types.drop_last(),
            },
            env,
            rd,
            at,
        ) {
            (Err(x), n) => (Err(x), n),
            (Ok(cells), n) => {
                let (c, m) = eval(f.binds.last(), env, n);
                match convert(c, f.types.last(), rd) {
                    Ok(v) => (Ok(cells.push(v)), m),
                    Err(reason) => (Err(Failure { column: f.cols.last(), reason }), m),
                }
            },
        }
    }
}

/// Key cells converted to the types of their columns.
pub open spec fn converted_key(
    cells: Seq<CellView>,
    types: Seq<DataType>,
    cols: Seq<Seq<char>>,
    rd: Reading,
) -> Result<Seq<CellView>, Failure>
    decreases cells.len(),
{
    if cells.len() == 0 {
        Ok(seq![])
    } else {
        match converted_key(cells.drop_last(), types.drop_last(), cols.drop_last(), rd) {
            Err(x) => Err(x),
            Ok(done) => match convert(cells.last(), types.last(), rd) {
                Ok(v) => Ok(done.push(v)),
                Err(reason) => Err(Failure { column: cols.last(), reason }),
            },
        }
    }
}

/// What becomes of a row.
#[verifier::ext_equal]
pub enum Outcome {
    Insert(Seq<CellView>),
    Update(Seq<CellView>),
    Delete(Seq<CellView>),
    /// Nothing is written, and nothing is wrong.
    Skip,
    Fail(Failure),
}

/// What becomes of a row whose key the target has already.
pub open spec fn matched_outcome(
    w: WorkRun,
    m: MergeRun,
    cells: Seq<CellView>,
    env: RowEnv,
    rd: Reading,
    at: nat,
) -> (Outcome, nat) {
    if w.update matches Some(f) && f.binds.len() > 0 {
        match filled(w.update->0, env, rd, at) {
            (Err(x), n) => (Outcome::Fail(x), n),
            (Ok(set), n) => match converted_key(cells, m.key_types, m.key_cols, rd) {
                Ok(keys) => (Outcome::Update(set + keys), n),
                Err(x) => (Outcome::Fail(x), n),
            },
        }
    } else if w.delete {
        match converted_key(cells, m.key_types, m.key_cols, rd) {
            Ok(keys) => (Outcome::Delete(keys), at),
            Err(x) => (Outcome::Fail(x), at),
        }
    } else {
        (Outcome::Skip, at)
    }
}

/// What becomes of a row to add.
pub open spec fn insert_outcome(w: WorkRun, env: RowEnv, rd: Reading, at: nat) -> (Outcome, nat) {
    match w.insert {
        None => (Outcome::Skip, at),
        Some(f) => match filled(f, env, rd, at) {
            (Ok(cells), n) => (Outcome::Insert(cells), n),
            (Err(x), n) => (Outcome::Fail(x), n),
        },
    }
}

/// What becomes of a row that passed the filter, the keys that were added
/// already, and how many random numbers are used up.
pub open spec fn write_outcome(
    w: WorkRun,
    env: RowEnv,
    rd: Reading,
    seen: Set<Seq<char>>,
    at: nat,
) -> (Outcome, Set<Seq<char>>, nat) {
    match w.merge {
        None => {
            let (o, n) = insert_outcome(w, env, rd, at);
            (o, seen, n)
        },
        Some(m) => {
            let (cells, n) = eval_all(m.key_src, env, at);
            match compose_key(cells) {
                Some(k) => if m.existing.contains(k) {
                    let (o, q) = matched_outcome(w, m, cells, env, rd, n);
                    (o, seen, q)
                } else if w.insert is None || seen.contains(k) {
                    (Outcome::Skip, seen, n)
                } else {
                    let (o, q) = insert_outcome(w, env, rd, n);
                    (o, seen.insert(k), q)
                },
                None => {
                    let (o, q) = insert_outcome(w, env, rd, n);
                    (o, seen, q)
                },
            }
        },
    }
}

/// What becomes of a row.
pub open spec fn row_outcome(
    w: WorkRun,
    row: Seq<CellView>,
    s: Setting,
    seen: Set<Seq<char>>,
    at: nat,
) -> (Outcome, Set<Seq<char>>, nat) {
    match look_up(w.joins, row, s, at) {
        (Err(f), n) => (Outcome::Fail(f), seen, n),
        (Ok(found), n) => {
            let env = row_env(row, found, s);
            match w.filter {
                None => write_outcome(w, env, s.rd, seen, n),
                Some(p) => {
                    let (pass, m) = holds(p, env, s.rd, n);
                    if pass {
                        write_outcome(w, env, s.rd, seen, m)
                    } else {
                        (Outcome::Skip, seen, m)
                    }
                },
            }
        },
    }
}

/// What a job makes of rows.
#[verifier::ext_equal]
pub struct Batch {
    pub inserts: Seq<Seq<CellView>>,
    pub updates: Seq<Seq<CellView>>,
    pub deletes: Seq<Seq<CellView>>,
    /// The keys of the rows to add.
    pub seen: Set<Seq<char>>,
    pub error_rows: nat,
    /// The errors in detail, up to the limit.
    pub errors: Seq<RowErrorView>,
    /// How many random numbers are used up.
    pub used: nat,
}

/// The errors with one more, up to the limit.
pub open spec fn with_error(errors: Seq<RowErrorView>, e: RowErrorView) -> Seq<RowErrorView> {
    if errors.len() < ERROR_DETAIL_CAP {
        errors.push(e)
    } else {
        errors
    }
}

/// The state behind a row.
pub open spec fn after_row(b: Batch, o: Outcome, seen: Set<Seq<char>>, used: nat, number: usize) -> Batch {
    let next = Batch { seen, used, ..b };
    match o {
        Outcome::Insert(c) => Batch { inserts: b.inserts.push(c), ..next },
        Outcome::Update(c) => Batch { updates: b.updates.push(c), ..next },
        Outcome::Delete(c) => Batch { deletes: b.deletes.push(c), ..next },
        Outcome::Skip => next,
        Outcome::Fail(f) => Batch {
            error_rows: b.error_rows + 1,
            errors: with_error(
                b.errors,
                RowErrorView { row: number, column: f.column, reason: f.reason },
            ),
            ..next
        },
    }
}

/// What a job makes of rows, one after the other.
pub open spec fn go_over(
    w: WorkRun,
    rows: Seq<Seq<CellView>>,
    first: usize,
    s: Setting,
    start: Batch,
) -> Batch
    decreases rows.len(),
{
    if rows.len() == 0 {
        start
    } else {
        let b = go_over(w, rows.drop_last(), first, s, start);
        let (o, seen, used) = row_outcome(w, rows.last(), s, b.seen, b.used);
        after_row(b, o, seen, used, row_number(first, rows.len() - 1))
    }
}

/// Nothing written yet; some random numbers and errors may be there from before.
pub open spec fn fresh(errors: Seq<RowErrorView>, used: nat) -> Batch {
    Batch {
        inserts: seq![],
        updates: seq![],
        deletes: seq![],
        seen: Set::empty(),
        error_rows: 0,
        errors,
        used,
    }
}

/// The setting with more random numbers behind those it has.
pub open spec fn richer(s: Setting, more: Seq<u128>) -> Setting {
    Setting { draws: s.draws + more, ..s }
}

proof fn lemma_look_up_stable(
    joins: Seq<JoinRun>,
    row: Seq<CellView>,
    s: Setting,
    more: Seq<u128>,
    at: nat,
)
    ensures
        at <= look_up(joins, row, s, at).1,
        look_up(joins, row, s, at).0 matches Ok(f) ==> f.len() == joins.len(),
        look_up(joins, row, s, at).1 <= s.draws.len() ==> look_up(joins, row, richer(s, more), at)
            == look_up(joins, row, s, at),
    decreases joins.len(),
{
    if joins.len() > 0 {
        lemma_look_up_stable(joins.drop_last(), row, s, more, at);
        if let (Ok(found), n) = look_up(joins.drop_last(), row, s, at) {
            lemma_all_stable(joins.last().probes, row_env(row, found, s), more, n);
        }
    }
}

/// Once a lookup has failed a row, it stays failed.
proof fn lemma_look_up_fails(joins: Seq<JoinRun>, k: int, row: Seq<CellView>, s: Setting, at: nat)
    requires
        0 <= k <= joins.len(),
        look_up(joins.take(k), row, s, at).0 is Err,
    ensures
        look_up(joins, row, s, at) == look_up(joins.take(k), row, s, at),
    decreases joins.len() - k,
{
    if k < joins.len() {
        assert(joins.take(k + 1).drop_last() =~= joins.take(k));
        lemma_look_up_fails(joins, k + 1, row, s, at);
    } else {
        assert(joins.take(k) =~= joins);
    }
}

/// The first columns of what an action fills.
pub open spec fn fill_take(f: FillView, k: int) -> FillView {
    FillView { binds: f.binds.take(k), cols: f.cols.take(k), types: f.types.take(k) }
}

pub open spec fn fill_wf(f: FillView) -> bool {
    f.binds.len() == f.cols.len() == f.types.len()
}

proof fn lemma_fill_take(f: FillView, k: int)
    requires
        fill_wf(f),
        0 <= k < f.binds.len(),
    ensures
        ({
            let g = fill_take(f, k + 1);
            &&& fill_take(f, k) == FillView {
                binds: g.binds.drop_last(),
                cols: g.cols.drop_last(),
                types: g.types.drop_last(),
            }
            &&& g.binds.len() == k + 1
            &&& g.binds.last() == f.binds[k]
            &&& g.cols.last() == f.cols[k]
            &&& g.types.last() == f.types[k]
        }),
{
    let g = fill_take(f, k + 1);
    assert(g.binds.drop_last() =~= f.binds.take(k));
    assert(g.cols.drop_last() =~= f.cols.take(k));
    assert(g.types.drop_last() =~= f.types.take(k));
}

proof fn lemma_filled_stable(f: FillView, env: RowEnv, rd: Reading, more: Seq<u128>, at: nat)
    ensures
        at <= filled(f, env, rd, at).1,
        filled(f, env, rd, at).1 <= env.draws.len() ==> filled(f, more_draws(env, more), rd, at)
            == filled(f, env, rd, at),
    decreases f.binds.len(),
{
    if f.binds.len() > 0 {
        let g = FillView {
            binds: f.binds.drop_last(),
            cols: f.cols.drop_last(),
            types: f.types.drop_last(),
        };
        lemma_filled_stable(g, env, rd, more, at);
        lemma_eval_stable(f.binds.last(), env, more, filled(g, env, rd, at).1);
    }
}

/// Once a column has failed a row, it stays failed.
proof fn lemma_filled_fails(f: FillView, k: int, env: RowEnv, rd: Reading, at: nat)
    requires
        fill_wf(f),
        0 <= k <= f.binds.len(),
        filled(fill_take(f, k), env, rd, at).0 is Err,
    ensures
        filled(f, env, rd, at) == filled(fill_take(f, k), env, rd, at),
    decreases f.binds.len() - k,
{
    if k < f.binds.len() {
        lemma_fill_take(f, k);
        lemma_filled_fails(f, k + 1, env, rd, at);
    } else {
        assert(fill_take(f, k) =~= f);
    }
}

/// Once a key cell has failed a row, it stays failed.
proof fn lemma_key_fails(
    cells: Seq<CellView>,
    types: Seq<DataType>,
    cols: Seq<Seq<char>>,
    rd: Reading,
    k: int,
)
    requires
        0 <= k <= cells.len(),
        cells.len() == types.len() == cols.len(),
        converted_key(cells.take(k), types.take(k), cols.take(k), rd) is Err,
    ensures
        converted_key(cells, types, cols, rd) == converted_key(
            cells.take(k),
            types.take(k),
            cols.take(k),
            rd,
        ),
    decreases cells.len() - k,
{
    if k < cells.len() {
        assert(cells.take(k + 1).drop_last() =~= cells.take(k));
        assert(types.take(k + 1).drop_last() =~= types.take(k));
        assert(cols.take(k + 1).drop_last() =~= cols.take(k));
        lemma_key_fails(cells, types, cols, rd, k + 1);
    } else {
        assert(cells.take(k) =~= cells);
        assert(types.take(k) =~= types);
        assert(cols.take(k) =~= cols);
    }
}

proof fn lemma_write_stable(
    w: WorkRun,
    env: RowEnv,
    rd: Reading,
    seen: Set<Seq<char>>,
    more: Seq<u128>,
    at: nat,
)
    ensures
        at <= write_outcome(w, env, rd, seen, at).2,
        write_outcome(w, env, rd, seen, at).2 <= env.draws.len() ==> write_outcome(
            w,
            more_draws(env, more),
            rd,
            seen,
            at,
        ) == write_outcome(w, env, rd, seen, at),
{
    let n = match w.merge {
        Some(m) => {
            lemma_all_stable(m.key_src, env, more, at);
            eval_all(m.key_src, env, at).1
        },
        None => at,
    };
    if let Some(f) = w.insert {
        lemma_filled_stable(f, env, rd, more, n);
    }
    if let Some(f) = w.update {
        lemma_filled_stable(f, env, rd, more, n);
    }
}

proof fn lemma_row_stable(
    w: WorkRun,
    row: Seq<CellView>,
    s: Setting,
    seen: Set<Seq<char>>,
    more: Seq<u128>,
    at: nat,
)
    ensures
        at <= row_outcome(w, row, s, seen, at).2,
        row_outcome(w, row, s, seen, at).2 <= s.draws.len() ==> row_outcome(
            w,
            row,
            richer(s, more),
            seen,
            at,
        ) == row_outcome(w, row, s, seen, at),
{
    lemma_look_up_stable(w.joins, row, s, more, at);
    if let (Ok(found), n) = look_up(w.joins, row, s, at) {
        let env = row_env(row, found, s);
        assert(row_env(row, found, richer(s, more)) == more_draws(env, more));
        match w.filter {
            Some(p) => {
                lemma_holds_stable(p, env, s.rd, more, n);
                lemma_write_stable(w, env, s.rd, seen, more, holds(p, env, s.rd, n).1);
            },
            None => {
                lemma_write_stable(w, env, s.rd, seen, more, n);
            },
        }
    }
}

proof fn lemma_go_over_stable(
    w: WorkRun,
    rows: Seq<Seq<CellView>>,
    first: usize,
    s: Setting,
    start: Batch,
    more: Seq<u128>,
)
    ensures
        start.used <= go_over(w, rows, first, s, start).used,
        go_over(w, rows, first, s, start).used <= s.draws.len() ==> go_over(
            w,
            rows,
            first,
            richer(s, more),
            start,
        ) == go_over(w, rows, first, s, start),
    decreases rows.len(),
{
    if rows.len() > 0 {
        lemma_go_over_stable(w, rows.drop_last(), first, s, start, more);
        let b = go_over(w, rows.drop_last(), first, s, start);
        lemma_row_stable(w, rows.last(), s, b.seen, more, b.used);
    }
}

/// Why a row is not written.
pub struct Fault {
    pub column: String,
    pub reason: String,
}

impl View for Fault {
    type V = Failure;

    open spec fn view(&self) -> Failure {
        Failure { column: self.column@, reason: self.reason@ }
    }
}

/// The setting with the random numbers on record.
pub open spec fn setting(gen: GenContext, draws: Seq<u128>, rd: Reading) -> Setting {
    Setting { ctx: gen@, draws, rd }
}

proof fn lemma_later(gen: GenContext, later: Seq<u128>, earlier: Seq<u128>, rd: Reading)
    requires
        continues(later, earlier),
    ensures
        setting(gen, later, rd) == richer(
            setting(gen, earlier, rd),
            later.skip(earlier.len() as int),
        ),
{
    assert(earlier + later.skip(earlier.len() as int) =~= later);
}

fn show_cells(cells: &Vec<CellValue>) -> (r: String)
    ensures
        r@ == text::join_seq(texts_of(row_view(cells@)), ", "@),
{
    let mut parts: Vec<String> = Vec::new();
    let mut i: usize = 0;
    while i < cells.len()
        invariant
            i <= cells@.len(),
            parts@.len() == i,
            forall|j: int| 0 <= j < i ==> #[trigger] parts@[j]@ == cell_text(cells@[j]@),
        decreases cells@.len() - i,
    {
        parts.push(cells[i].to_display_string());
        i += 1;
    }
    assert(text::views(parts@) =~= texts_of(row_view(cells@)));
    text::join(&parts, ", ")
}

fn find_row<'a>(map: &'a StringHashMap<Vec<CellValue>>, cells: &Vec<CellValue>) -> (r: Option<
    &'a Vec<CellValue>,
>)
    ensures
        match r {
            Some(v) => find(map_view(map@), row_view(cells@)) == Some(row_view(v@)),
            None => find(map_view(map@), row_view(cells@)) is None,
        },
{
    assert(row_view(cells@).take(cells@.len() as int) =~= row_view(cells@));
    match key_of_cells(cells, cells.len()) {
        Some(k) => map.get(k.as_str()),
        None => None,
    }
}

pub open spec fn looked_up(
    r: Result<Vec<Option<&Vec<CellValue>>>, Fault>,
    s: Result<Seq<Option<Seq<CellView>>>, Failure>,
) -> bool {
    match r {
        Ok(v) => s == Ok::<Seq<Option<Seq<CellView>>>, Failure>(found_view(v@)),
        Err(e) => s == Err::<Seq<Option<Seq<CellView>>>, Failure>(e@),
    }
}

/// Asks the lookups for a row.
pub fn find_rows<'a, F: Fn(String) -> Option<Real>>(
    joins: &'a Vec<JoinRuntime>,
    row: &Vec<CellValue>,
    gen: &GenContext,
    read: &F,
    entropy: &mut Entropy,
) -> (r: Result<Vec<Option<&'a Vec<CellValue>>>, Fault>)
    requires
        is_reader(*read),
    ensures
        continues(final(entropy)@, old(entropy)@),
        ({
            let (s, n) = look_up(
                join_runs(joins@),
                row_view(row@),
                setting(*gen, final(entropy)@, reading(*read)),
                old(entropy)@.len(),
            );
            looked_up(r, s) && n == final(entropy)@.len()
        }),
{
    let ghost all = join_runs(joins@);
    let ghost cells = row_view(row@);
    let ghost rd = reading(*read);
    let ghost start = entropy@;
    let mut found: Vec<Option<&'a Vec<CellValue>>> = Vec::new();
    let mut i: usize = 0;
    proof {
        lemma_continues_self(start);
        assert(found_view(found@) =~= seq![]);
    }
    while i < joins.len()
        invariant
            i <= joins@.len(),
            all == join_runs(joins@),
            cells == row_view(row@),
            rd == reading(*read),
            is_reader(*read),
            start == old(entropy)@,
            continues(entropy@, start),
            look_up(all.take(i as int), cells, setting(*gen, entropy@, rd), start.len()) == (
                Ok::<Seq<Option<Seq<CellView>>>, Failure>(found_view(found@)),
                entropy@.len(),
            ),
        decreases joins@.len() - i,
    {
        let ghost mid = entropy@;
        let j: &'a JoinRuntime = &joins[i];
        let key: Vec<CellValue> = {
            let ctx = RowCtx { row, joins: &found, gen };
            eval_cells(&j.probes, &ctx, entropy)
        };
        proof {
            lemma_later(*gen, entropy@, mid, rd);
            lemma_look_up_stable(
                all.take(i as int),
                cells,
                setting(*gen, mid, rd),
                entropy@.skip(mid.len() as int),
                start.len(),
            );
            lemma_continues_on(start, mid, entropy@);
            assert(all.take(i + 1).drop_last() =~= all.take(i as int));
            assert(all.take(i + 1).last() == j@);
        }
        match find_row(&j.map, &key) {
            Some(hit) => {
                proof {
                    assert(found_view(found@.push(Some(hit))) =~= found_view(found@).push(
                        Some(row_view(hit@)),
                    ));
                }
                found.push(Some(hit));
            },
            None => match j.policy {
                JoinPolicy::Left => {
                    proof {
                        assert(found_view(found@.push(None)) =~= found_view(found@).push(None));
                    }
                    found.push(None);
                },
                JoinPolicy::Inner => {
                    let keys: String = show_cells(&key);
                    proof {
                        lemma_look_up_fails(
                            all,
                            i + 1,
                            cells,
                            setting(*gen, entropy@, rd),
                            start.len(),
                        );
                    }
                    return Err(
                        Fault {
                            column: j.alias.as_str().to_string(),
                            reason: text::cat4(
                                "查表 [",
                                j.alias.as_str(),
                                "] 查無對應：",
                                keys.as_str(),
                            ),
                        },
                    );
                },
            },
        }
        i += 1;
    }
    assert(all.take(i as int) =~= all);
    Ok(found)
}

pub open spec fn cells_done(r: Result<Vec<CellValue>, Fault>, s: Result<Seq<CellView>, Failure>) -> bool {
    match r {
        Ok(v) => s == Ok::<Seq<CellView>, Failure>(row_view(v@)),
        Err(e) => s == Err::<Seq<CellView>, Failure>(e@),
    }
}

/// The cells that an action writes.
pub fn fill_row<F: Fn(String) -> Option<Real>>(
    fill: &Fill,
    ctx: &RowCtx,
    read: &F,
    entropy: &mut Entropy,
) -> (r: Result<Vec<CellValue>, Fault>)
    requires
        is_reader(*read),
        fill.wf(),
    ensures
        continues(final(entropy)@, old(entropy)@),
        ({
            let (s, n) = filled(
                fill@,
                ctx.env(final(entropy)@),
                reading(*read),
                old(entropy)@.len(),
            );
            cells_done(r, s) && n == final(entropy)@.len()
        }),
{
    let ghost f = fill@;
    let ghost rd = reading(*read);
    let ghost start = entropy@;
    let mut out: Vec<CellValue> = Vec::new();
    let mut i: usize = 0;
    proof {
        lemma_binds_index(fill.binds@);
        lemma_continues_self(start);
        assert(row_view(out@) =~= seq![]);
    }
    while i < fill.binds.len()
        invariant
            i <= fill.binds@.len() == f.binds.len(),
            f == fill@,
            fill.wf(),
            fill_wf(f),
            rd == reading(*read),
            is_reader(*read),
            start == old(entropy)@,
            continues(entropy@, start),
            forall|j: int| 0 <= j < f.binds.len() ==> f.binds[j] == #[trigger] fill.binds@[j]@,
            filled(fill_take(f, i as int), ctx.env(entropy@), rd, start.len()) == (
                Ok::<Seq<CellView>, Failure>(row_view(out@)),
                entropy@.len(),
            ),
        decreases fill.binds@.len() - i,
    {
        let ghost mid = entropy@;
        let c: CellValue = eval_valbind(&fill.binds[i], ctx, entropy);
        proof {
            let more = entropy@.skip(mid.len() as int);
            assert(mid + more =~= entropy@);
            assert(more_draws(ctx.env(mid), more) == ctx.env(entropy@));
            lemma_filled_stable(fill_take(f, i as int), ctx.env(mid), rd, more, start.len());
            lemma_continues_on(start, mid, entropy@);
            lemma_fill_take(f, i as int);
        }
        match c.convert_to(fill.types[i], read) {
            Ok(v) => {
                proof {
                    assert(row_view(out@.push(v)) =~= row_view(out@).push(v@));
                }
                out.push(v);
            },
            Err(reason) => {
                proof {
                    lemma_filled_fails(f, i + 1, ctx.env(entropy@), rd, start.len());
                }
                return Err(Fault { column: fill.cols[i].as_str().to_string(), reason });
            },
        }
        i += 1;
    }
    assert(fill_take(f, i as int) =~= f);
    Ok(out)
}

/// Converts key cells to the types of their columns.
fn convert_row<F: Fn(String) -> Option<Real>>(
    cells: &Vec<CellValue>,
    types: &Vec<DataType>,
    cols: &Vec<String>,
    read: &F,
) -> (r: Result<Vec<CellValue>, Fault>)
    requires
        is_reader(*read),
        cells@.len() == types@.len() == cols@.len(),
    ensures
        cells_done(
            r,
            converted_key(row_view(cells@), types@, text::views(cols@), reading(*read)),
        ),
{
    let ghost all = row_view(cells@);
    let ghost names = text::views(cols@);
    let ghost rd = reading(*read);
    let mut out: Vec<CellValue> = Vec::new();
    let mut i: usize = 0;
    assert(row_view(out@) =~= seq![]);
    while i < cells.len()
        invariant
            i <= cells@.len() == types@.len() == cols@.len(),
            all == row_view(cells@),
            names == text::views(cols@),
            rd == reading(*read),
            is_reader(*read),
            converted_key(all.take(i as int), types@.take(i as int), names.take(i as int), rd)
                == Ok::<Seq<CellView>, Failure>(row_view(out@)),
        decreases cells@.len() - i,
    {
        proof {
            assert(all.take(i + 1).drop_last() =~= all.take(i as int));
            assert(types@.take(i + 1).drop_last() =~= types@.take(i as int));
            assert(names.take(i + 1).drop_last() =~= names.take(i as int));
        }
        match cells[i].convert_to(types[i], read) {
            Ok(v) => {
                proof {
                    assert(row_view(out@.push(v)) =~= row_view(out@).push(v@));
                }
                out.push(v);
            },
            Err(reason) => {
                proof {
                    lemma_key_fails(all, types@, names, rd, i + 1);
                }
                return Err(Fault { column: cols[i].as_str().to_string(), reason });
            },
        }
        i += 1;
    }
    proof {
        assert(all.take(i as int) =~= all);
        assert(types@.take(i as int) =~= types@);
        assert(names.take(i as int) =~= names);
    }
    Ok(out)
}

/// What becomes of a row.
pub enum RowResult {
    Insert(Vec<CellValue>),
    Update(Vec<CellValue>),
    Delete(Vec<CellValue>),
    Skip,
    Fail(Fault),
}

impl View for RowResult {
    type V = Outcome;

    open spec fn view(&self) -> Outcome {
        match *self {
            RowResult::Insert(v) => Outcome::Insert(row_view(v@)),
            RowResult::Update(v) => Outcome::Update(row_view(v@)),
            RowResult::Delete(v) => Outcome::Delete(row_view(v@)),
            RowResult::Skip => Outcome::Skip,
            RowResult::Fail(f) => Outcome::Fail(f@),
        }
    }
}

fn insert_row<F: Fn(String) -> Option<Real>>(
    w: &WorkRuntime,
    ctx: &RowCtx,
    read: &F,
    entropy: &mut Entropy,
) -> (r: RowResult)
    requires
        is_reader(*read),
        w.wf(),
    ensures
        continues(final(entropy)@, old(entropy)@),
        (r@, final(entropy)@.len()) == insert_outcome(
            w@,
            ctx.env(final(entropy)@),
            reading(*read),
            old(entropy)@.len(),
        ),
{
    match &w.insert {
        None => {
            proof {
                lemma_continues_self(entropy@);
            }
            RowResult::Skip
        },
        Some(f) => match fill_row(f, ctx, read, entropy) {
            Ok(v) => RowResult::Insert(v),
            Err(e) => RowResult::Fail(e),
        },
    }
}

fn matched_row<F: Fn(String) -> Option<Real>>(
    w: &WorkRuntime,
    m: &MergeRuntime,
    cells: &Vec<CellValue>,
    ctx: &RowCtx,
    read: &F,
    entropy: &mut Entropy,
) -> (r: RowResult)
    requires
        is_reader(*read),
        w.wf(),
        m.wf(),
        cells@.len() == m.key_src@.len(),
    ensures
        continues(final(entropy)@, old(entropy)@),
        (r@, final(entropy)@.len()) == matched_outcome(
            w@,
            m@,
            row_view(cells@),
            ctx.env(final(entropy)@),
            reading(*read),
            old(entropy)@.len(),
        ),
{
    proof {
        lemma_continues_self(entropy@);
    }
    if let Some(f) = &w.update {
        proof {
            lemma_binds_index(f.binds@);
        }
        if f.binds.len() > 0 {
            return match fill_row(f, ctx, read, entropy) {
                Err(e) => RowResult::Fail(e),
                Ok(set) => match convert_row(cells, &m.key_types, &m.key_cols, read) {
                    Err(e) => RowResult::Fail(e),
                    Ok(keys) => {
                        let mut all: Vec<CellValue> = set;
                        let mut rest: Vec<CellValue> = keys;
                        proof {
                            assert(row_view(all@ + rest@) =~= row_view(all@) + row_view(rest@));
                        }
                        all.append(&mut rest);
                        RowResult::Update(all)
                    },
                },
            };
        }
    }
    if w.delete {
        match convert_row(cells, &m.key_types, &m.key_cols, read) {
            Ok(keys) => RowResult::Delete(keys),
            Err(e) => RowResult::Fail(e),
        }
    } else {
        RowResult::Skip
    }
}

fn write_row<F: Fn(String) -> Option<Real>>(
    w: &WorkRuntime,
    ctx: &RowCtx,
    read: &F,
    seen: &mut StringHashSet,
    entropy: &mut Entropy,
) -> (r: RowResult)
    requires
        is_reader(*read),
        w.wf(),
    ensures
        continues(final(entropy)@, old(entropy)@),
        (r@, final(seen)@, final(entropy)@.len()) == write_outcome(
            w@,
            ctx.env(final(entropy)@),
            reading(*read),
            old(seen)@,
            old(entropy)@.len(),
        ),
{
    let ghost start = entropy@;
    let ghost rd = reading(*read);
    match &w.merge {
        None => insert_row(w, ctx, read, entropy),
        Some(m) => {
            let cells: Vec<CellValue> = eval_cells(&m.key_src, ctx, entropy);
            let ghost mid = entropy@;
            assert(row_view(cells@).take(cells@.len() as int) =~= row_view(cells@));
            let r: RowResult = match key_of_cells(&cells, cells.len()) {
                Some(k) => if m.existing.contains(k.as_str()) {
                    matched_row(w, m, &cells, ctx, read, entropy)
                } else if w.insert.is_none() || seen.contains(k.as_str()) {
                    proof {
                        lemma_continues_self(mid);
                    }
                    RowResult::Skip
                } else {
                    seen.insert(k);
                    insert_row(w, ctx, read, entropy)
                },
                None => insert_row(w, ctx, read, entropy),
            };
            proof {
                let more = entropy@.skip(mid.len() as int);
                assert(mid + more =~= entropy@);
                assert(more_draws(ctx.env(mid), more) == ctx.env(entropy@));
                lemma_all_stable(binds_view(m.key_src@), ctx.env(mid), more, start.len());
                lemma_continues_on(start, mid, entropy@);
            }
            r
        },
    }
}

/// Takes a row through lookups, filter and merge.
pub fn take_row<F: Fn(String) -> Option<Real>>(
    w: &WorkRuntime,
    row: &Vec<CellValue>,
    gen: &GenContext,
    read: &F,
    seen: &mut StringHashSet,
    entropy: &mut Entropy,
) -> (r: RowResult)
    requires
        is_reader(*read),
        w.wf(),
    ensures
        continues(final(entropy)@, old(entropy)@),
        (r@, final(seen)@, final(entropy)@.len()) == row_outcome(
            w@,
            row_view(row@),
            setting(*gen, final(entropy)@, reading(*read)),
            old(seen)@,
            old(entropy)@.len(),
        ),
{
    let ghost start = entropy@;
    let ghost rd = reading(*read);
    let ghost cells = row_view(row@);
    let ghost runs = join_runs(w.joins@);
    match find_rows(&w.joins, row, gen, read, entropy) {
        Err(e) => RowResult::Fail(e),
        Ok(found) => {
            let ghost mid = entropy@;
            let ctx = RowCtx { row, joins: &found, gen };
            let pass: bool = match &w.filter {
                None => {
                    proof {
                        lemma_continues_self(mid);
                    }
                    true
                },
                Some(p) => eval_cond_plan(p, &ctx, read, entropy),
            };
            let ghost tested = entropy@;
            let r: RowResult = if pass {
                write_row(w, &ctx, read, seen, entropy)
            } else {
                proof {
                    lemma_continues_self(tested);
                }
                RowResult::Skip
            };
            proof {
                lemma_continues_on(mid, tested, entropy@);
                lemma_continues_on(start, mid, entropy@);
                lemma_later(*gen, entropy@, mid, rd);
                lemma_look_up_stable(
                    runs,
                    cells,
                    setting(*gen, mid, rd),
                    entropy@.skip(mid.len() as int),
                    start.len(),
                );
                let more = entropy@.skip(tested.len() as int);
                assert(tested + more =~= entropy@);
                assert(more_draws(ctx.env(tested), more) == ctx.env(entropy@));
                assert(ctx.env(entropy@) == row_env(
                    cells,
                    found_view(found@),
                    setting(*gen, entropy@, rd),
                ));
                if let Some(p) = &w.filter {
                    lemma_holds_stable(p@, ctx.env(tested), rd, more, mid.len());
                }
            }
            r
        },
    }
}

/// What a job makes of rows.
pub struct RowsDone {
    pub inserts: Vec<Vec<CellValue>>,
    pub updates: Vec<Vec<CellValue>>,
    pub deletes: Vec<Vec<CellValue>>,
    pub error_rows: usize,
    pub errors: Vec<RowError>,
}

impl RowsDone {
    /// What was made of the rows is what `b` says.
    pub open spec fn tells(&self, b: Batch) -> bool {
        &&& rows_view(self.inserts@) == b.inserts
        &&& rows_view(self.updates@) == b.updates
        &&& rows_view(self.deletes@) == b.deletes
        &&& self.error_rows == b.error_rows
        &&& row_errors_view(self.errors@) == b.errors
    }
}

proof fn lemma_rows_push(v: Seq<Vec<CellValue>>, row: Vec<CellValue>)
    ensures
        rows_view(v.push(row)) == rows_view(v).push(row_view(row@)),
{
    assert(rows_view(v.push(row)) =~= rows_view(v).push(row_view(row@)));
}

/// Adds an error, up to the limit.
pub fn push_error(errors: &mut Vec<RowError>, row: usize, column: String, reason: String)
    ensures
        row_errors_view(final(errors)@) == with_error(
            row_errors_view(old(errors)@),
            RowErrorView { row, column: column@, reason: reason@ },
        ),
{
    if errors.len() < ERROR_DETAIL_CAP {
        let e = RowError { row, column, reason };
        proof {
            assert(row_errors_view(errors@.push(e)) =~= row_errors_view(errors@).push(e@));
        }
        errors.push(e);
    }
}

/// Goes over all rows with a job. `errors` are those of the jobs before.
pub fn run_rows<F: Fn(String) -> Option<Real>>(
    w: &WorkRuntime,
    rows: &Vec<Vec<CellValue>>,
    first: usize,
    gen: &GenContext,
    read: &F,
    errors: Vec<RowError>,
    entropy: &mut Entropy,
) -> (r: RowsDone)
    requires
        is_reader(*read),
        w.wf(),
    ensures
        continues(final(entropy)@, old(entropy)@),
        ({
            let b = go_over(
                w@,
                rows_view(rows@),
                first,
                setting(*gen, final(entropy)@, reading(*read)),
                fresh(row_errors_view(errors@), old(entropy)@.len()),
            );
            r.tells(b) && b.used == final(entropy)@.len()
        }),
{
    let ghost rd = reading(*read);
    let ghost start = entropy@;
    let ghost all = rows_view(rows@);
    let ghost zero = fresh(row_errors_view(errors@), start.len());
    let mut seen: StringHashSet = StringHashSet::new();
    let mut done = RowsDone {
        inserts: Vec::new(),
        updates: Vec::new(),
        deletes: Vec::new(),
        error_rows: 0,
        errors,
    };
    let mut i: usize = 0;
    let len: usize = rows.len();
    proof {
        lemma_continues_self(start);
        assert(rows_view(done.inserts@) =~= seq![]);
        assert(rows_view(done.updates@) =~= seq![]);
        assert(rows_view(done.deletes@) =~= seq![]);
    }
    while i < len
        invariant
            i <= len == rows@.len(),
            all == rows_view(rows@),
            rd == reading(*read),
            is_reader(*read),
            w.wf(),
            start == old(entropy)@,
            continues(entropy@, start),
            done.error_rows <= i,
            ({
                let b = go_over(
                    w@,
                    all.take(i as int),
                    first,
                    setting(*gen, entropy@, rd),
                    zero,
                );
                done.tells(b) && b.used == entropy@.len() && b.seen == seen@
            }),
        decreases len - i,
    {
        let ghost mid = entropy@;
        let ghost before = go_over(w@, all.take(i as int), first, setting(*gen, mid, rd), zero);
        let r: RowResult = take_row(w, &rows[i], gen, read, &mut seen, entropy);
        proof {
            lemma_later(*gen, entropy@, mid, rd);
            lemma_go_over_stable(
                w@,
                all.take(i as int),
                first,
                setting(*gen, mid, rd),
                zero,
                entropy@.skip(mid.len() as int),
            );
            lemma_continues_on(start, mid, entropy@);
            assert(all.take(i + 1).drop_last() =~= all.take(i as int));
        }
        match r {
            RowResult::Insert(v) => {
                proof {
                    lemma_rows_push(done.inserts@, v);
                }
                done.inserts.push(v);
            },
            RowResult::Update(v) => {
                proof {
                    lemma_rows_push(done.updates@, v);
                }
                done.updates.push(v);
            },
            RowResult::Delete(v) => {
                proof {
                    lemma_rows_push(done.deletes@, v);
                }
                done.deletes.push(v);
            },
            RowResult::Skip => {},
            RowResult::Fail(f) => {
                done.error_rows = done.error_rows + 1;
                push_error(&mut done.errors, number_row(first, i), f.column, f.reason);
            },
        }
        i += 1;
    }
    assert(all.take(i as int) =~= all);
    done
}

/// Where the run stands before the `i`-th row.
pub open spec fn before_row(
    w: WorkRun,
    rows: Seq<Seq<CellView>>,
    first: usize,
    s: Setting,
    start: Batch,
    i: int,
) -> Batch {
    go_over(w, rows.take(i), first, s, start)
}

/// What becomes of the `i`-th row of a run.
pub open spec fn outcome_at(
    w: WorkRun,
    rows: Seq<Seq<CellView>>,
    first: usize,
    s: Setting,
    start: Batch,
    i: int,
) -> Outcome {
    let b = before_row(w, rows, first, s, start, i);
    row_outcome(w, rows[i], s, b.seen, b.used).0
}

/// The merge key of a row whose lookups found `found`, when `at` random
/// numbers are used up.
pub open spec fn merge_key_of(m: MergeRun, env: RowEnv, at: nat) -> Option<Seq<char>> {
    compose_key(eval_all(m.key_src, env, at).0)
}

/// The merge key under which a row is written.
pub open spec fn row_key(w: WorkRun, row: Seq<CellView>, s: Setting, at: nat) -> Option<Seq<char>> {
    match (w.merge, look_up(w.joins, row, s, at)) {
        (Some(m), (Ok(found), n)) => {
            let env = row_env(row, found, s);
            let from = match w.filter {
                Some(p) => holds(p, env, s.rd, n).1,
                None => n,
            };
            merge_key_of(m, env, from)
        },
        _ => None,
    }
}

/// The merge key of the `i`-th row of a run.
pub open spec fn key_at(
    w: WorkRun,
    rows: Seq<Seq<CellView>>,
    first: usize,
    s: Setting,
    start: Batch,
    i: int,
) -> Option<Seq<char>> {
    row_key(w, rows[i], s, before_row(w, rows, first, s, start, i).used)
}

/// Every row comes to exactly one end: it is added, updated, deleted, left
/// alone, or counted as an error; so no more rows are written or reported than
/// there are.
pub proof fn law_every_row_ends_once(
    w: WorkRun,
    rows: Seq<Seq<CellView>>,
    first: usize,
    s: Setting,
    start: Batch,
)
    ensures
        ({
            let b = go_over(w, rows, first, s, start);
            &&& start.inserts.len() <= b.inserts.len()
            &&& start.updates.len() <= b.updates.len()
            &&& start.deletes.len() <= b.deletes.len()
            &&& start.error_rows <= b.error_rows
            &&& b.inserts.len() - start.inserts.len() + b.updates.len() - start.updates.len()
                + b.deletes.len() - start.deletes.len() + b.error_rows - start.error_rows
                <= rows.len()
        }),
    decreases rows.len(),
{
    if rows.len() > 0 {
        law_every_row_ends_once(w, rows.drop_last(), first, s, start);
    }
}

/// All errors are counted; those kept in detail are the first ones, and no
/// more than the limit.
pub proof fn law_errors_are_counted(
    w: WorkRun,
    rows: Seq<Seq<CellView>>,
    first: usize,
    s: Setting,
    start: Batch,
)
    requires
        start.errors.len() <= ERROR_DETAIL_CAP,
    ensures
        ({
            let b = go_over(w, rows, first, s, start);
            let failed = b.error_rows - start.error_rows;
            &&& failed >= 0
            &&& b.errors.len() == if start.errors.len() + failed <= ERROR_DETAIL_CAP {
                start.errors.len() + failed
            } else {
                ERROR_DETAIL_CAP as int
            }
            &&& b.errors.take(start.errors.len() as int) == start.errors
        }),
    decreases rows.len(),
{
    if rows.len() > 0 {
        law_errors_are_counted(w, rows.drop_last(), first, s, start);
        let b = go_over(w, rows.drop_last(), first, s, start);
        let c = go_over(w, rows, first, s, start);
        assert(c.errors.take(start.errors.len() as int) =~= b.errors.take(
            start.errors.len() as int,
        ));
    } else {
        assert(start.errors.take(start.errors.len() as int) =~= start.errors);
    }
}

/// With a merge, a row whose key the target has already is not added.
pub proof fn law_existing_keys_are_not_added(
    w: WorkRun,
    row: Seq<CellView>,
    s: Setting,
    seen: Set<Seq<char>>,
    at: nat,
    k: Seq<char>,
)
    requires
        w.merge matches Some(m) && m.existing.contains(k),
        row_key(w, row, s, at) == Some(k),
    ensures
        !(row_outcome(w, row, s, seen, at).0 is Insert),
{
}

/// Only rows whose key the target has already are updated or deleted.
pub proof fn law_only_existing_keys_change(
    w: WorkRun,
    row: Seq<CellView>,
    s: Setting,
    seen: Set<Seq<char>>,
    at: nat,
)
    requires
        row_outcome(w, row, s, seen, at).0 is Update || row_outcome(w, row, s, seen, at).0 is Delete,
    ensures
        w.merge matches Some(m) && row_key(w, row, s, at) matches Some(k) && m.existing.contains(k),
{
}

proof fn lemma_seen_grows(
    w: WorkRun,
    rows: Seq<Seq<CellView>>,
    first: usize,
    s: Setting,
    start: Batch,
    i: int,
    j: int,
)
    requires
        0 <= i <= j <= rows.len(),
    ensures
        before_row(w, rows, first, s, start, i).seen.subset_of(
            before_row(w, rows, first, s, start, j).seen,
        ),
    decreases j - i,
{
    if i < j {
        lemma_seen_grows(w, rows, first, s, start, i, j - 1);
        assert(rows.take(j).drop_last() =~= rows.take(j - 1));
    }
}

/// With a merge, of the rows of a run that have the same key at most one is
/// added: the first.
pub proof fn law_one_row_per_key(
    w: WorkRun,
    rows: Seq<Seq<CellView>>,
    first: usize,
    s: Setting,
    start: Batch,
    i: int,
    j: int,
    k: Seq<char>,
)
    requires
        0 <= i < j < rows.len(),
        key_at(w, rows, first, s, start, i) == Some(k),
        key_at(w, rows, first, s, start, j) == Some(k),
        outcome_at(w, rows, first, s, start, i) is Insert,
    ensures
        !(outcome_at(w, rows, first, s, start, j) is Insert),
{
    assert(rows.take(i + 1).drop_last() =~= rows.take(i));
    assert(before_row(w, rows, first, s, start, i + 1).seen.contains(k));
    lemma_seen_grows(w, rows, first, s, start, i + 1, j);
}

/// Lookups that may miss never fail a row.
pub proof fn law_left_lookups_never_fail(joins: Seq<JoinRun>, row: Seq<CellView>, s: Setting, at: nat)
    requires
        forall|i: int| 0 <= i < joins.len() ==> (#[trigger] joins[i]).policy is Left,
    ensures
        look_up(joins, row, s, at).0 is Ok,
    decreases joins.len(),
{
    if joins.len() > 0 {
        assert forall|i: int| 0 <= i < joins.len() - 1 implies (
        #[trigger] joins.drop_last()[i]).policy is Left by {
            assert(joins.drop_last()[i] == joins[i]);
        }
        law_left_lookups_never_fail(joins.drop_last(), row, s, at);
        assert(joins.last() == joins[joins.len() - 1]);
    }
}

/// A lookup that missed gives NULL for each of its columns.
pub proof fn law_missed_lookup_is_null(env: RowEnv, join: usize, place: usize, at: nat)
    requires
        join < env.joins.len(),
        env.joins[join as int] is None,
    ensures
        eval(BindView::Join(join, place), env, at) == (CellView::Null, at),
{
}

/// A row for which the condition does not hold is left alone, and is no error.
pub proof fn law_filtered_rows_are_left_alone(
    w: WorkRun,
    row: Seq<CellView>,
    s: Setting,
    seen: Set<Seq<char>>,
    at: nat,
)
    requires
        w.filter matches Some(p) && look_up(w.joins, row, s, at) matches (Ok(found), n) && !holds(
            p,
            row_env(row, found, s),
            s.rd,
            n,
        ).0,
    ensures
        row_outcome(w, row, s, seen, at).0 is Skip,
        row_outcome(w, row, s, seen, at).1 == seen,
{
}

/// `c` is what a value stands for in a row whose lookups found `found`: a constant
/// itself, a column of the source the row's cell, and a column of a lookup the cell
/// of the row that the lookup found; NULL where there is no such cell. A random or
/// composed value is left open here.
pub open spec fn stands_for(
    b: BindView,
    c: CellView,
    row: Seq<CellView>,
    found: Seq<Option<Seq<CellView>>>,
) -> bool {
    match b {
        BindView::Const(x) => c == x,
        BindView::Source(i) => if i < row.len() {
            c == row[i as int]
        } else {
            c is Null
        },
        BindView::Join(j, p) => if j < found.len() && found[j as int] is Some && p
            < found[j as int]->0.len() {
            c == found[j as int]->0[p as int]
        } else {
            c is Null
        },
        _ => true,
    }
}

/// `cells` are what the values stand for, one cell for each.
pub open spec fn stand_for(
    v: Seq<BindView>,
    cells: Seq<CellView>,
    row: Seq<CellView>,
    found: Seq<Option<Seq<CellView>>>,
) -> bool {
    &&& cells.len() == v.len()
    &&& forall|q: int| 0 <= q < v.len() ==> stands_for(#[trigger] v[q], cells[q], row, found)
}

/// A table holds a row under the key of the cells.
pub open spec fn hits(map: Map<Seq<char>, Seq<CellView>>, cells: Seq<CellView>, hit: Seq<CellView>) -> bool {
    compose_key(cells) matches Some(k) && map.contains_key(k) && map[k] == hit
}

proof fn lemma_stand_for(v: Seq<BindView>, env: RowEnv, at: nat)
    ensures
        stand_for(v, eval_all(v, env, at).0, env.row, env.joins),
    decreases v.len(),
{
    if v.len() > 0 {
        lemma_stand_for(v.drop_last(), env, at);
        let cells = eval_all(v, env, at).0;
        let before = eval_all(v.drop_last(), env, at).0;
        assert forall|q: int| 0 <= q < v.len() implies stands_for(
            #[trigger] v[q],
            cells[q],
            env.row,
            env.joins,
        ) by {
            if q < v.len() - 1 {
                assert(v.drop_last()[q] == v[q]);
                assert(cells[q] == before[q]);
            }
        }
    }
}

/// Each lookup is asked with what the ones before it found in this row: its key is
/// made of what its values stand for, and it finds the row that its table holds
/// under that key, or misses where there is none, which only a LEFT lookup may.
pub proof fn law_later_lookups_see_earlier_ones(
    joins: Seq<JoinRun>,
    row: Seq<CellView>,
    s: Setting,
    at: nat,
    found: Seq<Option<Seq<CellView>>>,
    k: int,
)
    requires
        look_up(joins, row, s, at).0 == Ok::<Seq<Option<Seq<CellView>>>, Failure>(found),
        0 <= k < joins.len(),
    ensures
        found.len() == joins.len(),
        exists|cells: Seq<CellView>| #[trigger]
            stand_for(joins[k].probes, cells, row, found.take(k)) && (match found[k] {
                Some(hit) => hits(joins[k].map, cells, hit),
                None => joins[k].policy is Left && forall|hit: Seq<CellView>|
                    !hits(joins[k].map, cells, hit),
            }),
    decreases joins.len(),
{
    let before = look_up(joins.drop_last(), row, s, at);
    let earlier = before.0->Ok_0;
    let last = joins.len() - 1;
    assert(found.drop_last() =~= earlier);
    lemma_found_len(joins.drop_last(), row, s, at);
    if k == last {
        let env = row_env(row, earlier, s);
        let cells = eval_all(joins[k].probes, env, before.1).0;
        lemma_stand_for(joins[k].probes, env, before.1);
        assert(found.take(k) =~= earlier);
        assert(stand_for(joins[k].probes, cells, row, found.take(k)));
    } else {
        law_later_lookups_see_earlier_ones(joins.drop_last(), row, s, at, earlier, k);
        assert(joins.drop_last()[k] == joins[k]);
        assert(earlier.take(k) =~= found.take(k));
        assert(earlier[k] == found[k]);
    }
}

proof fn lemma_found_len(joins: Seq<JoinRun>, row: Seq<CellView>, s: Setting, at: nat)
    ensures
        look_up(joins, row, s, at).0 matches Ok(found) ==> found.len() == joins.len(),
    decreases joins.len(),
{
    if joins.len() > 0 {
        lemma_found_len(joins.drop_last(), row, s, at);
    }
}

/// A row fails in its lookups only where one that must find something finds
/// nothing, those before it having been asked; the failure names that lookup.
pub proof fn law_only_missed_lookups_fail(
    joins: Seq<JoinRun>,
    row: Seq<CellView>,
    s: Setting,
    at: nat,
) -> (k: int)
    requires
        look_up(joins, row, s, at).0 is Err,
    ensures
        0 <= k < joins.len(),
        joins[k].policy is Inner,
        look_up(joins, row, s, at).0->Err_0.column == joins[k].alias,
        look_up(joins.take(k), row, s, at).0 is Ok,
        exists|cells: Seq<CellView>| #[trigger]
            stand_for(
                joins[k].probes,
                cells,
                row,
                look_up(joins.take(k), row, s, at).0->Ok_0,
            ) && forall|hit: Seq<CellView>| !hits(joins[k].map, cells, hit),
    decreases joins.len(),
{
    let before = look_up(joins.drop_last(), row, s, at);
    let last = joins.len() - 1;
    if before.0 is Err {
        let k = law_only_missed_lookups_fail(joins.drop_last(), row, s, at);
        assert(joins.drop_last()[k] == joins[k]);
        assert(joins.drop_last().take(k) =~= joins.take(k));
        k
    } else {
        let env = row_env(row, before.0->Ok_0, s);
        let cells = eval_all(joins[last].probes, env, before.1).0;
        lemma_stand_for(joins[last].probes, env, before.1);
        assert(joins.take(last) =~= joins.drop_last());
        assert(stand_for(joins[last].probes, cells, row, before.0->Ok_0));
        last
    }
}

/// A cell to write is what its value stands for, converted to the type of its column.
pub open spec fn written_from(
    b: BindView,
    ty: DataType,
    c: CellView,
    row: Seq<CellView>,
    found: Seq<Option<Seq<CellView>>>,
    rd: Reading,
) -> bool {
    exists|v: CellView| #[trigger]
        stands_for(b, v, row, found) && convert(v, ty, rd) == Ok::<CellView, Seq<char>>(c)
}

/// An action writes one cell for each of its columns, in their order, each what its
/// value stands for, converted to the type of its column.
pub proof fn law_cells_stand_in_column_order(f: FillView, env: RowEnv, rd: Reading, at: nat)
    requires
        fill_wf(f),
    ensures
        filled(f, env, rd, at).0 matches Ok(cells) ==> cells.len() == f.binds.len() && forall|i: int|
            0 <= i < cells.len() ==> written_from(
                f.binds[i],
                f.types[i],
                #[trigger] cells[i],
                env.row,
                env.joins,
                rd,
            ),
        filled(f, env, rd, at).0 matches Err(x) ==> f.cols.contains(x.column),
    decreases f.binds.len(),
{
    if f.binds.len() > 0 {
        let g = FillView {
            binds: f.binds.drop_last(),
            cols: f.cols.drop_last(),
            types: f.types.drop_last(),
        };
        law_cells_stand_in_column_order(g, env, rd, at);
        let (before, n) = filled(g, env, rd, at);
        match before {
            Ok(done) => {
                let c = eval(f.binds.last(), env, n).0;
                assert(stands_for(f.binds.last(), c, env.row, env.joins));
                if let Ok(cells) = filled(f, env, rd, at).0 {
                    assert forall|i: int| 0 <= i < cells.len() implies written_from(
                        f.binds[i],
                        f.types[i],
                        #[trigger] cells[i],
                        env.row,
                        env.joins,
                        rd,
                    ) by {
                        if i < done.len() {
                            assert(cells[i] == done[i]);
                            assert(g.binds[i] == f.binds[i]);
                        }
                    }
                } else {
                    assert(f.cols[f.cols.len() - 1] == f.cols.last());
                }
            },
            Err(x) => {
                let i = choose|i: int| 0 <= i < g.cols.len() && g.cols[i] == x.column;
                assert(f.cols[i] == x.column);
            },
        }
    }
}

proof fn lemma_converted_key(
    cells: Seq<CellView>,
    types: Seq<DataType>,
    cols: Seq<Seq<char>>,
    rd: Reading,
)
    requires
        cells.len() == types.len(),
    ensures
        converted_key(cells, types, cols, rd) matches Ok(done) ==> done.len() == cells.len()
            && forall|i: int|
            0 <= i < done.len() ==> convert(cells[i], types[i], rd) == Ok::<CellView, Seq<char>>(
                #[trigger] done[i],
            ),
    decreases cells.len(),
{
    if cells.len() > 0 {
        lemma_converted_key(cells.drop_last(), types.drop_last(), cols.drop_last(), rd);
        if let Ok(done) = converted_key(cells, types, cols, rd) {
            let before = converted_key(
                cells.drop_last(),
                types.drop_last(),
                cols.drop_last(),
                rd,
            )->Ok_0;
            assert forall|i: int| 0 <= i < done.len() implies convert(cells[i], types[i], rd) == Ok::<
                CellView,
                Seq<char>,
            >(#[trigger] done[i]) by {
                if i < before.len() {
                    assert(done[i] == before[i]);
                    assert(cells.drop_last()[i] == cells[i]);
                    assert(types.drop_last()[i] == types[i]);
                }
            }
        }
    }
}

/// The cells `cells[from..]` are those of a merge key: what the values of the key
/// stand for, each converted to the type of its column.
pub open spec fn ends_with_key(
    cells: Seq<CellView>,
    from: int,
    m: MergeRun,
    env: RowEnv,
    rd: Reading,
) -> bool {
    &&& cells.len() == from + m.key_src.len()
    &&& forall|i: int|
        from <= i < cells.len() ==> written_from(
            m.key_src[i - from],
            m.key_types[i - from],
            #[trigger] cells[i],
            env.row,
            env.joins,
            rd,
        )
}

/// What is handed to the statements of a merge: an update gets the values of its
/// columns and behind them those of the key, a delete those of the key alone, an
/// insert those of its columns, each in the order of the columns.
pub proof fn law_statements_get_their_values(
    w: WorkRun,
    env: RowEnv,
    rd: Reading,
    seen: Set<Seq<char>>,
    at: nat,
)
    requires
        w.merge matches Some(m) ==> m.key_cols.len() == m.key_types.len() == m.key_src.len(),
        w.insert matches Some(f) ==> fill_wf(f),
        w.update matches Some(f) ==> fill_wf(f),
    ensures
        write_outcome(w, env, rd, seen, at).0 matches Outcome::Insert(cells)
            ==> w.insert matches Some(f) && cells.len() == f.binds.len() && forall|i: int|
            0 <= i < cells.len() ==> written_from(
                f.binds[i],
                f.types[i],
                #[trigger] cells[i],
                env.row,
                env.joins,
                rd,
            ),
        write_outcome(w, env, rd, seen, at).0 matches Outcome::Update(cells)
            ==> w.update matches Some(f) && w.merge matches Some(m) && ends_with_key(
            cells,
            f.binds.len() as int,
            m,
            env,
            rd,
        ) && forall|i: int|
            0 <= i < f.binds.len() ==> written_from(
                f.binds[i],
                f.types[i],
                #[trigger] cells[i],
                env.row,
                env.joins,
                rd,
            ),
        write_outcome(w, env, rd, seen, at).0 matches Outcome::Delete(cells)
            ==> w.delete && (w.merge matches Some(m) && ends_with_key(cells, 0, m, env, rd)),
{
    if let Some(f) = w.insert {
        law_cells_stand_in_column_order(f, env, rd, at);
        if let Some(m) = w.merge {
            law_cells_stand_in_column_order(f, env, rd, eval_all(m.key_src, env, at).1);
        }
    }
    if let Some(m) = w.merge {
        let (key, n) = eval_all(m.key_src, env, at);
        lemma_stand_for(m.key_src, env, at);
        lemma_converted_key(key, m.key_types, m.key_cols, rd);
        if let Ok(keys) = converted_key(key, m.key_types, m.key_cols, rd) {
            assert forall|j: int| 0 <= j < keys.len() implies written_from(
                m.key_src[j],
                m.key_types[j],
                #[trigger] keys[j],
                env.row,
                env.joins,
                rd,
            ) by {
                assert(stands_for(m.key_src[j], key[j], env.row, env.joins));
            }
            if let Some(f) = w.update {
                law_cells_stand_in_column_order(f, env, rd, n);
                if let Ok(set) = filled(f, env, rd, n).0 {
                    let all = set + keys;
                    assert forall|i: int| f.binds.len() <= i < all.len() implies written_from(
                        m.key_src[i - f.binds.len()],
                        m.key_types[i - f.binds.len()],
                        #[trigger] all[i],
                        env.row,
                        env.joins,
                        rd,
                    ) by {
                        assert(all[i] == keys[i - f.binds.len()]);
                    }
                    assert forall|i: int| 0 <= i < f.binds.len() implies written_from(
                        f.binds[i],
                        f.types[i],
                        #[trigger] all[i],
                        env.row,
                        env.joins,
                        rd,
                    ) by {
                        assert(all[i] == set[i]);
                    }
                }
            }
        }
    }
}

/// What a merge does with a row that passes the filter, by its key. A row whose key
/// the target has is updated where there is something to update, else deleted
/// where the job deletes, else left alone. A row whose key is new is added once.
/// A row without a key is always added. It fails only where a value cannot be
/// converted.
pub proof fn law_merge_goes_by_the_key(
    w: WorkRun,
    m: MergeRun,
    env: RowEnv,
    rd: Reading,
    seen: Set<Seq<char>>,
    at: nat,
)
    requires
        w.merge == Some(m),
    ensures
        ({
            let o = write_outcome(w, env, rd, seen, at).0;
            let later = write_outcome(w, env, rd, seen, at).1;
            let updates = w.update matches Some(f) && f.binds.len() > 0;
            match merge_key_of(m, env, at) {
                Some(k) => {
                    &&& m.existing.contains(k) && updates ==> o is Update || o is Fail
                    &&& m.existing.contains(k) && !updates && w.delete ==> o is Delete || o is Fail
                    &&& m.existing.contains(k) && !updates && !w.delete ==> o is Skip
                    &&& m.existing.contains(k) ==> later == seen
                    &&& !m.existing.contains(k) && seen.contains(k) ==> o is Skip && later == seen
                    &&& !m.existing.contains(k) && !seen.contains(k) && w.insert is Some ==> (
                    o is Insert || o is Fail) && later == seen.insert(k)
                },
                None => (w.insert is Some ==> o is Insert || o is Fail) && later == seen,
            }
        }),
        w.insert is None ==> !(write_outcome(w, env, rd, seen, at).0 is Insert),
{
}

/// Without a merge every row that passes the filter is added, whatever was added before.
pub proof fn law_plain_jobs_add_every_row(
    w: WorkRun,
    env: RowEnv,
    rd: Reading,
    seen: Set<Seq<char>>,
    at: nat,
)
    requires
        w.merge is None,
        w.insert is Some,
    ensures
        write_outcome(w, env, rd, seen, at).0 is Insert || write_outcome(w, env, rd, seen, at).0 is Fail,
        write_outcome(w, env, rd, seen, at).0 == write_outcome(w, env, rd, Set::empty(), at).0,
{
}

/// What becomes of each row of a run is written in the order of the rows, and an
/// error tells the number of its row.
pub proof fn law_outcomes_are_written_in_order(
    w: WorkRun,
    rows: Seq<Seq<CellView>>,
    first: usize,
    s: Setting,
    start: Batch,
    i: int,
)
    requires
        0 <= i < rows.len(),
        first + rows.len() <= usize::MAX,
    ensures
        ({
            let b = before_row(w, rows, first, s, start, i);
            let end = go_over(w, rows, first, s, start);
            match outcome_at(w, rows, first, s, start, i) {
                Outcome::Insert(c) => b.inserts.len() < end.inserts.len()
                    && end.inserts[b.inserts.len() as int] == c,
                Outcome::Update(c) => b.updates.len() < end.updates.len()
                    && end.updates[b.updates.len() as int] == c,
                Outcome::Delete(c) => b.deletes.len() < end.deletes.len()
                    && end.deletes[b.deletes.len() as int] == c,
                Outcome::Skip => true,
                Outcome::Fail(f) => b.error_rows < end.error_rows && (b.errors.len()
                    < ERROR_DETAIL_CAP ==> b.errors.len() < end.errors.len()
                    && end.errors[b.errors.len() as int] == (RowErrorView {
                    row: (first + i) as usize,
                    column: f.column,
                    reason: f.reason,
                })),
            }
        }),
{
    let b = before_row(w, rows, first, s, start, i);
    let c = go_over(w, rows.take(i + 1), first, s, start);
    let end = go_over(w, rows, first, s, start);
    assert(rows.take(i + 1).drop_last() =~= rows.take(i));
    lemma_written_stays(w, rows, first, s, start, i + 1);
    if c.inserts.len() > b.inserts.len() {
        assert(end.inserts[b.inserts.len() as int] == end.inserts.take(c.inserts.len() as int)[
            b.inserts.len() as int]);
    }
    if c.updates.len() > b.updates.len() {
        assert(end.updates[b.updates.len() as int] == end.updates.take(c.updates.len() as int)[
            b.updates.len() as int]);
    }
    if c.deletes.len() > b.deletes.len() {
        assert(end.deletes[b.deletes.len() as int] == end.deletes.take(c.deletes.len() as int)[
            b.deletes.len() as int]);
    }
    if c.errors.len() > b.errors.len() {
        assert(end.errors[b.errors.len() as int] == end.errors.take(c.errors.len() as int)[
            b.errors.len() as int]);
    }
}

/// What a row left behind stays when later rows are gone over.
proof fn lemma_written_stays(
    w: WorkRun,
    rows: Seq<Seq<CellView>>,
    first: usize,
    s: Setting,
    start: Batch,
    i: int,
)
    requires
        0 <= i <= rows.len(),
    ensures
        ({
            let c = go_over(w, rows.take(i), first, s, start);
            let end = go_over(w, rows, first, s, start);
            &&& c.inserts.len() <= end.inserts.len()
            &&& c.updates.len() <= end.updates.len()
            &&& c.deletes.len() <= end.deletes.len()
            &&& c.errors.len() <= end.errors.len()
            &&& c.error_rows <= end.error_rows
            &&& end.inserts.take(c.inserts.len() as int) == c.inserts
            &&& end.updates.take(c.updates.len() as int) == c.updates
            &&& end.deletes.take(c.deletes.len() as int) == c.deletes
            &&& end.errors.take(c.errors.len() as int) == c.errors
        }),
    decreases rows.len() - i,
{
    let c = go_over(w, rows.take(i), first, s, start);
    let end = go_over(w, rows, first, s, start);
    if i == rows.len() {
        assert(rows.take(i) =~= rows);
        assert(end.inserts.take(c.inserts.len() as int) =~= c.inserts);
        assert(end.updates.take(c.updates.len() as int) =~= c.updates);
        assert(end.deletes.take(c.deletes.len() as int) =~= c.deletes);
        assert(end.errors.take(c.errors.len() as int) =~= c.errors);
    } else {
        lemma_written_stays(w, rows, first, s, start, i + 1);
        assert(rows.take(i + 1).drop_last() =~= rows.take(i));
        let d = go_over(w, rows.take(i + 1), first, s, start);
        assert(d.inserts.take(c.inserts.len() as int) =~= c.inserts);
        assert(d.updates.take(c.updates.len() as int) =~= c.updates);
        assert(d.deletes.take(c.deletes.len() as int) =~= c.deletes);
        assert(d.errors.take(c.errors.len() as int) =~= c.errors);
        assert(end.inserts.take(c.inserts.len() as int) =~= end.inserts.take(
            d.inserts.len() as int,
        ).take(c.inserts.len() as int));
        assert(end.updates.take(c.updates.len() as int) =~= end.updates.take(
            d.updates.len() as int,
        ).take(c.updates.len() as int));
        assert(end.deletes.take(c.deletes.len() as int) =~= end.deletes.take(
            d.deletes.len() as int,
        ).take(c.deletes.len() as int));
        assert(end.errors.take(c.errors.len() as int) =~= end.errors.take(
            d.errors.len() as int,
        ).take(c.errors.len() as int));
    }
}

} // verus!
