//! The run of a mapping job, one step at a time: the caller reads, writes and
//! records, and every answer leads to the next thing to do.
use crate::double::{is_reader, reading, Real, Reading};
use crate::etl::batches::{batch, batch_count, copy_batch, count_batches, law_batches_are_full};
use crate::etl::mapping::{
    rules_view, ErrorPolicy, MappingRule, RuleView, WriteMode,
};
use crate::etl::transform::{
    number_row, partition, row_errors_view, row_number, transform_rows, RowError, RowErrorView,
};
use crate::models::value::{rows_view, CellValue, CellView};
use crate::text;
use vstd::prelude::*;

verus! {

/// How many row errors a summary keeps in detail; all of them are counted.
pub const ERROR_DETAIL_CAP: usize = 1000;

/// How far a job is.
#[derive(Debug, Clone, PartialEq)]
pub struct EtlProgress {
    pub job_id: u128,
    pub phase: String,
    pub batch: usize,
    pub total_batches: usize,
    pub success_rows: u64,
    pub error_rows: u64,
}

#[verifier::ext_equal]
pub struct ProgressView {
    pub job_id: u128,
    pub phase: Seq<char>,
    pub batch: usize,
    pub total_batches: usize,
    pub success_rows: u64,
    pub error_rows: u64,
}

impl View for EtlProgress {
    type V = ProgressView;

    open spec fn view(&self) -> ProgressView {
        ProgressView {
            job_id: self.job_id,
            phase: self.phase@,
            batch: self.batch,
            total_batches: self.total_batches,
            success_rows: self.success_rows,
            error_rows: self.error_rows,
        }
    }
}

pub open spec fn events_view(v: Seq<EtlProgress>) -> Seq<ProgressView> {
    Seq::new(v.len(), |i: int| v[i]@)
}

/// How a job ended.
#[derive(Debug, Clone, PartialEq)]
pub struct EtlSummary {
    pub job_id: u128,
    pub status: String,
    pub total_rows: u64,
    pub success_rows: u64,
    pub error_rows: u64,
    pub elapsed_ms: u64,
    /// Why the job failed or was aborted.
    pub failure: Option<String>,
    pub errors: Vec<RowError>,
}

#[verifier::ext_equal]
pub struct SummaryView {
    pub job_id: u128,
    pub status: Seq<char>,
    pub total_rows: u64,
    pub success_rows: u64,
    pub error_rows: u64,
    pub elapsed_ms: u64,
    pub failure: Option<Seq<char>>,
    pub errors: Seq<RowErrorView>,
}

impl View for EtlSummary {
    type V = SummaryView;

    open spec fn view(&self) -> SummaryView {
        SummaryView {
            job_id: self.job_id,
            status: self.status@,
            total_rows: self.total_rows,
            success_rows: self.success_rows,
            error_rows: self.error_rows,
            elapsed_ms: self.elapsed_ms,
            failure: text::opt_view(self.failure),
            errors: row_errors_view(self.errors@),
        }
    }
}

/// The sum, or the greatest number there is.
pub open spec fn plus(a: u64, b: nat) -> u64 {
    if a + b <= u64::MAX {
        (a + b) as u64
    } else {
        u64::MAX
    }
}

/// The sum, or the greatest number there is.
pub fn add_rows(a: u64, b: u64) -> (r: u64)
    ensures
        r == plus(a, b as nat),
{
    if b <= u64::MAX - a {
        a + b
    } else {
        u64::MAX
    }
}

/// What is left to be done with a job.
pub enum JobStage {
    /// The rows are being read.
    Reading,
    /// All rows are turned; whether too many failed is being judged.
    WholeJudge(Vec<Vec<CellValue>>),
    /// All rows are turned and may be written unless the job is cancelled.
    WholeCheck(Vec<Vec<CellValue>>),
    WholeWrite,
    WholeRecord,
    /// The batch comes next unless the job is cancelled.
    BatchCheck(usize),
    BatchJudge(usize, Vec<Vec<CellValue>>),
    BatchWrite(usize),
    BatchRecord(usize),
    Done,
}

#[verifier::ext_equal]
pub enum JobStageView {
    Reading,
    WholeJudge(Seq<Seq<CellView>>),
    WholeCheck(Seq<Seq<CellView>>),
    WholeWrite,
    WholeRecord,
    BatchCheck(usize),
    BatchJudge(usize, Seq<Seq<CellView>>),
    BatchWrite(usize),
    BatchRecord(usize),
    Done,
}

impl View for JobStage {
    type V = JobStageView;

    open spec fn view(&self) -> JobStageView {
        match *self {
            JobStage::Reading => JobStageView::Reading,
            JobStage::WholeJudge(v) => JobStageView::WholeJudge(rows_view(v@)),
            JobStage::WholeCheck(v) => JobStageView::WholeCheck(rows_view(v@)),
            JobStage::WholeWrite => JobStageView::WholeWrite,
            JobStage::WholeRecord => JobStageView::WholeRecord,
            JobStage::BatchCheck(i) => JobStageView::BatchCheck(i),
            JobStage::BatchJudge(i, v) => JobStageView::BatchJudge(i, rows_view(v@)),
            JobStage::BatchWrite(i) => JobStageView::BatchWrite(i),
            JobStage::BatchRecord(i) => JobStageView::BatchRecord(i),
            JobStage::Done => JobStageView::Done,
        }
    }
}

/// A job under way.
#[verifier::ext_equal]
pub struct JobState {
    pub job_id: u128,
    pub rules: Seq<RuleView>,
    pub mode: WriteMode,
    pub policy: ErrorPolicy,
    /// How many rows a batch has, at least one.
    pub size: usize,
    /// How many batches were written in an earlier run.
    pub skip: usize,
    pub rows: Seq<Seq<CellView>>,
    /// The number of the first row in the source.
    pub first: usize,
    pub success_rows: u64,
    pub error_rows: u64,
    pub errors: Seq<RowErrorView>,
    pub stage: JobStageView,
}

/// What to do next.
#[verifier::ext_equal]
pub enum JobActionView {
    AskCancelled,
    /// Judge whether `errors` of `of` rows are more than the limit.
    AskRate { errors: u64, of: u64 },
    Write(Seq<Seq<CellView>>),
    /// Record how many batches are written.
    Record { batches: usize, success_rows: u64, error_rows: u64 },
    /// Record the status of the summary, report the last progress, and end.
    Finish { summary: SummaryView, last: Option<ProgressView> },
}

/// Where a step leads: the new state, the progress to report, and what to do next.
#[verifier::ext_equal]
pub struct JobOut {
    pub state: JobState,
    pub events: Seq<ProgressView>,
    pub action: JobActionView,
}

pub open spec fn job_progress(s: JobState, phase: Seq<char>, batch: usize, total: usize) -> ProgressView {
    ProgressView {
        job_id: s.job_id,
        phase,
        batch,
        total_batches: total,
        success_rows: s.success_rows,
        error_rows: s.error_rows,
    }
}

pub open spec fn job_summary(
    s: JobState,
    status: Seq<char>,
    failure: Option<Seq<char>>,
    elapsed_ms: u64,
) -> SummaryView {
    SummaryView {
        job_id: s.job_id,
        status,
        total_rows: s.rows.len() as u64,
        success_rows: s.success_rows,
        error_rows: s.error_rows,
        elapsed_ms,
        failure,
        errors: s.errors,
    }
}

/// The job is over.
pub open spec fn job_over(
    s: JobState,
    events: Seq<ProgressView>,
    status: Seq<char>,
    failure: Option<Seq<char>>,
    last: Option<ProgressView>,
    elapsed_ms: u64,
) -> JobOut {
    JobOut {
        state: JobState { stage: JobStageView::Done, ..s },
        events,
        action: JobActionView::Finish {
            summary: job_summary(s, status, failure, elapsed_ms),
            last,
        },
    }
}

/// The first errors, up to the limit.
pub open spec fn capped(errors: Seq<RowErrorView>) -> Seq<RowErrorView> {
    if errors.len() <= ERROR_DETAIL_CAP {
        errors
    } else {
        errors.take(ERROR_DETAIL_CAP as int)
    }
}

/// The state with more row errors: all are counted, the first are kept in detail.
pub open spec fn with_errors(s: JobState, errors: Seq<RowErrorView>) -> JobState {
    JobState {
        error_rows: plus(s.error_rows, errors.len()),
        errors: capped(s.errors + errors),
        ..s
    }
}

/// How many batches the progress counts: at least one.
pub open spec fn job_batches(s: JobState) -> usize {
    let n = batch_count(s.rows.len(), s.size as nat);
    if n == 0 {
        1
    } else {
        n as usize
    }
}

/// The next batch, or the end.
pub open spec fn next_batch(s: JobState, i: usize, events: Seq<ProgressView>, elapsed_ms: u64) -> JobOut {
    if i < batch_count(s.rows.len(), s.size as nat) {
        JobOut {
            state: JobState { stage: JobStageView::BatchCheck(i), ..s },
            events,
            action: JobActionView::AskCancelled,
        }
    } else {
        job_over(s, events, "completed"@, None, None, elapsed_ms)
    }
}

pub open spec fn whole_check(s: JobState, rows: Seq<Seq<CellView>>) -> JobOut {
    JobOut {
        state: JobState { stage: JobStageView::WholeCheck(rows), ..s },
        events: seq![],
        action: JobActionView::AskCancelled,
    }
}

pub open spec fn whole_aborted(s: JobState, elapsed_ms: u64) -> JobOut {
    job_over(
        s,
        seq![],
        "aborted"@,
        Some("轉換錯誤超出政策容許，全有全無模式未寫入任何資料"@),
        None,
        elapsed_ms,
    )
}

/// The rows are there: a job of one transaction turns all of them at once, the
/// others go on batch by batch behind those that are written already.
pub open spec fn on_source(
    s: JobState,
    rows: Seq<Seq<CellView>>,
    first: usize,
    rd: Reading,
    elapsed_ms: u64,
) -> JobOut {
    let t = JobState { rows, first, ..s };
    match s.mode {
        WriteMode::BatchCommit => next_batch(t, s.skip, seq![], elapsed_ms),
        WriteMode::AllOrNothing => {
            let (ok, bad) = partition(rows, s.rules, first, rd);
            let u = with_errors(t, bad);
            match s.policy {
                ErrorPolicy::SkipAndReport => whole_check(u, ok),
                ErrorPolicy::AbortOnFirst => if u.error_rows > 0 {
                    whole_aborted(u, elapsed_ms)
                } else {
                    whole_check(u, ok)
                },
                ErrorPolicy::AbortOnErrorRate { .. } => if rows.len() > 0 {
                    JobOut {
                        state: JobState { stage: JobStageView::WholeJudge(ok), ..u },
                        events: seq![],
                        action: JobActionView::AskRate {
                            errors: u.error_rows,
                            of: rows.len() as u64,
                        },
                    }
                } else {
                    whole_check(u, ok)
                },
            }
        },
    }
}

/// The batch is written: it is recorded.
pub open spec fn record_batch(s: JobState, i: usize, events: Seq<ProgressView>) -> JobOut {
    JobOut {
        state: JobState { stage: JobStageView::BatchRecord(i), ..s },
        events,
        action: JobActionView::Record {
            batches: (i + 1) as usize,
            success_rows: s.success_rows,
            error_rows: s.error_rows,
        },
    }
}

/// The batch is turned: its rows are written, unless there are none.
pub open spec fn load_batch(
    s: JobState,
    i: usize,
    rows: Seq<Seq<CellView>>,
    events: Seq<ProgressView>,
) -> JobOut {
    let shown = events.push(job_progress(s, "load"@, i, job_batches(s)));
    if rows.len() == 0 {
        record_batch(s, i, shown)
    } else {
        JobOut {
            state: JobState { stage: JobStageView::BatchWrite(i), ..s },
            events: shown,
            action: JobActionView::Write(rows),
        }
    }
}

/// The rows of a batch, turned, and the errors of the others.
pub open spec fn turned_batch(s: JobState, i: usize, rd: Reading) -> (
    Seq<Seq<CellView>>,
    Seq<RowErrorView>,
) {
    partition(
        batch(s.rows, s.size as nat, i as nat),
        s.rules,
        row_number(s.first, i * s.size),
        rd,
    )
}

/// The rows that are dealt with, `good` rows of the batch at hand among them;
/// at least one, so that the rate is defined.
pub open spec fn processed_rows(s: JobState, good: nat) -> u64 {
    let n = plus(plus(s.success_rows, s.error_rows as nat), good);
    if n == 0 {
        1
    } else {
        n
    }
}

/// It is known whether the job is cancelled.
pub open spec fn on_cancelled(s: JobState, yes: bool, rd: Reading, elapsed_ms: u64) -> JobOut {
    if yes {
        job_over(s, seq![], "cancelled"@, None, None, elapsed_ms)
    } else {
        match s.stage {
            JobStageView::WholeCheck(rows) => JobOut {
                state: JobState { stage: JobStageView::WholeWrite, ..s },
                events: seq![job_progress(s, "load"@, 0, 1)],
                action: JobActionView::Write(rows),
            },
            JobStageView::BatchCheck(i) => {
                let shown = seq![job_progress(s, "transform"@, i, job_batches(s))];
                let (ok, bad) = turned_batch(s, i, rd);
                let t = with_errors(s, bad);
                match s.policy {
                    ErrorPolicy::AbortOnFirst => if bad.len() > 0 {
                        job_over(
                            t,
                            shown,
                            "aborted"@,
                            Some("首錯即停：偵測到轉換錯誤"@),
                            None,
                            elapsed_ms,
                        )
                    } else {
                        load_batch(t, i, ok, shown)
                    },
                    ErrorPolicy::AbortOnErrorRate { .. } => JobOut {
                        state: JobState { stage: JobStageView::BatchJudge(i, ok), ..t },
                        events: shown,
                        action: JobActionView::AskRate {
                            errors: t.error_rows,
                            of: processed_rows(t, ok.len()),
                        },
                    },
                    ErrorPolicy::SkipAndReport => load_batch(t, i, ok, shown),
                }
            },
            _ => arbitrary(),
        }
    }
}

/// It is known whether too many rows failed; `rate` and `limit` are for the message.
pub open spec fn on_rate(
    s: JobState,
    over: bool,
    rate: Seq<char>,
    limit: Seq<char>,
    elapsed_ms: u64,
) -> JobOut {
    match s.stage {
        JobStageView::WholeJudge(rows) => if over {
            whole_aborted(s, elapsed_ms)
        } else {
            whole_check(s, rows)
        },
        JobStageView::BatchJudge(i, rows) => if over {
            job_over(
                s,
                seq![],
                "aborted"@,
                Some("錯誤率 "@ + rate + "% 超過上限 "@ + limit + "%"@),
                None,
                elapsed_ms,
            )
        } else {
            load_batch(s, i, rows, seq![])
        },
        _ => arbitrary(),
    }
}

/// Rows were written, or writing failed.
pub open spec fn on_written(s: JobState, written: Result<u64, Seq<char>>, elapsed_ms: u64) -> JobOut {
    match written {
        Err(e) => job_over(s, seq![], "failed"@, Some(e), None, elapsed_ms),
        Ok(n) => match s.stage {
            JobStageView::WholeWrite => JobOut {
                state: JobState { success_rows: n, stage: JobStageView::WholeRecord, ..s },
                events: seq![],
                action: JobActionView::Record {
                    batches: 1,
                    success_rows: n,
                    error_rows: s.error_rows,
                },
            },
            JobStageView::BatchWrite(i) => record_batch(
                JobState { success_rows: plus(s.success_rows, n as nat), ..s },
                i,
                seq![],
            ),
            _ => arbitrary(),
        },
    }
}

/// What was written is recorded.
pub open spec fn on_recorded(s: JobState, elapsed_ms: u64) -> JobOut {
    match s.stage {
        JobStageView::WholeRecord => job_over(
            s,
            seq![],
            "completed"@,
            None,
            Some(job_progress(s, "load"@, 1, 1)),
            elapsed_ms,
        ),
        JobStageView::BatchRecord(i) => next_batch(
            s,
            (i + 1) as usize,
            seq![job_progress(s, "load"@, (i + 1) as usize, job_batches(s))],
            elapsed_ms,
        ),
        _ => arbitrary(),
    }
}

/// What to do next.
pub enum JobAction {
    AskCancelled,
    AskRate { errors: u64, of: u64 },
    Write(Vec<Vec<CellValue>>),
    Record { batches: usize, success_rows: u64, error_rows: u64 },
    Finish { summary: EtlSummary, last: Option<EtlProgress> },
}

pub open spec fn opt_progress(x: Option<EtlProgress>) -> Option<ProgressView> {
    match x {
        Some(p) => Some(p@),
        None => None,
    }
}

impl View for JobAction {
    type V = JobActionView;

    open spec fn view(&self) -> JobActionView {
        match *self {
            JobAction::AskCancelled => JobActionView::AskCancelled,
            JobAction::AskRate { errors, of } => JobActionView::AskRate { errors, of },
            JobAction::Write(v) => JobActionView::Write(rows_view(v@)),
            JobAction::Record { batches, success_rows, error_rows } => JobActionView::Record {
                batches,
                success_rows,
                error_rows,
            },
            JobAction::Finish { summary, last } => JobActionView::Finish {
                summary: summary@,
                last: opt_progress(last),
            },
        }
    }
}

/// What to report and what to do next.
pub struct JobStep {
    pub events: Vec<EtlProgress>,
    pub action: JobAction,
}

/// A job under way.
pub struct JobRun {
    job_id: u128,
    rules: Vec<MappingRule>,
    mode: WriteMode,
    policy: ErrorPolicy,
    size: usize,
    skip: usize,
    rows: Vec<Vec<CellValue>>,
    first: usize,
    success_rows: u64,
    error_rows: u64,
    errors: Vec<RowError>,
    stage: JobStage,
}

impl View for JobRun {
    type V = JobState;

    closed spec fn view(&self) -> JobState {
        JobState {
            job_id: self.job_id,
            rules: rules_view(self.rules@),
            mode: self.mode,
            policy: self.policy,
            size: self.size,
            skip: self.skip,
            rows: rows_view(self.rows@),
            first: self.first,
            success_rows: self.success_rows,
            error_rows: self.error_rows,
            errors: row_errors_view(self.errors@),
            stage: self.stage@,
        }
    }
}

/// Batches have rows, and the batch at hand is one that there is.
pub open spec fn job_wf(s: JobState) -> bool {
    let n = batch_count(s.rows.len(), s.size as nat);
    &&& s.size > 0
    &&& s.errors.len() <= ERROR_DETAIL_CAP
    &&& match s.stage {
        JobStageView::BatchCheck(i) => i < n,
        JobStageView::BatchJudge(i, _) => i < n,
        JobStageView::BatchWrite(i) => i < n,
        JobStageView::BatchRecord(i) => i < n,
        _ => true,
    }
}

/// A step leads where `out` says.
pub open spec fn leads(run: JobRun, step: JobStep, out: JobOut) -> bool {
    &&& run@ == out.state
    &&& events_view(step.events@) == out.events
    &&& step.action@ == out.action
    &&& job_wf(run@)
}

fn no_events() -> (r: Vec<EtlProgress>)
    ensures
        events_view(r@) == Seq::<ProgressView>::empty(),
{
    let v: Vec<EtlProgress> = Vec::new();
    assert(events_view(v@) =~= Seq::<ProgressView>::empty());
    v
}

fn one_event(e: EtlProgress) -> (r: Vec<EtlProgress>)
    ensures
        events_view(r@) == seq![e@],
{
    let mut v: Vec<EtlProgress> = Vec::new();
    v.push(e);
    assert(events_view(v@) =~= seq![e@]);
    v
}

impl JobRun {
    /// A job that starts behind the batches that are written already; its rows
    /// are to be read first, and `progress` reported before.
    pub fn new(
        job_id: u128,
        rules: Vec<MappingRule>,
        mode: WriteMode,
        policy: ErrorPolicy,
        batch_size: usize,
        skip_batches: usize,
    ) -> (r: (JobRun, EtlProgress))
        ensures
            r.0@ == (JobState {
                job_id,
                rules: rules_view(rules@),
                mode,
                policy,
                size: if batch_size == 0 {
                    1
                } else {
                    batch_size
                },
                skip: skip_batches,
                rows: seq![],
                first: 0,
                success_rows: 0,
                error_rows: 0,
                errors: seq![],
                stage: JobStageView::Reading,
            }),
            r.1@ == job_progress(r.0@, "read"@, 0, 0),
            job_wf(r.0@),
    {
        let run = JobRun {
            job_id,
            rules,
            mode,
            policy,
            size: if batch_size == 0 {
                1
            } else {
                batch_size
            },
            skip: skip_batches,
            rows: Vec::new(),
            first: 0,
            success_rows: 0,
            error_rows: 0,
            errors: Vec::new(),
            stage: JobStage::Reading,
        };
        proof {
            assert(run@.rows =~= seq![]);
            assert(run@.errors =~= seq![]);
        }
        let p: EtlProgress = run.progress("read", 0, 0);
        (run, p)
    }

    fn progress(&self, phase: &str, batch: usize, total_batches: usize) -> (r: EtlProgress)
        ensures
            r@ == job_progress(self@, phase@, batch, total_batches),
    {
        EtlProgress {
            job_id: self.job_id,
            phase: phase.to_string(),
            batch,
            total_batches,
            success_rows: self.success_rows,
            error_rows: self.error_rows,
        }
    }

    fn total_batches(&self) -> (r: usize)
        requires
            job_wf(self@),
        ensures
            r == job_batches(self@),
    {
        let n: usize = count_batches(self.rows.len(), self.size);
        if n == 0 {
            1
        } else {
            n
        }
    }

    fn push_errors(&mut self, errs: Vec<RowError>)
        requires
            old(self)@.errors.len() <= ERROR_DETAIL_CAP,
        ensures
            final(self)@ == with_errors(old(self)@, row_errors_view(errs@)),
    {
        let ghost before = row_errors_view(self.errors@);
        let ghost more = row_errors_view(errs@);
        let len: usize = errs.len();
        self.error_rows = add_rows(self.error_rows, len as u64);
        for e in it: errs
            invariant
                it.seq() == errs@,
                more == row_errors_view(errs@),
                before == old(self)@.errors,
                before.len() <= ERROR_DETAIL_CAP,
                self@ == (JobState {
                    error_rows: plus(old(self)@.error_rows, more.len()),
                    errors: capped(before + more.take(it.index() as int)),
                    ..old(self)@
                }),
        {
            proof {
                let n = it.index() as int;
                assert(more.take(n + 1) =~= more.take(n).push(e@));
                assert(before + more.take(n + 1) =~= (before + more.take(n)).push(e@));
            }
            if self.errors.len() < ERROR_DETAIL_CAP {
                proof {
                    assert(row_errors_view(self.errors@.push(e)) =~= row_errors_view(
                        self.errors@,
                    ).push(e@));
                }
                self.errors.push(e);
            } else {
                proof {
                    let n = it.index() as int;
                    assert(capped(before + more.take(n + 1)) =~= capped(before + more.take(n)));
                }
            }
        }
        proof {
            assert(more.take(errs@.len() as int) =~= more);
        }
    }

    fn over(
        &mut self,
        events: Vec<EtlProgress>,
        status: &str,
        failure: Option<String>,
        last: Option<EtlProgress>,
        elapsed_ms: u64,
    ) -> (r: JobStep)
        requires
            job_wf(old(self)@),
        ensures
            leads(
                *final(self),
                r,
                job_over(
                    old(self)@,
                    events_view(events@),
                    status@,
                    text::opt_view(failure),
                    opt_progress(last),
                    elapsed_ms,
                ),
            ),
    {
        let mut errors: Vec<RowError> = Vec::new();
        let mut i: usize = 0;
        while i < self.errors.len()
            invariant
                i <= self.errors@.len(),
                errors@.len() == i,
                self@ == old(self)@,
                forall|j: int| 0 <= j < i ==> #[trigger] errors@[j]@ == self.errors@[j]@,
            decreases self.errors@.len() - i,
        {
            let e: &RowError = &self.errors[i];
            errors.push(
                RowError {
                    row: e.row,
                    column: e.column.as_str().to_string(),
                    reason: e.reason.as_str().to_string(),
                },
            );
            i += 1;
        }
        proof {
            assert(row_errors_view(errors@) =~= row_errors_view(self.errors@));
        }
        let total: usize = self.rows.len();
        self.stage = JobStage::Done;
        let summary = EtlSummary {
            job_id: self.job_id,
            status: status.to_string(),
            total_rows: total as u64,
            success_rows: self.success_rows,
            error_rows: self.error_rows,
            elapsed_ms,
            failure,
            errors,
        };
        JobStep { events, action: JobAction::Finish { summary, last } }
    }
}

impl JobRun {
    fn go_to_batch(&mut self, i: usize, events: Vec<EtlProgress>, elapsed_ms: u64) -> (r: JobStep)
        requires
            job_wf(old(self)@),
        ensures
            leads(
                *final(self),
                r,
                next_batch(old(self)@, i, events_view(events@), elapsed_ms),
            ),
    {
        let n: usize = count_batches(self.rows.len(), self.size);
        if i < n {
            self.stage = JobStage::BatchCheck(i);
            JobStep { events, action: JobAction::AskCancelled }
        } else {
            self.over(events, "completed", None, None, elapsed_ms)
        }
    }

    fn check_whole(&mut self, rows: Vec<Vec<CellValue>>) -> (r: JobStep)
        requires
            job_wf(old(self)@),
        ensures
            leads(*final(self), r, whole_check(old(self)@, rows_view(rows@))),
    {
        self.stage = JobStage::WholeCheck(rows);
        JobStep { events: no_events(), action: JobAction::AskCancelled }
    }

    fn abort_whole(&mut self, elapsed_ms: u64) -> (r: JobStep)
        requires
            job_wf(old(self)@),
        ensures
            leads(*final(self), r, whole_aborted(old(self)@, elapsed_ms)),
    {
        self.over(
            no_events(),
            "aborted",
            Some("轉換錯誤超出政策容許，全有全無模式未寫入任何資料".to_string()),
            None,
            elapsed_ms,
        )
    }

    /// The rows are read.
    pub fn source_read<F: Fn(String) -> Option<Real> + Sync>(
        &mut self,
        rows: Vec<Vec<CellValue>>,
        first: usize,
        read: &F,
        elapsed_ms: u64,
    ) -> (r: JobStep)
        requires
            is_reader(*read),
            job_wf(old(self)@),
            old(self)@.stage is Reading,
        ensures
            leads(
                *final(self),
                r,
                on_source(old(self)@, rows_view(rows@), first, reading(*read), elapsed_ms),
            ),
    {
        self.rows = rows;
        self.first = first;
        match self.mode {
            WriteMode::BatchCommit => {
                let skip: usize = self.skip;
                self.go_to_batch(skip, no_events(), elapsed_ms)
            },
            WriteMode::AllOrNothing => {
                let (ok, bad): (Vec<Vec<CellValue>>, Vec<RowError>) = transform_rows(
                    &self.rows,
                    &self.rules,
                    first,
                    read,
                );
                self.push_errors(bad);
                let total: usize = self.rows.len();
                match self.policy {
                    ErrorPolicy::SkipAndReport => self.check_whole(ok),
                    ErrorPolicy::AbortOnFirst => if self.error_rows > 0 {
                        self.abort_whole(elapsed_ms)
                    } else {
                        self.check_whole(ok)
                    },
                    ErrorPolicy::AbortOnErrorRate { .. } => if total > 0 {
                        self.stage = JobStage::WholeJudge(ok);
                        JobStep {
                            events: no_events(),
                            action: JobAction::AskRate { errors: self.error_rows, of: total as u64 },
                        }
                    } else {
                        self.check_whole(ok)
                    },
                }
            },
        }
    }

    fn record(&mut self, i: usize, events: Vec<EtlProgress>) -> (r: JobStep)
        requires
            job_wf(old(self)@),
            i < batch_count(old(self)@.rows.len(), old(self)@.size as nat),
        ensures
            leads(*final(self), r, record_batch(old(self)@, i, events_view(events@))),
    {
        let n: usize = count_batches(self.rows.len(), self.size);
        assert(i < n);
        self.stage = JobStage::BatchRecord(i);
        JobStep {
            events,
            action: JobAction::Record {
                batches: i + 1,
                success_rows: self.success_rows,
                error_rows: self.error_rows,
            },
        }
    }

    fn load(&mut self, i: usize, rows: Vec<Vec<CellValue>>, events: Vec<EtlProgress>) -> (r: JobStep)
        requires
            job_wf(old(self)@),
            i < batch_count(old(self)@.rows.len(), old(self)@.size as nat),
        ensures
            leads(
                *final(self),
                r,
                load_batch(old(self)@, i, rows_view(rows@), events_view(events@)),
            ),
    {
        let mut shown: Vec<EtlProgress> = events;
        let p: EtlProgress = self.progress("load", i, self.total_batches());
        proof {
            assert(events_view(shown@.push(p)) =~= events_view(shown@).push(p@));
        }
        shown.push(p);
        if rows.len() == 0 {
            self.record(i, shown)
        } else {
            self.stage = JobStage::BatchWrite(i);
            JobStep { events: shown, action: JobAction::Write(rows) }
        }
    }

    /// Whether the job is cancelled is known.
    pub fn cancel_known<F: Fn(String) -> Option<Real> + Sync>(
        &mut self,
        cancelled: bool,
        read: &F,
        elapsed_ms: u64,
    ) -> (r: JobStep)
        requires
            is_reader(*read),
            job_wf(old(self)@),
            old(self)@.stage is WholeCheck || old(self)@.stage is BatchCheck,
        ensures
            leads(
                *final(self),
                r,
                on_cancelled(old(self)@, cancelled, reading(*read), elapsed_ms),
            ),
    {
        if cancelled {
            return self.over(no_events(), "cancelled", None, None, elapsed_ms);
        }
        let mut stage: JobStage = JobStage::Done;
        let ghost before = self@;
        std::mem::swap(&mut stage, &mut self.stage);
        match stage {
            JobStage::WholeCheck(rows) => {
                self.stage = JobStage::WholeWrite;
                let p: EtlProgress = self.progress("load", 0, 1);
                JobStep { events: one_event(p), action: JobAction::Write(rows) }
            },
            JobStage::BatchCheck(i) => {
                let p: EtlProgress = self.progress("transform", i, self.total_batches());
                let shown: Vec<EtlProgress> = one_event(p);
                proof {
                    law_batches_are_full(self.rows@.len(), self.size as nat, i as nat);
                }
                let len: usize = self.rows.len();
                let chunk: Vec<Vec<CellValue>> = copy_batch(&self.rows, self.size, i);
                let (ok, bad): (Vec<Vec<CellValue>>, Vec<RowError>) = transform_rows(
                    &chunk,
                    &self.rules,
                    number_row(self.first, i * self.size),
                    read,
                );
                let clean: bool = bad.len() == 0;
                self.push_errors(bad);
                match self.policy {
                    ErrorPolicy::AbortOnFirst => if !clean {
                        self.over(
                            shown,
                            "aborted",
                            Some("首錯即停：偵測到轉換錯誤".to_string()),
                            None,
                            elapsed_ms,
                        )
                    } else {
                        self.load(i, ok, shown)
                    },
                    ErrorPolicy::AbortOnErrorRate { .. } => {
                        let good: usize = ok.len();
                        self.stage = JobStage::BatchJudge(i, ok);
                        let n: u64 = add_rows(
                            add_rows(self.success_rows, self.error_rows),
                            good as u64,
                        );
                        JobStep {
                            events: shown,
                            action: JobAction::AskRate {
                                errors: self.error_rows,
                                of: if n == 0 {
                                    1
                                } else {
                                    n
                                },
                            },
                        }
                    },
                    ErrorPolicy::SkipAndReport => self.load(i, ok, shown),
                }
            },
            _ => {
                assert(false);
                self.over(no_events(), "cancelled", None, None, elapsed_ms)
            },
        }
    }

    /// Whether too many rows failed is known.
    pub fn rate_known(&mut self, over: bool, rate: &str, limit: &str, elapsed_ms: u64) -> (r: JobStep)
        requires
            job_wf(old(self)@),
            old(self)@.stage is WholeJudge || old(self)@.stage is BatchJudge,
        ensures
            leads(*final(self), r, on_rate(old(self)@, over, rate@, limit@, elapsed_ms)),
    {
        let mut stage: JobStage = JobStage::Done;
        std::mem::swap(&mut stage, &mut self.stage);
        match stage {
            JobStage::WholeJudge(rows) => if over {
                self.abort_whole(elapsed_ms)
            } else {
                self.check_whole(rows)
            },
            JobStage::BatchJudge(i, rows) => if over {
                let reason: String = text::cat5("錯誤率 ", rate, "% 超過上限 ", limit, "%");
                self.over(no_events(), "aborted", Some(reason), None, elapsed_ms)
            } else {
                self.load(i, rows, no_events())
            },
            _ => {
                assert(false);
                self.abort_whole(elapsed_ms)
            },
        }
    }

    /// Rows were written, or writing failed.
    pub fn written(&mut self, written: Result<u64, String>, elapsed_ms: u64) -> (r: JobStep)
        requires
            job_wf(old(self)@),
            old(self)@.stage is WholeWrite || old(self)@.stage is BatchWrite,
        ensures
            leads(
                *final(self),
                r,
                on_written(
                    old(self)@,
                    match written {
                        Ok(n) => Ok(n),
                        Err(e) => Err(e@),
                    },
                    elapsed_ms,
                ),
            ),
    {
        match written {
            Err(e) => self.over(no_events(), "failed", Some(e), None, elapsed_ms),
            Ok(n) => match self.stage {
                JobStage::BatchWrite(i) => {
                    self.success_rows = add_rows(self.success_rows, n);
                    self.record(i, no_events())
                },
                _ => {
                    self.success_rows = n;
                    self.stage = JobStage::WholeRecord;
                    JobStep {
                        events: no_events(),
                        action: JobAction::Record {
                            batches: 1,
                            success_rows: n,
                            error_rows: self.error_rows,
                        },
                    }
                },
            },
        }
    }

    /// What was written is recorded.
    pub fn recorded(&mut self, elapsed_ms: u64) -> (r: JobStep)
        requires
            job_wf(old(self)@),
            old(self)@.stage is WholeRecord || old(self)@.stage is BatchRecord,
        ensures
            leads(*final(self), r, on_recorded(old(self)@, elapsed_ms)),
    {
        match self.stage {
            JobStage::BatchRecord(i) => {
                let n: usize = count_batches(self.rows.len(), self.size);
                assert(i < n);
                let p: EtlProgress = self.progress("load", i + 1, self.total_batches());
                self.go_to_batch(i + 1, one_event(p), elapsed_ms)
            },
            _ => {
                let p: EtlProgress = self.progress("load", 1, 1);
                self.over(no_events(), "completed", None, Some(p), elapsed_ms)
            },
        }
    }
}

/// A cancelled job ends at once, whatever was to come next, and writes nothing more.
pub proof fn law_cancelling_ends_the_job(s: JobState, rd: Reading, elapsed_ms: u64)
    ensures
        on_cancelled(s, true, rd, elapsed_ms).action == (JobActionView::Finish {
            summary: job_summary(s, "cancelled"@, None, elapsed_ms),
            last: None,
        }),
        on_cancelled(s, true, rd, elapsed_ms).state.success_rows == s.success_rows,
{
}

/// A job that is taken up again goes on with the first batch that is not
/// written yet, and if there is none it is complete.
pub proof fn law_resuming_skips_written_batches(
    s: JobState,
    rows: Seq<Seq<CellView>>,
    first: usize,
    rd: Reading,
    elapsed_ms: u64,
)
    requires
        s.mode is BatchCommit,
        s.size > 0,
    ensures
        ({
            let out = on_source(s, rows, first, rd, elapsed_ms);
            if s.skip < batch_count(rows.len(), s.size as nat) {
                out.state.stage == JobStageView::BatchCheck(s.skip)
            } else {
                out.action matches JobActionView::Finish { summary, .. } && summary.status
                    == "completed"@
            }
        }),
{
}

/// Batches follow one another without a gap: what is recorded of a batch is
/// its number, and the next one is taken up; behind the last the job is complete.
pub proof fn law_batches_follow_one_another(s: JobState, i: usize, n: u64, elapsed_ms: u64)
    requires
        job_wf(s),
        s.stage == JobStageView::BatchWrite(i),
        s.rows.len() <= usize::MAX,
    ensures
        ({
            let written = on_written(s, Ok(n), elapsed_ms);
            let next = on_recorded(written.state, elapsed_ms);
            &&& written.action == (JobActionView::Record {
                batches: (i + 1) as usize,
                success_rows: plus(s.success_rows, n as nat),
                error_rows: s.error_rows,
            })
            &&& if i + 1 < batch_count(s.rows.len(), s.size as nat) {
                next.state.stage == JobStageView::BatchCheck((i + 1) as usize)
            } else {
                next.action matches JobActionView::Finish { summary, .. } && summary.status
                    == "completed"@
            }
        }),
{
    law_batches_are_full(s.rows.len(), s.size as nat, i as nat);
    assert(i + 1 <= s.rows.len()) by (nonlinear_arith)
        requires
            i * s.size < s.rows.len(),
            s.size >= 1,
    ;
}

/// A job of one transaction whose rows fail beyond its policy ends before
/// anything is written.
pub proof fn law_all_or_nothing_aborts_unwritten(
    s: JobState,
    rows: Seq<Seq<CellView>>,
    first: usize,
    rd: Reading,
    elapsed_ms: u64,
)
    requires
        s.mode is AllOrNothing,
        s.policy is AbortOnFirst,
        partition(rows, s.rules, first, rd).1.len() > 0,
    ensures
        ({
            let out = on_source(s, rows, first, rd, elapsed_ms);
            &&& out.action matches JobActionView::Finish { summary, .. } && summary.status
                == "aborted"@ && summary.success_rows == s.success_rows
            &&& out.state.stage is Done
        }),
{
}

/// Only a turned row is ever written, and no more rows than the batch has.
pub proof fn law_batch_writes_turned_rows(s: JobState, i: usize, rd: Reading, elapsed_ms: u64)
    requires
        job_wf(s),
        s.stage == JobStageView::BatchCheck(i),
    ensures
        on_cancelled(s, false, rd, elapsed_ms).action matches JobActionView::Write(rows) ==> {
            &&& rows == turned_batch(s, i, rd).0
            &&& 0 < rows.len() <= s.size
            &&& forall|k: int| 0 <= k < rows.len() ==> (#[trigger] rows[k]).len() == s.rules.len()
        },
{
    crate::etl::transform::law_rows_are_turned_or_reported(
        batch(s.rows, s.size as nat, i as nat),
        s.rules,
        row_number(s.first, i * s.size),
        rd,
    );
    law_batches_are_full(s.rows.len(), s.size as nat, i as nat);
}

/// Every row of a batch is counted: where the rows that were turned are written, the
/// rows written and the rows failed grow together by the size of the batch.
pub proof fn law_every_row_of_a_batch_is_counted(
    s: JobState,
    i: usize,
    rd: Reading,
    elapsed_ms: u64,
)
    requires
        job_wf(s),
        s.stage == JobStageView::BatchCheck(i),
        s.policy is SkipAndReport,
        s.success_rows + s.error_rows + s.rows.len() <= u64::MAX,
    ensures
        ({
            let out = on_cancelled(s, false, rd, elapsed_ms);
            let n = batch(s.rows, s.size as nat, i as nat).len();
            match out.action {
                JobActionView::Write(rows) => {
                    let done = on_written(out.state, Ok(rows.len() as u64), elapsed_ms);
                    &&& done.state.success_rows + done.state.error_rows == s.success_rows
                        + s.error_rows + n
                    &&& done.state.success_rows == s.success_rows + rows.len()
                },
                JobActionView::Record { .. } => out.state.success_rows == s.success_rows
                    && out.state.error_rows == s.error_rows + n,
                _ => false,
            }
        }),
{
    crate::etl::transform::law_rows_are_turned_or_reported(
        batch(s.rows, s.size as nat, i as nat),
        s.rules,
        row_number(s.first, i * s.size),
        rd,
    );
    law_batches_are_full(s.rows.len(), s.size as nat, i as nat);
}

/// Failed rows never stop a job that skips and reports them; a job that stops at the
/// first writes nothing of a batch that has one; a job with a limit asks before it
/// writes, and writes nothing where the limit is passed.
pub proof fn law_errors_go_by_the_policy(
    s: JobState,
    i: usize,
    rd: Reading,
    rate: Seq<char>,
    limit: Seq<char>,
    elapsed_ms: u64,
)
    requires
        job_wf(s),
        s.stage == JobStageView::BatchCheck(i),
    ensures
        ({
            let out = on_cancelled(s, false, rd, elapsed_ms);
            let bad = turned_batch(s, i, rd).1;
            let ok = turned_batch(s, i, rd).0;
            match s.policy {
                ErrorPolicy::SkipAndReport => out.action is Write || out.action is Record,
                ErrorPolicy::AbortOnFirst => if bad.len() > 0 {
                    out.action matches JobActionView::Finish { summary, .. } && summary.status
                        == "aborted"@ && summary.success_rows == s.success_rows
                } else {
                    out.action is Write || out.action is Record
                },
                ErrorPolicy::AbortOnErrorRate { .. } => {
                    let over = on_rate(out.state, true, rate, limit, elapsed_ms);
                    let under = on_rate(out.state, false, rate, limit, elapsed_ms);
                    &&& out.action is AskRate
                    &&& over.action matches JobActionView::Finish { summary, .. } && summary.status
                        == "aborted"@ && summary.success_rows == s.success_rows
                    &&& ok.len() > 0 ==> under.action == JobActionView::Write(ok)
                    &&& ok.len() == 0 ==> under.action is Record
                },
            }
        }),
{
}

/// The limit is judged by the failed rows out of all rows so far, those of the batch
/// at hand with them.
pub proof fn law_rate_is_that_of_the_rows_so_far(s: JobState, i: usize, rd: Reading, elapsed_ms: u64)
    requires
        job_wf(s),
        s.stage == JobStageView::BatchCheck(i),
        s.policy is AbortOnErrorRate,
        s.success_rows + s.error_rows + s.rows.len() <= u64::MAX,
    ensures
        on_cancelled(s, false, rd, elapsed_ms).action == (JobActionView::AskRate {
            errors: (s.error_rows + turned_batch(s, i, rd).1.len()) as u64,
            of: (s.success_rows + s.error_rows + batch(s.rows, s.size as nat, i as nat).len()) as u64,
        }),
{
    crate::etl::transform::law_rows_are_turned_or_reported(
        batch(s.rows, s.size as nat, i as nat),
        s.rules,
        row_number(s.first, i * s.size),
        rd,
    );
    law_batches_are_full(s.rows.len(), s.size as nat, i as nat);
}

/// A job that writes all or nothing turns every row first and hands the turned rows to
/// one write; only that write counts rows as written.
pub proof fn law_all_or_nothing_writes_once(
    s: JobState,
    rows: Seq<Seq<CellView>>,
    first: usize,
    n: u64,
    rd: Reading,
    elapsed_ms: u64,
)
    requires
        s.mode is AllOrNothing,
        s.policy is SkipAndReport,
        s.success_rows == 0,
    ensures
        ({
            let read = on_source(s, rows, first, rd, elapsed_ms);
            let asked = on_cancelled(read.state, false, rd, elapsed_ms);
            let written = on_written(asked.state, Ok(n), elapsed_ms);
            let done = on_recorded(written.state, elapsed_ms);
            &&& read.action is AskCancelled
            &&& asked.action == JobActionView::Write(partition(rows, s.rules, first, rd).0)
            &&& written.action == (JobActionView::Record {
                batches: 1,
                success_rows: n,
                error_rows: plus(s.error_rows, partition(rows, s.rules, first, rd).1.len()),
            })
            &&& done.action matches JobActionView::Finish { summary, .. } && summary.status
                == "completed"@ && summary.success_rows == n && summary.total_rows == rows.len()
                as u64
        }),
{
}

/// A failed write ends the job; what was written before it stays counted, and the
/// reason is told.
pub proof fn law_failed_writes_end_the_job(s: JobState, e: Seq<char>, elapsed_ms: u64)
    ensures
        on_written(s, Err(e), elapsed_ms).action matches JobActionView::Finish { summary, .. }
            && summary.status == "failed"@ && summary.failure == Some(e) && summary.success_rows
            == s.success_rows && summary.error_rows == s.error_rows && summary.job_id == s.job_id,
        on_written(s, Err(e), elapsed_ms).state.stage is Done,
{
}

/// The errors that are kept in detail are the first ones, and all are counted.
pub proof fn law_first_errors_are_kept(s: JobState, errors: Seq<RowErrorView>)
    requires
        s.errors.len() <= ERROR_DETAIL_CAP,
        s.error_rows + errors.len() <= u64::MAX,
    ensures
        with_errors(s, errors).error_rows == s.error_rows + errors.len(),
        with_errors(s, errors).errors.len() <= ERROR_DETAIL_CAP,
        forall|i: int|
            0 <= i < with_errors(s, errors).errors.len() ==> #[trigger] with_errors(
                s,
                errors,
            ).errors[i] == (s.errors + errors)[i],
        s.errors.len() + errors.len() <= ERROR_DETAIL_CAP ==> with_errors(s, errors).errors.len()
            == s.errors.len() + errors.len(),
        with_errors(s, errors).success_rows == s.success_rows,
        with_errors(s, errors).rows == s.rows,
{
}

/// A row that fails in a batch is reported under its number in the source.
pub proof fn law_failed_rows_keep_their_number(s: JobState, i: usize, rd: Reading, k: int) -> (j: int)
    requires
        job_wf(s),
        i < batch_count(s.rows.len(), s.size as nat),
        s.first + s.rows.len() <= usize::MAX,
        0 <= k < turned_batch(s, i, rd).1.len(),
    ensures
        i * s.size <= j < s.rows.len(),
        j < (i + 1) * s.size,
        turned_batch(s, i, rd).1[k].row == s.first + j,
{
    law_batches_are_full(s.rows.len(), s.size as nat, i as nat);
    let b = batch(s.rows, s.size as nat, i as nat);
    let m = crate::etl::transform::law_errors_tell_their_rows(
        b,
        s.rules,
        row_number(s.first, i * s.size),
        rd,
        k,
    );
    assert((i + 1) * s.size == i * s.size + s.size) by (nonlinear_arith);
    i * s.size + m
}

/// The progress tells where the job is: which of how many batches is being turned, then
/// written, then done, and how many rows were written and failed so far.
pub proof fn law_progress_tells_where_the_job_is(
    s: JobState,
    i: usize,
    rd: Reading,
    elapsed_ms: u64,
)
    requires
        job_wf(s),
        s.rows.len() <= usize::MAX,
        i < batch_count(s.rows.len(), s.size as nat),
    ensures
        s.stage == JobStageView::BatchCheck(i) ==> ({
            let events = on_cancelled(s, false, rd, elapsed_ms).events;
            &&& events.len() >= 1
            &&& events[0].phase == "transform"@
            &&& events[0].batch == i
            &&& events[0].total_batches == batch_count(s.rows.len(), s.size as nat)
            &&& events[0].success_rows == s.success_rows
            &&& events[0].error_rows == s.error_rows
            &&& events.len() > 1 ==> events[1].phase == "load"@ && events[1].batch == i
                && events[1].error_rows == with_errors(s, turned_batch(s, i, rd).1).error_rows
        }),
        s.stage == JobStageView::BatchRecord(i) ==> ({
            let events = on_recorded(s, elapsed_ms).events;
            &&& events.len() == 1
            &&& events[0].phase == "load"@
            &&& events[0].batch == i + 1
            &&& events[0].total_batches == batch_count(s.rows.len(), s.size as nat)
            &&& events[0].success_rows == s.success_rows
            &&& events[0].job_id == s.job_id
        }),
{
    law_batches_are_full(s.rows.len(), s.size as nat, i as nat);
    let len = s.rows.len();
    let size = s.size as nat;
    assert(len / size <= len) by (nonlinear_arith)
        requires
            size > 0,
    ;
    assert(len % size != 0 ==> len / size < len) by (nonlinear_arith)
        requires
            size > 0,
    ;
}

} // verus!
