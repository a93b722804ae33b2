//! Whole runs of a mapping job, answer by answer, and what an interrupted run
//! leaves to the one that takes it up again.
use crate::double::Reading;
use crate::etl::batches::{batch_count, law_batches_are_full};
use crate::etl::executor::{
    capped, on_cancelled, on_rate, on_recorded, on_source, on_written, turned_batch,
    JobActionView, JobOut, JobStageView, JobState, ERROR_DETAIL_CAP,
};
use crate::etl::transform::RowErrorView;
use crate::models::value::CellView;
use vstd::prelude::*;

verus! {

/// An answer to what a job asks for.
pub enum Answer {
    Cancelled { yes: bool, elapsed_ms: u64 },
    Rate { over: bool, rate: Seq<char>, limit: Seq<char>, elapsed_ms: u64 },
    Written { result: Result<u64, Seq<char>>, elapsed_ms: u64 },
    Recorded { elapsed_ms: u64 },
}

/// The answer is one to that question. A job that is over asks nothing.
pub open spec fn answers(a: Answer, action: JobActionView) -> bool {
    match action {
        JobActionView::AskCancelled => a is Cancelled,
        JobActionView::AskRate { .. } => a is Rate,
        JobActionView::Write(_) => a is Written,
        JobActionView::Record { .. } => a is Recorded,
        JobActionView::Finish { .. } => false,
    }
}

/// Where an answer leads.
pub open spec fn told(s: JobState, a: Answer, rd: Reading) -> JobOut {
    match a {
        Answer::Cancelled { yes, elapsed_ms } => on_cancelled(s, yes, rd, elapsed_ms),
        Answer::Rate { over, rate, limit, elapsed_ms } => on_rate(s, over, rate, limit, elapsed_ms),
        Answer::Written { result, elapsed_ms } => on_written(s, result, elapsed_ms),
        Answer::Recorded { elapsed_ms } => on_recorded(s, elapsed_ms),
    }
}

/// The answers fit the questions, one after the other.
pub open spec fn is_run(o: JobOut, v: Seq<Answer>, rd: Reading) -> bool
    decreases v.len(),
{
    v.len() == 0 || (answers(v[0], o.action) && is_run(told(o.state, v[0], rd), v.skip(1), rd))
}

/// Where all of the answers lead.
pub open spec fn end_of(o: JobOut, v: Seq<Answer>, rd: Reading) -> JobOut
    decreases v.len(),
{
    if v.len() == 0 {
        o
    } else {
        end_of(told(o.state, v[0], rd), v.skip(1), rd)
    }
}

/// The rows that were written, in the order in which they were.
pub open spec fn rows_written(o: JobOut, v: Seq<Answer>, rd: Reading) -> Seq<Seq<CellView>>
    decreases v.len(),
{
    if v.len() == 0 {
        seq![]
    } else {
        let rest = rows_written(told(o.state, v[0], rd), v.skip(1), rd);
        match (o.action, v[0]) {
            (JobActionView::Write(rows), Answer::Written { result: Ok(_), .. }) => rows + rest,
            _ => rest,
        }
    }
}

/// How many batches are on record as written, where it was `before` at first.
pub open spec fn batches_recorded(o: JobOut, v: Seq<Answer>, rd: Reading, before: nat) -> nat
    decreases v.len(),
{
    if v.len() == 0 {
        before
    } else {
        let now = match (o.action, v[0]) {
            (JobActionView::Record { batches, .. }, Answer::Recorded { .. }) => batches as nat,
            _ => before,
        };
        batches_recorded(told(o.state, v[0], rd), v.skip(1), rd, now)
    }
}

/// The job is complete.
pub open spec fn is_complete(o: JobOut) -> bool {
    o.action matches JobActionView::Finish { summary, .. } && summary.status == "completed"@
}

/// The turned rows of the batches from `a` up to `b`.
pub open spec fn turned_rows(s: JobState, a: nat, b: nat, rd: Reading) -> Seq<Seq<CellView>>
    decreases b,
{
    if b <= a {
        seq![]
    } else {
        turned_rows(s, a, (b - 1) as nat, rd) + turned_batch(s, (b - 1) as usize, rd).0
    }
}

/// The errors of the batches from `a` up to `b`.
pub open spec fn batch_errors(s: JobState, a: nat, b: nat, rd: Reading) -> Seq<RowErrorView>
    decreases b,
{
    if b <= a {
        seq![]
    } else {
        batch_errors(s, a, (b - 1) as nat, rd) + turned_batch(s, (b - 1) as usize, rd).1
    }
}

proof fn lemma_turned_both(s: JobState, a: nat, b: nat, c: nat, rd: Reading)
    requires
        a <= b <= c,
    ensures
        turned_rows(s, a, c, rd) == turned_rows(s, a, b, rd) + turned_rows(s, b, c, rd),
        batch_errors(s, a, c, rd) == batch_errors(s, a, b, rd) + batch_errors(s, b, c, rd),
    decreases c,
{
    if b < c {
        lemma_turned_both(s, a, b, (c - 1) as nat, rd);
    }
    assert(turned_rows(s, a, c, rd) =~= turned_rows(s, a, b, rd) + turned_rows(s, b, c, rd));
    assert(batch_errors(s, a, c, rd) =~= batch_errors(s, a, b, rd) + batch_errors(s, b, c, rd));
}

proof fn lemma_turned_first(s: JobState, a: nat, b: nat, rd: Reading)
    requires
        a < b <= usize::MAX,
    ensures
        turned_rows(s, a, b, rd) == turned_batch(s, a as usize, rd).0 + turned_rows(
            s,
            a + 1,
            b,
            rd,
        ),
        batch_errors(s, a, b, rd) == turned_batch(s, a as usize, rd).1 + batch_errors(
            s,
            a + 1,
            b,
            rd,
        ),
{
    lemma_turned_both(s, a, a + 1, b, rd);
    assert(turned_rows(s, a, a, rd) =~= seq![]);
    assert(turned_rows(s, a, a + 1, rd) =~= turned_batch(s, a as usize, rd).0);
    assert(batch_errors(s, a, a, rd) =~= seq![]);
    assert(batch_errors(s, a, a + 1, rd) =~= turned_batch(s, a as usize, rd).1);
}

/// The two are states of one job on the same rows.
spec fn same_job(s: JobState, t: JobState) -> bool {
    s.rules == t.rules && s.size == t.size && s.rows == t.rows && s.first == t.first && s.mode
        == t.mode && s.policy == t.policy
}

proof fn lemma_same_turned(s: JobState, t: JobState, a: nat, b: nat, rd: Reading)
    requires
        same_job(s, t),
    ensures
        turned_rows(s, a, b, rd) == turned_rows(t, a, b, rd),
        batch_errors(s, a, b, rd) == batch_errors(t, a, b, rd),
    decreases b,
{
    if a < b {
        lemma_same_turned(s, t, a, (b - 1) as nat, rd);
    }
}

/// A job that goes on batch by batch, skipping rows that fail, and asks for
/// what its stage needs.
spec fn on_track(o: JobOut, rd: Reading) -> bool {
    let s = o.state;
    let n = batch_count(s.rows.len(), s.size as nat);
    &&& s.mode is BatchCommit
    &&& s.policy is SkipAndReport
    &&& s.size > 0
    &&& n <= usize::MAX
    &&& s.errors.len() <= ERROR_DETAIL_CAP
    &&& match s.stage {
        JobStageView::BatchCheck(i) => i < n && o.action is AskCancelled,
        JobStageView::BatchWrite(i) => i < n && o.action == JobActionView::Write(
            turned_batch(s, i, rd).0,
        ),
        JobStageView::BatchRecord(i) => i < n && (o.action matches JobActionView::Record {
            batches,
            ..
        } && batches == i + 1),
        JobStageView::Done => o.action is Finish,
        _ => false,
    }
}

/// The first batch of which nothing is written yet.
spec fn next_unwritten(s: JobState) -> nat {
    match s.stage {
        JobStageView::BatchCheck(i) => i as nat,
        JobStageView::BatchWrite(i) => i as nat,
        JobStageView::BatchRecord(i) => (i + 1) as nat,
        _ => 0,
    }
}

/// The first batch that is not turned yet.
spec fn next_unturned(s: JobState) -> nat {
    match s.stage {
        JobStageView::BatchCheck(i) => i as nat,
        JobStageView::BatchWrite(i) => (i + 1) as nat,
        JobStageView::BatchRecord(i) => (i + 1) as nat,
        _ => 0,
    }
}

proof fn lemma_statuses()
    ensures
        "cancelled"@ != "completed"@,
        "failed"@ != "completed"@,
{
    reveal_strlit("cancelled");
    reveal_strlit("failed");
    reveal_strlit("completed");
    assert("cancelled"@[1] != "completed"@[1]);
    assert("failed"@.len() != "completed"@.len());
}

proof fn lemma_told(o: JobOut, a: Answer, rd: Reading)
    requires
        on_track(o, rd),
        answers(a, o.action),
    ensures
        on_track(told(o.state, a, rd), rd),
        same_job(told(o.state, a, rd).state, o.state),
{
}

proof fn lemma_capped(a: Seq<RowErrorView>, b: Seq<RowErrorView>, c: Seq<RowErrorView>)
    ensures
        capped(capped(a + b) + c) == capped(a + (b + c)),
{
    assert((a + b) + c =~= a + (b + c));
    assert(capped(capped(a + b) + c) =~= capped((a + b) + c));
}

/// What a run writes are the turned rows of the batches behind its start, up to
/// those on record; where a record is still owed, the batch it is for with them.
proof fn lemma_rows_written(o: JobOut, v: Seq<Answer>, rd: Reading, before: nat)
    requires
        on_track(o, rd),
        is_run(o, v, rd),
        !(o.state.stage is Done),
        o.state.stage matches JobStageView::BatchRecord(i) ==> before <= i + 1,
        !(o.state.stage is BatchRecord) ==> before == next_unwritten(o.state),
        !(end_of(o, v, rd).action is Record),
    ensures
        next_unwritten(o.state) <= batches_recorded(o, v, rd, before) <= batch_count(
            o.state.rows.len(),
            o.state.size as nat,
        ),
        rows_written(o, v, rd) == turned_rows(
            o.state,
            next_unwritten(o.state),
            batches_recorded(o, v, rd, before),
            rd,
        ),
    decreases v.len(),
{
    let s = o.state;
    let p = next_unwritten(s);
    if v.len() > 0 {
        let next = told(s, v[0], rd);
        let rest = v.skip(1);
        lemma_told(o, v[0], rd);
        let now = match (o.action, v[0]) {
            (JobActionView::Record { batches, .. }, Answer::Recorded { .. }) => batches as nat,
            _ => before,
        };
        let end = batches_recorded(next, rest, rd, now);
        assert(is_run(next, rest, rd));
        if next.state.stage is Done {
            assert(rest.len() == 0);
            assert(rows_written(next, rest, rd) =~= seq![]);
        } else {
            lemma_rows_written(next, rest, rd, now);
            lemma_same_turned(s, next.state, next_unwritten(next.state), end, rd);
        }
        match s.stage {
            JobStageView::BatchWrite(i) => {
                if !(next.state.stage is Done) {
                    lemma_turned_first(s, i as nat, end, rd);
                }
            },
            JobStageView::BatchCheck(i) => {
                if next.state.stage is BatchRecord {
                    lemma_turned_first(s, i as nat, end, rd);
                    assert(turned_batch(s, i, rd).0 =~= seq![]);
                    assert(turned_rows(s, i as nat, end, rd) =~= turned_rows(
                        s,
                        (i + 1) as nat,
                        end,
                        rd,
                    ));
                }
            },
            _ => {},
        }
    }
}

/// A complete run has every batch on record and the errors of all of them.
proof fn lemma_complete(o: JobOut, v: Seq<Answer>, rd: Reading, before: nat)
    requires
        on_track(o, rd),
        is_run(o, v, rd),
        !(o.state.stage is Done),
        is_complete(end_of(o, v, rd)),
    ensures
        batches_recorded(o, v, rd, before) == batch_count(o.state.rows.len(), o.state.size as nat),
        next_unturned(o.state) <= batch_count(o.state.rows.len(), o.state.size as nat),
        end_of(o, v, rd).state.errors == capped(
            o.state.errors + batch_errors(
                o.state,
                next_unturned(o.state),
                batch_count(o.state.rows.len(), o.state.size as nat),
                rd,
            ),
        ),
    decreases v.len(),
{
    let s = o.state;
    let n = batch_count(s.rows.len(), s.size as nat);
    lemma_statuses();
    assert(v.len() > 0);
    let next = told(s, v[0], rd);
    let rest = v.skip(1);
    lemma_told(o, v[0], rd);
    let now = match (o.action, v[0]) {
        (JobActionView::Record { batches, .. }, Answer::Recorded { .. }) => batches as nat,
        _ => before,
    };
    assert(is_run(next, rest, rd));
    assert(end_of(next, rest, rd) == end_of(o, v, rd));
    if next.state.stage is Done {
        assert(rest.len() == 0);
        assert(batches_recorded(next, rest, rd, now) == now);
        assert(batch_errors(s, n, n, rd) =~= seq![]);
        assert(s.errors + Seq::<RowErrorView>::empty() =~= s.errors);
    } else {
        lemma_complete(next, rest, rd, now);
        lemma_same_turned(s, next.state, next_unturned(next.state), n, rd);
        if let JobStageView::BatchCheck(i) = s.stage {
            lemma_turned_first(s, i as nat, n, rd);
            lemma_capped(
                s.errors,
                turned_batch(s, i, rd).1,
                batch_errors(s, (i + 1) as nat, n, rd),
            );
        }
    }
}

/// A job that is taken up again writes what the interrupted run left: what the
/// two write together, one after the other, is what one whole run writes, so no
/// row is lost and none is written twice. The rows of the batches on record are
/// not written again, and an error of a row is the same in both runs, its
/// number in the source with it.
///
/// `stopped` is a run that ended in any way, or was cut off, once what it had
/// written was on record; `resumed` starts behind those batches.
pub proof fn law_resuming_completes_the_run(
    s: JobState,
    rows: Seq<Seq<CellView>>,
    first: usize,
    stopped: Seq<Answer>,
    resumed: Seq<Answer>,
    whole: Seq<Answer>,
    k: usize,
    elapsed_ms: u64,
    rd: Reading,
)
    requires
        s.mode is BatchCommit,
        s.policy is SkipAndReport,
        s.size > 0,
        s.errors.len() == 0,
        rows.len() <= usize::MAX,
        ({
            let o = on_source(JobState { skip: 0, ..s }, rows, first, rd, elapsed_ms);
            let t = on_source(JobState { skip: k, ..s }, rows, first, rd, elapsed_ms);
            &&& is_run(o, stopped, rd)
            &&& batches_recorded(o, stopped, rd, 0) == k
            &&& !(end_of(o, stopped, rd).action is Record)
            &&& is_run(o, whole, rd)
            &&& is_complete(end_of(o, whole, rd))
            &&& is_run(t, resumed, rd)
            &&& is_complete(end_of(t, resumed, rd))
        }),
    ensures
        ({
            let o = on_source(JobState { skip: 0, ..s }, rows, first, rd, elapsed_ms);
            let t = on_source(JobState { skip: k, ..s }, rows, first, rd, elapsed_ms);
            let n = batch_count(rows.len(), s.size as nat);
            &&& rows_written(o, stopped, rd) + rows_written(t, resumed, rd) == rows_written(
                o,
                whole,
                rd,
            )
            &&& rows_written(t, resumed, rd) == turned_rows(t.state, k as nat, n, rd)
            &&& end_of(t, resumed, rd).state.errors == capped(batch_errors(t.state, k as nat, n, rd))
            &&& end_of(o, whole, rd).state.errors == capped(
                batch_errors(t.state, 0, k as nat, rd) + batch_errors(t.state, k as nat, n, rd),
            )
        }),
{
    let o = on_source(JobState { skip: 0, ..s }, rows, first, rd, elapsed_ms);
    let t = on_source(JobState { skip: k, ..s }, rows, first, rd, elapsed_ms);
    let n = batch_count(rows.len(), s.size as nat);
    lemma_batch_count(rows.len(), s.size as nat);
    lemma_from_source(JobState { skip: 0, ..s }, rows, first, stopped, elapsed_ms, rd);
    lemma_from_source(JobState { skip: 0, ..s }, rows, first, whole, elapsed_ms, rd);
    lemma_from_source(JobState { skip: k, ..s }, rows, first, resumed, elapsed_ms, rd);
    lemma_same_turned(o.state, t.state, 0, k as nat, rd);
    lemma_same_turned(o.state, t.state, 0, n, rd);
    lemma_turned_both(t.state, 0, k as nat, n, rd);
}

proof fn lemma_batch_count(len: nat, size: nat)
    requires
        size > 0,
    ensures
        batch_count(len, size) <= len,
{
    let n = batch_count(len, size);
    if n > 0 {
        let i = (n - 1) as nat;
        law_batches_are_full(len, size, i);
        assert(i < len) by (nonlinear_arith)
            requires
                i * size < len,
                size >= 1,
        ;
    }
}

/// What a run writes and reports that starts behind `s.skip` batches.
proof fn lemma_from_source(
    s: JobState,
    rows: Seq<Seq<CellView>>,
    first: usize,
    v: Seq<Answer>,
    elapsed_ms: u64,
    rd: Reading,
)
    requires
        s.mode is BatchCommit,
        s.policy is SkipAndReport,
        s.size > 0,
        s.errors.len() == 0,
        rows.len() <= usize::MAX,
        s.skip <= batch_count(rows.len(), s.size as nat),
        is_run(on_source(s, rows, first, rd, elapsed_ms), v, rd),
        !(end_of(on_source(s, rows, first, rd, elapsed_ms), v, rd).action is Record),
    ensures
        ({
            let o = on_source(s, rows, first, rd, elapsed_ms);
            let n = batch_count(rows.len(), s.size as nat);
            let end = batches_recorded(o, v, rd, s.skip as nat);
            &&& s.skip <= end <= n
            &&& rows_written(o, v, rd) == turned_rows(o.state, s.skip as nat, end, rd)
            &&& is_complete(end_of(o, v, rd)) ==> end == n && end_of(o, v, rd).state.errors
                == capped(batch_errors(o.state, s.skip as nat, n, rd))
        }),
{
    let o = on_source(s, rows, first, rd, elapsed_ms);
    let n = batch_count(rows.len(), s.size as nat);
    lemma_batch_count(rows.len(), s.size as nat);
    if s.skip < n {
        lemma_rows_written(o, v, rd, s.skip as nat);
        if is_complete(end_of(o, v, rd)) {
            lemma_complete(o, v, rd, s.skip as nat);
            let e = batch_errors(o.state, s.skip as nat, n, rd);
            assert(o.state.errors + e =~= e);
        }
    } else {
        assert(v.len() == 0);
        assert(rows_written(o, v, rd) =~= turned_rows(o.state, s.skip as nat, n, rd));
        assert(capped(batch_errors(o.state, s.skip as nat, n, rd)) =~= s.errors);
    }
}

} // verus!
