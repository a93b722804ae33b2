use elu_etl::double::Real;
use elu_etl::etl::batches::{copy_batch, count_batches};
use elu_etl::etl::executor::{EtlSummary, JobAction, JobRun, JobStep};
use elu_etl::etl::mapping::{ErrorPolicy, MappingRule, NullPolicy, SourceSpec, WriteMode};
use elu_etl::etl::resume::{check_resume, check_source_unchanged};
use elu_etl::etl::transform::transform_rows;
use elu_etl::models::value::{CellValue, DataType};

fn read(s: String) -> Option<Real> {
    let v: f64 = s.parse().ok()?;
    Some(Real { bits: v.to_bits(), text: v.to_string(), json: v.to_string() })
}

fn text(s: &str) -> CellValue {
    CellValue::Text(s.to_string())
}

fn rule(idx: usize, ty: DataType, null_policy: NullPolicy) -> MappingRule {
    MappingRule {
        source_index: idx,
        source_name: format!("col{idx}"),
        target_column: format!("t{idx}"),
        target_type: ty,
        null_policy,
    }
}

#[test]
fn transforms_and_collects_errors() {
    let rows = vec![
        vec![text("42"), text("ok")],
        vec![text("abc"), text("x")],
        vec![CellValue::Null, text("y")],
    ];
    let rules = vec![
        rule(0, DataType::Integer, NullPolicy::Error),
        rule(1, DataType::Text, NullPolicy::Allow),
    ];
    let (ok, errs) = transform_rows(&rows, &rules, 2, &read);
    assert_eq!(ok.len(), 1);
    assert_eq!(ok[0][0], CellValue::Int(42));
    assert_eq!(errs.len(), 2);
    assert_eq!(errs[0].row, 3);
    assert_eq!(errs[1].row, 4);
}

/// Carries out a job in memory: what was written, what was recorded, how it ended.
fn carry_out(
    mut run: JobRun,
    rows: Vec<Vec<CellValue>>,
    first: usize,
    limit: f64,
    cancel_at: usize,
    fail_at: usize,
) -> (Vec<Vec<Vec<CellValue>>>, Vec<usize>, EtlSummary) {
    let mut written = vec![];
    let mut recorded = vec![];
    let mut asked = 0;
    let mut step: JobStep = run.source_read(rows, first, &read, 5);
    loop {
        step = match step.action {
            JobAction::AskCancelled => {
                asked += 1;
                run.cancel_known(asked > cancel_at, &read, 5)
            }
            JobAction::AskRate { errors, of } => {
                let rate = errors as f64 / of as f64 * 100.0;
                run.rate_known(rate > limit, &format!("{rate:.1}"), &limit.to_string(), 5)
            }
            JobAction::Write(v) => {
                let n = v.len() as u64;
                written.push(v);
                if written.len() > fail_at {
                    written.pop();
                    run.written(Err("disk".to_string()), 5)
                } else {
                    run.written(Ok(n), 5)
                }
            }
            JobAction::Record { batches, .. } => {
                recorded.push(batches);
                run.recorded(5)
            }
            JobAction::Finish { summary, .. } => return (written, recorded, summary),
        };
    }
}

fn job(mode: WriteMode, policy: ErrorPolicy, size: usize, skip: usize) -> JobRun {
    let rules = vec![rule(0, DataType::Integer, NullPolicy::Error)];
    JobRun::new(7, rules, mode, policy, size, skip).0
}

fn numbers(v: &[&str]) -> Vec<Vec<CellValue>> {
    v.iter().map(|s| vec![text(s)]).collect()
}

#[test]
fn batches_resume_behind_the_recorded_ones() {
    let rows = numbers(&["1", "2", "3", "4", "5"]);
    let run = job(WriteMode::BatchCommit, ErrorPolicy::SkipAndReport, 2, 1);
    let (written, recorded, s) = carry_out(run, rows, 2, 0.0, 9, 9);
    assert_eq!(written, vec![
        vec![vec![CellValue::Int(3)], vec![CellValue::Int(4)]],
        vec![vec![CellValue::Int(5)]],
    ]);
    assert_eq!(recorded, vec![2, 3]);
    assert_eq!(s.success_rows, 3);
    let run = job(WriteMode::BatchCommit, ErrorPolicy::SkipAndReport, 2, 3);
    let (written, _, s) = carry_out(run, numbers(&["1", "2", "3", "4", "5"]), 2, 0.0, 9, 9);
    assert!(written.is_empty());
    assert_eq!(s.status, "completed");
}

#[test]
fn cancelling_and_failing_end_the_job() {
    let rows = numbers(&["1", "2", "3"]);
    let run = job(WriteMode::BatchCommit, ErrorPolicy::SkipAndReport, 1, 0);
    let (written, _, s) = carry_out(run, rows, 2, 0.0, 1, 9);
    assert_eq!((written.len(), s.status.as_str(), s.success_rows), (1, "cancelled", 1));
    let run = job(WriteMode::BatchCommit, ErrorPolicy::SkipAndReport, 1, 0);
    let (_, recorded, s) = carry_out(run, numbers(&["1", "2"]), 2, 0.0, 9, 1);
    assert_eq!((recorded, s.status.as_str()), (vec![1], "failed"));
    assert_eq!(s.failure.as_deref(), Some("disk"));
}

#[test]
fn error_policies() {
    let run = job(WriteMode::BatchCommit, ErrorPolicy::AbortOnFirst, 1, 0);
    let (written, _, s) = carry_out(run, numbers(&["1", "x", "3"]), 2, 0.0, 9, 9);
    assert_eq!((written.len(), s.status.as_str()), (1, "aborted"));
    assert_eq!(s.failure.as_deref(), Some("首錯即停：偵測到轉換錯誤"));
    let rate = ErrorPolicy::AbortOnErrorRate { max_percent_bits: 10f32.to_bits() };
    let run = job(WriteMode::BatchCommit, rate, 2, 0);
    let (_, _, s) = carry_out(run, numbers(&["1", "x"]), 2, 10.0, 9, 9);
    assert_eq!(s.failure.as_deref(), Some("錯誤率 50.0% 超過上限 10%"));
    let rate = ErrorPolicy::AbortOnErrorRate { max_percent_bits: 60f32.to_bits() };
    let run = job(WriteMode::BatchCommit, rate, 2, 0);
    let (written, _, s) = carry_out(run, numbers(&["1", "x"]), 2, 60.0, 9, 9);
    assert_eq!(written, vec![vec![vec![CellValue::Int(1)]]]);
    assert_eq!((s.status.as_str(), s.success_rows, s.error_rows), ("completed", 1, 1));
    let rate = ErrorPolicy::AbortOnErrorRate { max_percent_bits: 10f32.to_bits() };
    let run = job(WriteMode::BatchCommit, rate, 2, 0);
    let (written, _, s) = carry_out(run, numbers(&["1", "2"]), 2, 10.0, 9, 9);
    assert_eq!((written.len(), s.status.as_str()), (1, "completed"));
}

#[test]
fn all_or_nothing() {
    let run = job(WriteMode::AllOrNothing, ErrorPolicy::AbortOnFirst, 1, 0);
    let (written, _, s) = carry_out(run, numbers(&["1", "x"]), 2, 0.0, 9, 9);
    assert!(written.is_empty());
    assert_eq!(
        s.failure.as_deref(),
        Some("轉換錯誤超出政策容許，全有全無模式未寫入任何資料")
    );
    let run = job(WriteMode::AllOrNothing, ErrorPolicy::SkipAndReport, 1, 0);
    let (written, recorded, s) = carry_out(run, numbers(&["1", "x", "2"]), 2, 0.0, 9, 9);
    assert_eq!((written.len(), written[0].len(), recorded), (1, 2, vec![1]));
    assert_eq!((s.success_rows, s.error_rows), (2, 1));
    let rate = ErrorPolicy::AbortOnErrorRate { max_percent_bits: 0 };
    let run = job(WriteMode::AllOrNothing, rate, 1, 0);
    let (written, _, s) = carry_out(run, numbers(&["1", "x"]), 2, 10.0, 9, 9);
    assert_eq!((written.len(), s.status.as_str()), (0, "aborted"));
}

#[test]
fn error_details_are_capped() {
    let rows: Vec<Vec<CellValue>> = (0..1200).map(|_| vec![text("x")]).collect();
    let run = job(WriteMode::BatchCommit, ErrorPolicy::SkipAndReport, 500, 0);
    let (_, _, s) = carry_out(run, rows, 2, 0.0, 9, 9);
    assert_eq!((s.error_rows, s.errors.len()), (1200, 1000));
}

#[test]
fn batches_cover_all_rows() {
    assert_eq!(count_batches(0, 3), 0);
    assert_eq!(count_batches(6, 3), 2);
    assert_eq!(count_batches(7, 3), 3);
    let rows = numbers(&["1", "2", "3"]);
    assert_eq!(copy_batch(&rows, 2, 1), numbers(&["3"]));
}

#[test]
fn resuming_is_refused() {
    let file = SourceSpec::File {
        path: "a.csv".to_string(),
        sheet: "CSV".to_string(),
        has_header: true,
        encoding: None,
    };
    let query = SourceSpec::Database { conn_id: 1, query: "q".to_string() };
    assert!(check_resume("cancelled", &file, WriteMode::BatchCommit).is_ok());
    let e = check_resume("running", &file, WriteMode::BatchCommit).unwrap_err();
    assert_eq!(e.message(), "ETL 錯誤: 任務狀態為 running，無法續跑");
    assert!(check_resume("completed", &file, WriteMode::BatchCommit).is_err());
    assert!(check_resume("failed", &query, WriteMode::BatchCommit).is_err());
    assert!(check_resume("failed", &file, WriteMode::AllOrNothing).is_err());
    assert!(check_source_unchanged("a", "a").is_ok());
    assert!(check_source_unchanged("a", "b").unwrap_err().message().contains("已變更"));
}

#[test]
fn an_interrupted_run_and_its_resumption_write_the_whole() {
    let source = ["1", "2", "x", "4", "5", "y", "7"];
    let report = ErrorPolicy::SkipAndReport;
    let whole = job(WriteMode::BatchCommit, report, 2, 0);
    let (all, _, end) = carry_out(whole, numbers(&source), 2, 0.0, 9, 9);
    let first = job(WriteMode::BatchCommit, report, 2, 0);
    let (mut done, recorded, stopped) = carry_out(first, numbers(&source), 2, 0.0, 2, 9);
    assert_eq!(stopped.status, "cancelled");
    assert_eq!(recorded, vec![1, 2]);
    let second = job(WriteMode::BatchCommit, report, 2, 2);
    let (rest, _, resumed) = carry_out(second, numbers(&source), 2, 0.0, 9, 9);
    done.extend(rest);
    assert_eq!(done, all);
    assert_eq!(stopped.errors[0], end.errors[0]);
    assert_eq!(resumed.errors, end.errors[1..].to_vec());
    assert_eq!(resumed.errors[0].row, 7);
}
