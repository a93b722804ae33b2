//! Whether a job may be taken up again.
use crate::etl::mapping::{SourceSpec, SourceView, WriteMode};
use crate::models::errors::{EluEtlError, ErrorView};
use crate::text;
use vstd::prelude::*;

verus! {

/// Why a job cannot be taken up again, if it cannot: it is running or done, its
/// rows come from a query, whose order is not certain, or it was to be written
/// in one transaction.
pub open spec fn resume_refused(status: Seq<char>, source: SourceView, mode: WriteMode) -> Option<
    ErrorView,
> {
    if status == "running"@ || status == "completed"@ {
        Some(ErrorView::Etl("任務狀態為 "@ + status + "，無法續跑"@))
    } else if source is Database {
        Some(
            ErrorView::Etl(
                "資料庫來源無法保證資料列順序不變，不支援續跑；請重新執行任務"@,
            ),
        )
    } else if mode is AllOrNothing {
        Some(ErrorView::Etl("僅批次提交模式可續跑；請重新執行任務"@))
    } else {
        None
    }
}

/// Whether a job may be taken up again, as far as its record tells.
pub fn check_resume(status: &str, source: &SourceSpec, mode: WriteMode) -> (r: Result<
    (),
    EluEtlError,
>)
    ensures
        match r {
            Ok(_) => resume_refused(status@, source@, mode) is None,
            Err(e) => resume_refused(status@, source@, mode) == Some(e@),
        },
{
    if text::same(status, "running") || text::same(status, "completed") {
        return Err(
            EluEtlError::Etl(text::cat3("任務狀態為 ", status, "，無法續跑")),
        );
    }
    if let SourceSpec::Database { .. } = source {
        return Err(
            EluEtlError::Etl(
                "資料庫來源無法保證資料列順序不變，不支援續跑；請重新執行任務".to_string(),
            ),
        );
    }
    if mode == WriteMode::AllOrNothing {
        return Err(
            EluEtlError::Etl("僅批次提交模式可續跑；請重新執行任務".to_string()),
        );
    }
    Ok(())
}

/// Whether the source is still what it was: its fingerprint is the recorded one.
pub fn check_source_unchanged(current: &str, recorded: &str) -> (r: Result<(), EluEtlError>)
    ensures
        r is Ok <==> current@ == recorded@,
        r matches Err(e) ==> e@ == ErrorView::Etl(
            "來源檔內容已變更，無法安全續跑；請重新執行任務"@,
        ),
{
    if text::same(current, recorded) {
        Ok(())
    } else {
        Err(
            EluEtlError::Etl(
                "來源檔內容已變更，無法安全續跑；請重新執行任務".to_string(),
            ),
        )
    }
}

/// Only a job that ended early, reads a file and commits batch by batch is
/// ever taken up again.
pub proof fn law_only_early_file_jobs_resume(status: Seq<char>, source: SourceView, mode: WriteMode)
    ensures
        resume_refused(status, source, mode) is None <==> (status != "running"@ && status
            != "completed"@ && source is File && mode is BatchCommit),
{
}

} // verus!
