//! Field mappings and the settings of a mapping job.
use crate::models::value::DataType;
use crate::paths::{file_name, known_name};
use crate::text;
use vstd::prelude::*;

verus! {

/// What is done with NULL.
#[derive(Debug, Clone, Copy, PartialEq, Eq, Structural)]
pub enum NullPolicy {
    /// NULL is written.
    Allow,
    /// The row goes to the error report.
    Error,
}

/// One source column, the target column and type that it is written to, and
/// what is done with NULL.
#[derive(Debug, Clone)]
pub struct MappingRule {
    pub source_index: usize,
    pub source_name: String,
    pub target_column: String,
    pub target_type: DataType,
    pub null_policy: NullPolicy,
}

#[verifier::ext_equal]
pub struct RuleView {
    pub source_index: usize,
    pub source_name: Seq<char>,
    pub target_column: Seq<char>,
    pub target_type: DataType,
    pub null_policy: NullPolicy,
}

impl View for MappingRule {
    type V = RuleView;

    open spec fn view(&self) -> RuleView {
        RuleView {
            source_index: self.source_index,
            source_name: self.source_name@,
            target_column: self.target_column@,
            target_type: self.target_type,
            null_policy: self.null_policy,
        }
    }
}

pub open spec fn rules_view(v: Seq<MappingRule>) -> Seq<RuleView> {
    Seq::new(v.len(), |i: int| v[i]@)
}

/// How rows are committed.
#[derive(Debug, Clone, Copy, PartialEq, Eq, Structural)]
pub enum WriteMode {
    /// A transaction for every batch, recorded once it is committed.
    BatchCommit,
    /// One transaction for the whole job.
    AllOrNothing,
}

/// What happens when rows fail.
#[derive(Debug, Clone, Copy, PartialEq, Eq, Structural)]
pub enum ErrorPolicy {
    /// Failed rows go to the report and the job goes on.
    SkipAndReport,
    /// The first failed row ends the job.
    AbortOnFirst,
    /// The job ends when more than so many percent of the rows have failed.
    /// The limit is the bit pattern of a single-precision number.
    AbortOnErrorRate { max_percent_bits: u32 },
}

/// Where rows come from.
#[derive(Debug, Clone)]
pub enum SourceSpec {
    File { path: String, sheet: String, has_header: bool, encoding: Option<String> },
    /// A query on a stored connection.
    Database { conn_id: u128, query: String },
}

#[verifier::ext_equal]
pub enum SourceView {
    File { path: Seq<char>, sheet: Seq<char>, has_header: bool, encoding: Option<Seq<char>> },
    Database { conn_id: u128, query: Seq<char> },
}

impl View for SourceSpec {
    type V = SourceView;

    open spec fn view(&self) -> SourceView {
        match *self {
            SourceSpec::File { path, sheet, has_header, encoding } => SourceView::File {
                path: path@,
                sheet: sheet@,
                has_header,
                encoding: text::opt_view(encoding),
            },
            SourceSpec::Database { conn_id, query } => SourceView::Database {
                conn_id,
                query: query@,
            },
        }
    }
}

/// The name of a source for people, given the last component of its path.
pub open spec fn source_label(s: SourceView, name: Option<Seq<char>>) -> Seq<char> {
    match s {
        SourceView::File { path, .. } => match name {
            Some(n) => n,
            None => path,
        },
        SourceView::Database { query, .. } => "DB 查詢（"@ + text::trim(query) + "）"@,
    }
}

impl SourceSpec {
    /// The name of the source, given the last component of its path.
    pub fn label_with(&self, name: Option<String>) -> (r: String)
        ensures
            r@ == source_label(self@, text::opt_view(name)),
    {
        match self {
            SourceSpec::File { path, .. } => match name {
                Some(n) => n,
                None => path.as_str().to_string(),
            },
            SourceSpec::Database { query, .. } => text::cat3(
                "DB 查詢（",
                text::trimmed(query.as_str()).as_str(),
                "）",
            ),
        }
    }

    /// The name of the source for people: the name of the file, or the query.
    pub fn label(&self) -> (r: String)
        ensures
            exists|name: Option<Seq<char>>| r@ == #[trigger] source_label(self@, name),
            self@ matches SourceView::File { path, .. } ==> (known_name(path) matches Some(n)
                ==> r@ == source_label(self@, n)),
    {
        let name: Option<String> = match self {
            SourceSpec::File { path, .. } => file_name(path.as_str()),
            _ => None,
        };
        assert(source_label(self@, text::opt_view(name)) == source_label(
            self@,
            text::opt_view(name),
        ));
        self.label_with(name)
    }
}

/// A mapping job.
#[derive(Debug, Clone)]
pub struct EtlJobConfig {
    pub job_id: u128,
    pub conn_id: u128,
    pub source: SourceSpec,
    pub target_table: String,
    pub rules: Vec<MappingRule>,
    pub write_mode: WriteMode,
    pub error_policy: ErrorPolicy,
    pub batch_size: usize,
}

/// A source is named by the name of its file, by its path where it has none, or by its
/// query without the white space around it.
pub proof fn law_sources_are_named(
    path: Seq<char>,
    sheet: Seq<char>,
    has_header: bool,
    encoding: Option<Seq<char>>,
    name: Seq<char>,
    conn_id: u128,
    query: Seq<char>,
)
    ensures
        source_label(SourceView::File { path, sheet, has_header, encoding }, Some(name)) == name,
        source_label(SourceView::File { path, sheet, has_header, encoding }, None) == path,
        source_label(SourceView::Database { conn_id, query }, Some(name)) == source_label(
            SourceView::Database { conn_id, query: text::trim(query) },
            None,
        ),
        source_label(SourceView::Database { conn_id, query }, None).subrange(
            "DB 查詢（"@.len() as int,
            "DB 查詢（"@.len() as int + text::trim(query).len(),
        ) == text::trim(query),
{
    text::lemma_trim_ends(query);
    let t = text::trim(query);
    if t.len() > 0 {
        text::lemma_trimmed(t);
    } else {
        assert(text::trim(t) =~= t);
    }
    let n = "DB 查詢（"@.len() as int;
    assert(source_label(SourceView::Database { conn_id, query }, None).subrange(n, n + t.len())
        =~= t);
}

} // verus!
