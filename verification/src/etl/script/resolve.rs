//! Where the rows of a script come from and where they go: what the header
//! says, or else what is chosen in the workspace.
use crate::db::dialect::{dialect_for, dialect_of, quote_table, quoted_table, written};
use crate::etl::script::clauses::{
    ConnectionSourceView, HeaderView, ScriptHeader, SourceDecl, SourceDeclView,
};
use crate::models::connection::{
    by_id, by_name, conns_view, get_connection, get_connection_by_name, ConnView,
    ConnectionConfig, DbKind,
};
use crate::models::errors::{EluEtlError, ErrorView};
use crate::text;
use vstd::prelude::*;

verus! {

/// What the workspace hands over with a script. Source and target are optional:
/// the header of the script goes first.
#[derive(Debug, Clone)]
pub struct ScriptJobParams {
    pub job_id: u128,
    pub conn_id: Option<u128>,
    pub source_path: Option<String>,
    pub sheet: Option<String>,
    pub has_header: Option<bool>,
    pub encoding: Option<String>,
    pub source_conn_id: Option<u128>,
    pub source_query: Option<String>,
    pub batch_size: usize,
    pub script: String,
}

#[verifier::ext_equal]
pub struct ParamsView {
    pub conn_id: Option<u128>,
    pub source_path: Option<Seq<char>>,
    pub sheet: Option<Seq<char>>,
    pub has_header: Option<bool>,
    pub encoding: Option<Seq<char>>,
    pub source_conn_id: Option<u128>,
    pub source_query: Option<Seq<char>>,
}

impl View for ScriptJobParams {
    type V = ParamsView;

    open spec fn view(&self) -> ParamsView {
        ParamsView {
            conn_id: self.conn_id,
            source_path: text::opt_view(self.source_path),
            sheet: text::opt_view(self.sheet),
            has_header: self.has_header,
            encoding: text::opt_view(self.encoding),
            source_conn_id: self.source_conn_id,
            source_query: text::opt_view(self.source_query),
        }
    }
}

/// Where the rows of a script come from.
#[derive(Debug, Clone)]
pub enum ScriptSource {
    /// Without a sheet the first one is read.
    File { path: String, sheet: Option<String>, has_header: bool, encoding: Option<String> },
    /// A query on a stored connection.
    Database { conn_id: u128, query: String },
}

#[verifier::ext_equal]
pub enum ScriptSourceView {
    File {
        path: Seq<char>,
        sheet: Option<Seq<char>>,
        has_header: bool,
        encoding: Option<Seq<char>>,
    },
    Database { conn_id: u128, query: Seq<char> },
}

impl View for ScriptSource {
    type V = ScriptSourceView;

    open spec fn view(&self) -> ScriptSourceView {
        match *self {
            ScriptSource::File { path, sheet, has_header, encoding } => ScriptSourceView::File {
                path: path@,
                sheet: text::opt_view(sheet),
                has_header,
                encoding: text::opt_view(encoding),
            },
            ScriptSource::Database { conn_id, query } => ScriptSourceView::Database {
                conn_id,
                query: query@,
            },
        }
    }
}

impl ScriptSource {
    /// What names the source in the audit log: the path, or the query.
    pub fn label(&self) -> (r: &str)
        ensures
            r@ == (match self@ {
                ScriptSourceView::File { path, .. } => path,
                ScriptSourceView::Database { query, .. } => query,
            }),
    {
        match self {
            ScriptSource::File { path, .. } => path.as_str(),
            ScriptSource::Database { query, .. } => query.as_str(),
        }
    }
}

/// A job that is ready to run.
#[derive(Debug, Clone)]
pub struct ResolvedScriptJob {
    pub job_id: u128,
    pub source: ScriptSource,
    /// At least one.
    pub batch_size: usize,
}

/// The connection that a script writes to: the one that its header names, or
/// else the one of the workspace; a file cannot be written to.
pub open spec fn target_for(
    header: HeaderView,
    params: ParamsView,
    conns: Seq<ConnView>,
) -> Result<ConnView, ErrorView> {
    let found = match header.target_connection {
        Some(name) => by_name(conns, name),
        None => match params.conn_id {
            Some(id) => by_id(conns, id),
            None => Err(
                ErrorView::Config(
                    "未指定目標：請在腳本加入 TARGET = CONNECTION('連線名稱')，或於上方工具列選擇目標連線"@,
                ),
            ),
        },
    };
    match found {
        Err(e) => Err(e),
        Ok(c) => if c.kind is File {
            Err(
                ErrorView::Config("「"@ + c.name + "」是檔案連線，不能作為目標"@),
            )
        } else {
            Ok(c)
        },
    }
}

/// All rows of a table.
pub open spec fn table_query(kind: DbKind, table: Seq<char>) -> Result<Seq<char>, ErrorView> {
    match dialect_of(kind) {
        None => Err(ErrorView::Config("檔案連線沒有 SQL 方言"@)),
        Some(d) => match quoted_table(d, table) {
            Err(e) => Err(e),
            Ok(t) => Ok("SELECT * FROM "@ + t),
        },
    }
}

/// The query that selects all rows of a table.
pub fn query_table(kind: DbKind, table: &str) -> (r: Result<String, EluEtlError>)
    ensures
        written(r, table_query(kind, table@)),
{
    let d = dialect_for(kind)?;
    let t: String = quote_table(d, table)?;
    Ok(text::cat("SELECT * FROM ", t.as_str()))
}

pub open spec fn or_true(x: Option<bool>) -> bool {
    match x {
        Some(b) => b,
        None => true,
    }
}

/// The rows of a stored connection: a file as it is, or a table or a query of a database.
pub open spec fn connection_source(c: ConnectionSourceView, conns: Seq<ConnView>) -> Result<
    ScriptSourceView,
    ErrorView,
> {
    match by_name(conns, c.name) {
        Err(e) => Err(e),
        Ok(conn) => if conn.kind is File {
            if c.table is Some || c.query is Some {
                Err(
                    ErrorView::Config(
                        "「"@ + conn.name + "」是檔案連線，不支援 TABLE / QUERY 參數"@,
                    ),
                )
            } else {
                Ok(
                    ScriptSourceView::File {
                        path: conn.database,
                        sheet: conn.sheet,
                        has_header: or_true(conn.has_header),
                        encoding: conn.encoding,
                    },
                )
            }
        } else {
            match (c.table, c.query) {
                (Some(t), None) => match table_query(conn.kind, t) {
                    Err(e) => Err(e),
                    Ok(query) => Ok(ScriptSourceView::Database { conn_id: conn.id, query }),
                },
                (None, Some(query)) => Ok(ScriptSourceView::Database { conn_id: conn.id, query }),
                _ => Err(
                    ErrorView::Config(
                        "資料庫來源「"@ + conn.name
                            + "」需指定 TABLE='schema.table' 或 QUERY='SELECT ...'（擇一）"@,
                    ),
                ),
            }
        },
    }
}

/// The rows that are loaded in the workspace: a query goes before a file.
pub open spec fn workspace_source(p: ParamsView) -> Result<ScriptSourceView, ErrorView> {
    match p.source_conn_id {
        Some(conn_id) => match p.source_query {
            Some(query) => Ok(ScriptSourceView::Database { conn_id, query }),
            None => Err(
                ErrorView::Config(
                    "資料庫來源缺少查詢：請先於「匯入資料」選擇資料表或執行 SQL 預覽"@,
                ),
            ),
        },
        None => match p.source_path {
            Some(path) => Ok(
                ScriptSourceView::File {
                    path,
                    sheet: p.sheet,
                    has_header: or_true(p.has_header),
                    encoding: p.encoding,
                },
            ),
            None => Err(
                ErrorView::Config(
                    "未指定來源：請在腳本加入 SOURCE = FILE(PATH='...') 或 SOURCE = CONNECTION('連線名稱')，或先於「匯入資料」載入來源"@,
                ),
            ),
        },
    }
}

/// Where the rows of a script come from: what its header says, or else what is
/// loaded in the workspace.
pub open spec fn source_for(header: HeaderView, params: ParamsView, conns: Seq<ConnView>) -> Result<
    ScriptSourceView,
    ErrorView,
> {
    match header.source {
        Some(SourceDeclView::File(f)) => Ok(
            ScriptSourceView::File {
                path: f.path,
                sheet: f.sheet,
                has_header: or_true(f.has_header),
                encoding: f.encoding,
            },
        ),
        Some(SourceDeclView::Connection(c)) => connection_source(c, conns),
        None => workspace_source(params),
    }
}

fn copy_opt(x: &Option<String>) -> (r: Option<String>)
    ensures
        text::opt_view(r) == text::opt_view(*x),
{
    match x {
        Some(s) => Some(s.as_str().to_string()),
        None => None,
    }
}

fn flag_or_true(x: Option<bool>) -> (r: bool)
    ensures
        r == or_true(x),
{
    match x {
        Some(b) => b,
        None => true,
    }
}

/// The connection that a script writes to.
pub fn resolve_target<'a>(
    header: &ScriptHeader,
    params: &ScriptJobParams,
    conns: &'a Vec<ConnectionConfig>,
) -> (r: Result<&'a ConnectionConfig, EluEtlError>)
    ensures
        crate::models::connection::conn_found(r, target_for(header@, params@, conns_view(conns@))),
{
    let c: &'a ConnectionConfig = match &header.target_connection {
        Some(name) => get_connection_by_name(conns, name.as_str())?,
        None => match params.conn_id {
            Some(id) => get_connection(conns, id)?,
            None => {
                return Err(
                    EluEtlError::Config(
                        "未指定目標：請在腳本加入 TARGET = CONNECTION('連線名稱')，或於上方工具列選擇目標連線".to_string(),
                    ),
                );
            },
        },
    };
    if c.kind == DbKind::File {
        return Err(
            EluEtlError::Config(
                text::cat3("「", c.name.as_str(), "」是檔案連線，不能作為目標"),
            ),
        );
    }
    Ok(c)
}

pub open spec fn source_found(
    r: Result<ScriptSource, EluEtlError>,
    s: Result<ScriptSourceView, ErrorView>,
) -> bool {
    match r {
        Ok(x) => s == Ok::<ScriptSourceView, ErrorView>(x@),
        Err(e) => s == Err::<ScriptSourceView, ErrorView>(e@),
    }
}

fn resolve_connection(
    c: &crate::etl::script::clauses::ConnectionSource,
    conns: &Vec<ConnectionConfig>,
) -> (r: Result<ScriptSource, EluEtlError>)
    ensures
        source_found(r, connection_source(c@, conns_view(conns@))),
{
    let conn: &ConnectionConfig = get_connection_by_name(conns, c.name.as_str())?;
    if conn.kind == DbKind::File {
        if c.table.is_some() || c.query.is_some() {
            return Err(
                EluEtlError::Config(
                    text::cat3(
                        "「",
                        conn.name.as_str(),
                        "」是檔案連線，不支援 TABLE / QUERY 參數",
                    ),
                ),
            );
        }
        return Ok(
            ScriptSource::File {
                path: conn.database.as_str().to_string(),
                sheet: copy_opt(&conn.sheet),
                has_header: flag_or_true(conn.has_header),
                encoding: copy_opt(&conn.encoding),
            },
        );
    }
    match (&c.table, &c.query) {
        (Some(t), None) => {
            let query: String = query_table(conn.kind, t.as_str())?;
            Ok(ScriptSource::Database { conn_id: conn.id, query })
        },
        (None, Some(q)) => Ok(
            ScriptSource::Database { conn_id: conn.id, query: q.as_str().to_string() },
        ),
        _ => Err(
            EluEtlError::Config(
                text::cat3(
                    "資料庫來源「",
                    conn.name.as_str(),
                    "」需指定 TABLE='schema.table' 或 QUERY='SELECT ...'（擇一）",
                ),
            ),
        ),
    }
}

fn resolve_workspace(p: &ScriptJobParams) -> (r: Result<ScriptSource, EluEtlError>)
    ensures
        source_found(r, workspace_source(p@)),
{
    match p.source_conn_id {
        Some(conn_id) => match &p.source_query {
            Some(q) => Ok(ScriptSource::Database { conn_id, query: q.as_str().to_string() }),
            None => Err(
                EluEtlError::Config(
                    "資料庫來源缺少查詢：請先於「匯入資料」選擇資料表或執行 SQL 預覽".to_string(),
                ),
            ),
        },
        None => match &p.source_path {
            Some(path) => Ok(
                ScriptSource::File {
                    path: path.as_str().to_string(),
                    sheet: copy_opt(&p.sheet),
                    has_header: flag_or_true(p.has_header),
                    encoding: copy_opt(&p.encoding),
                },
            ),
            None => Err(
                EluEtlError::Config(
                    "未指定來源：請在腳本加入 SOURCE = FILE(PATH='...') 或 SOURCE = CONNECTION('連線名稱')，或先於「匯入資料」載入來源".to_string(),
                ),
            ),
        },
    }
}

/// Where the rows of a script come from.
pub fn resolve_source(
    header: &ScriptHeader,
    params: &ScriptJobParams,
    conns: &Vec<ConnectionConfig>,
) -> (r: Result<ScriptSource, EluEtlError>)
    ensures
        source_found(r, source_for(header@, params@, conns_view(conns@))),
{
    match &header.source {
        Some(SourceDecl::File(f)) => Ok(
            ScriptSource::File {
                path: f.path.as_str().to_string(),
                sheet: copy_opt(&f.sheet),
                has_header: flag_or_true(f.has_header),
                encoding: copy_opt(&f.encoding),
            },
        ),
        Some(SourceDecl::Connection(c)) => resolve_connection(c, conns),
        None => resolve_workspace(params),
    }
}

/// The connection that a script writes to, and its job. A mistake about the
/// target is reported before one about the source.
pub fn resolve_script_job<'a>(
    params: &ScriptJobParams,
    header: &ScriptHeader,
    conns: &'a Vec<ConnectionConfig>,
) -> (r: Result<(&'a ConnectionConfig, ResolvedScriptJob), EluEtlError>)
    ensures
        ({
            let target = target_for(header@, params@, conns_view(conns@));
            let source = source_for(header@, params@, conns_view(conns@));
            match r {
                Ok((c, job)) => {
                    &&& target == Ok::<ConnView, ErrorView>(c@)
                    &&& source == Ok::<ScriptSourceView, ErrorView>(job.source@)
                    &&& job.job_id == params.job_id
                    &&& job.batch_size == if params.batch_size == 0 {
                        1
                    } else {
                        params.batch_size
                    }
                },
                Err(e) => target == Err::<ConnView, ErrorView>(e@) || (target is Ok && source
                    == Err::<ScriptSourceView, ErrorView>(e@)),
            }
        }),
{
    let target: &'a ConnectionConfig = resolve_target(header, params, conns)?;
    let source: ScriptSource = resolve_source(header, params, conns)?;
    Ok(
        (
            target,
            ResolvedScriptJob {
                job_id: params.job_id,
                source,
                batch_size: if params.batch_size == 0 {
                    1
                } else {
                    params.batch_size
                },
            },
        ),
    )
}

/// What the header says goes before the workspace: with a header, nothing that
/// is chosen in the workspace changes where rows come from or go.
pub proof fn law_header_goes_before_workspace(
    header: HeaderView,
    p: ParamsView,
    q: ParamsView,
    conns: Seq<ConnView>,
)
    ensures
        header.target_connection is Some ==> target_for(header, p, conns) == target_for(
            header,
            q,
            conns,
        ),
        header.source is Some ==> source_for(header, p, conns) == source_for(header, q, conns),
{
}

/// A file is never a target.
pub proof fn law_files_are_no_targets(header: HeaderView, p: ParamsView, conns: Seq<ConnView>)
    ensures
        target_for(header, p, conns) matches Ok(c) ==> !(c.kind is File),
{
}

/// The query of a preview: of a table or as it is written, one of the two.
pub open spec fn preview_sql(kind: DbKind, table: Option<Seq<char>>, query: Option<Seq<char>>) -> Result<
    Seq<char>,
    ErrorView,
> {
    match (table, query) {
        (Some(t), None) => table_query(kind, t),
        (None, Some(q)) => Ok(q),
        _ => Err(ErrorView::Config("請指定資料表或 SQL 查詢（擇一）"@)),
    }
}

/// The query of a preview.
pub fn preview_query_for(kind: DbKind, table: Option<String>, query: Option<String>) -> (r: Result<
    String,
    EluEtlError,
>)
    ensures
        written(r, preview_sql(kind, text::opt_view(table), text::opt_view(query))),
{
    match (table, query) {
        (Some(t), None) => query_table(kind, t.as_str()),
        (None, Some(q)) => Ok(q),
        _ => Err(EluEtlError::Config("請指定資料表或 SQL 查詢（擇一）".to_string())),
    }
}

/// A script with a target goes to the connection of that name, one without to the
/// connection that is chosen in the workspace; an error comes where there is neither,
/// or where it is not stored.
pub proof fn law_targets_are_stored_connections(
    header: HeaderView,
    p: ParamsView,
    conns: Seq<ConnView>,
)
    ensures
        header.target_connection matches Some(name) ==> (target_for(header, p, conns) matches Ok(c)
            ==> by_name(conns, name) == Ok::<ConnView, ErrorView>(c)),
        header.target_connection is None ==> (target_for(header, p, conns) matches Ok(c)
            ==> p.conn_id is Some && by_id(conns, p.conn_id->0) == Ok::<ConnView, ErrorView>(c)),
        header.target_connection is None && p.conn_id is None ==> target_for(header, p, conns)
            is Err,
        header.target_connection matches Some(name) && by_name(conns, name) is Err ==> target_for(
            header,
            p,
            conns,
        ) is Err,
{
}

/// A stored file is read as it is stored, by default with a header; a database is asked
/// either for a whole table or by a query, and exactly one of the two must be there.
pub proof fn law_sources_are_read_as_stored(
    c: ConnectionSourceView,
    conns: Seq<ConnView>,
    x: ConnView,
)
    requires
        by_name(conns, c.name) == Ok::<ConnView, ErrorView>(x),
    ensures
        x.kind is File ==> (connection_source(c, conns) is Ok <==> c.table is None && c.query
            is None),
        x.kind is File && c.table is None && c.query is None ==> connection_source(c, conns) == Ok::<
            ScriptSourceView,
            ErrorView,
        >(
            ScriptSourceView::File {
                path: x.database,
                sheet: x.sheet,
                has_header: x.has_header != Some(false),
                encoding: x.encoding,
            },
        ),
        !(x.kind is File) && (c.table is Some) == (c.query is Some) ==> connection_source(c, conns)
            is Err,
        !(x.kind is File) && c.table is None && c.query is Some ==> connection_source(c, conns)
            == Ok::<ScriptSourceView, ErrorView>(
            ScriptSourceView::Database { conn_id: x.id, query: c.query->0 },
        ),
        !(x.kind is File) && c.table is Some && c.query is None ==> (match table_query(
            x.kind,
            c.table->0,
        ) {
            Ok(query) => connection_source(c, conns) == Ok::<ScriptSourceView, ErrorView>(
                ScriptSourceView::Database { conn_id: x.id, query },
            ),
            Err(_) => connection_source(c, conns) is Err,
        }),
{
}

/// A whole table is asked for by all its columns, its name in the quotes of the database.
pub proof fn law_tables_are_asked_whole(kind: DbKind, table: Seq<char>)
    ensures
        match dialect_of(kind) {
            Some(d) => match quoted_table(d, table) {
                Ok(t) => table_query(kind, table) == Ok::<Seq<char>, ErrorView>(
                    "SELECT * FROM "@ + t,
                ),
                Err(e) => table_query(kind, table) == Err::<Seq<char>, ErrorView>(e),
            },
            None => kind is File && table_query(kind, table) is Err,
        },
        preview_sql(kind, Some(table), None) == table_query(kind, table),
        preview_sql(kind, None, Some(table)) == Ok::<Seq<char>, ErrorView>(table),
        preview_sql(kind, None, None) is Err,
        preview_sql(kind, Some(table), Some(table)) is Err,
{
}

/// In the workspace a chosen database goes before a chosen file, and needs a query; a
/// file has a header unless it is said to have none.
pub proof fn law_workspace_sources(p: ParamsView)
    ensures
        p.source_conn_id matches Some(id) ==> (match p.source_query {
            Some(q) => workspace_source(p) == Ok::<ScriptSourceView, ErrorView>(
                ScriptSourceView::Database { conn_id: id, query: q },
            ),
            None => workspace_source(p) is Err,
        }),
        p.source_conn_id is None && p.source_path is None ==> workspace_source(p) is Err,
        p.source_conn_id is None ==> (p.source_path matches Some(path) ==> workspace_source(p)
            == Ok::<ScriptSourceView, ErrorView>(
            ScriptSourceView::File {
                path,
                sheet: p.sheet,
                has_header: p.has_header != Some(false),
                encoding: p.encoding,
            },
        )),
{
}

} // verus!
