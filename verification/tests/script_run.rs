use elu_etl::db::dialect::Dialect;
use elu_etl::double::Real;
use elu_etl::etl::executor::EtlSummary;
use elu_etl::etl::script::check::validate_etl_script;
use elu_etl::etl::script::clauses::{ConnRef, Script};
use elu_etl::etl::script::gen::{Entropy, GenContext};
use elu_etl::etl::script::job_parser;
use elu_etl::etl::script::plan::run_blocking_parse;
use elu_etl::etl::script::resolve::{
    preview_query_for, resolve_script_job, ScriptJobParams, ScriptSource,
};
use elu_etl::etl::script::run::{reading_progress, ScriptAction, ScriptRun};
use elu_etl::etl::source_input::SourceData;
use elu_etl::excel::csv_reader;
use elu_etl::models::connection::{ConnectionConfig, DbKind};
use elu_etl::models::errors::EluEtlError;
use elu_etl::models::schema::ColumnInfo;
use elu_etl::models::value::CellValue;

fn read(s: String) -> Option<Real> {
    let v: f64 = s.parse().ok()?;
    Some(Real { bits: v.to_bits(), text: v.to_string(), json: v.to_string() })
}

fn text(s: &str) -> CellValue {
    CellValue::Text(s.to_string())
}

fn parse(s: &str) -> Script {
    job_parser::parse(s, &read).unwrap()
}

fn csv(s: &str) -> SourceData {
    let rows = csv_reader::read_rows(&s.as_bytes().to_vec(), Some("utf-8"), &read).unwrap();
    SourceData::from_file(rows, true)
}

/// A database that knows the columns of its tables and the answers to queries.
struct Memory {
    tables: Vec<(&'static str, Vec<(&'static str, &'static str)>)>,
    answers: Vec<(&'static str, Vec<Vec<CellValue>>)>,
    inserted: Vec<(String, Vec<String>, Vec<Vec<CellValue>>)>,
    executed: Vec<(String, Vec<Vec<CellValue>>)>,
    queries: Vec<(ConnRef, String)>,
    phases: Vec<String>,
    cancel_after: usize,
    fail_writes: bool,
}

impl Memory {
    fn new(
        tables: Vec<(&'static str, Vec<(&'static str, &'static str)>)>,
        answers: Vec<(&'static str, Vec<Vec<CellValue>>)>,
    ) -> Memory {
        Memory {
            tables,
            answers,
            inserted: vec![],
            executed: vec![],
            queries: vec![],
            phases: vec![],
            cancel_after: 1000,
            fail_writes: false,
        }
    }

    fn run(
        &mut self,
        script: Script,
        data: SourceData,
        from_file: bool,
        batch: usize,
    ) -> Result<EtlSummary, EluEtlError> {
        let mut entropy = Entropy::new();
        let (mut run, mut step) = ScriptRun::new(
            7,
            Dialect::Sqlite,
            batch,
            from_file,
            script.works,
            data,
            GenContext::new(),
            1,
        );
        let mut asked = 0;
        loop {
            for e in &step.events {
                self.phases.push(format!("{} {}/{}", e.phase, e.batch, e.total_batches));
            }
            step = match step.action {
                ScriptAction::AskCancelled => {
                    asked += 1;
                    run.cancel_known(asked > self.cancel_after, 1)
                }
                ScriptAction::GetColumns(t) => {
                    let found = self.tables.iter().find(|x| x.0 == t);
                    let cols = found.map(|x| {
                        x.1.iter()
                            .enumerate()
                            .map(|(i, c)| ColumnInfo {
                                name: c.0.to_string(),
                                db_type: c.1.to_string(),
                                nullable: true,
                                ordinal: i as u32,
                            })
                            .collect::<Vec<_>>()
                    });
                    run.columns_known(cols.ok_or("no table".to_string()), &read, &mut entropy, 1)
                }
                ScriptAction::Query { side, sql } => {
                    let found = self.answers.iter().find(|x| sql.ends_with(x.0));
                    let rows = found.map(|x| x.1.clone()).ok_or("no answer".to_string());
                    self.queries.push((side, sql));
                    run.rows_known(rows, &read, &mut entropy, 1)
                }
                ScriptAction::Insert { table, cols, rows, .. } => {
                    if self.fail_writes {
                        run.written(Err("locked".to_string()), 1)
                    } else {
                        let n = rows.len() as u64;
                        self.inserted.push((table, cols, rows));
                        run.written(Ok(n), 1)
                    }
                }
                ScriptAction::Execute { sql, rows, .. } => {
                    if self.fail_writes {
                        run.written(Err("locked".to_string()), 1)
                    } else {
                        let n = rows.len() as u64;
                        self.executed.push((sql, rows));
                        run.written(Ok(n), 1)
                    }
                }
                ScriptAction::Finish(r) => return r,
            };
        }
    }
}

#[test]
fn lookups_ask_for_keys_and_values() {
    let data = csv("Id,email\nEXT-001,Alice@example.com\nEXT-003,nobody@example.com\n");
    let script = parse(
        "If [users].email == [Account].email [m] ADD { a = [Account].Id, e = [users].Id } GO",
    );
    let mut db = Memory::new(
        vec![("m", vec![("a", "INTEGER"), ("e", "TEXT")])],
        vec![("FROM \"Account\"", vec![vec![text("alice@example.com"), CellValue::Int(1)]])],
    );
    let s = db.run(script, data, true, 5000).unwrap();
    assert_eq!(
        db.queries,
        vec![(ConnRef::Target, "SELECT \"email\", \"Id\" FROM \"Account\"".to_string())]
    );
    assert_eq!(db.inserted[0].2, vec![vec![CellValue::Int(1), text("EXT-001")]]);
    assert_eq!(s.errors[0].row, 3);
    assert_eq!(db.phases, vec!["lookup 0/1", "transform 0/1", "load 0/1", "load 1/1"]);
}

const MERGE: &str = "WORK 'm' {
  FROM a = SOURCE.[t]
  WHERE a.[k] IS NOT EMPTY
  INTO m = TARGET.[dst]
  ON (m.[k] == a.[k])
  MATCHED { UPDATE { [v] = a.[v] } }
  NOT MATCHED { ADD { [k] = a.[k], [v] = a.[v] } }
}";

fn merge_db() -> Memory {
    Memory::new(
        vec![("dst", vec![("k", "TEXT"), ("v", "INTEGER")])],
        vec![("SELECT DISTINCT \"k\" FROM \"dst\"", vec![vec![text("x")]])],
    )
}

#[test]
fn merge_updates_and_adds_each_key_once() {
    let mut db = merge_db();
    let data = csv("k,v\nX,1\ny,2\nY,3\n,4\nz,no\n");
    let s = db.run(parse(MERGE), data, true, 10).unwrap();
    assert_eq!(s.status, "completed");
    assert_eq!(db.inserted[0].2, vec![vec![text("y"), CellValue::Int(2)]]);
    assert_eq!(
        db.executed,
        vec![(
            "UPDATE \"dst\" SET \"v\" = ? WHERE \"k\" = ?".to_string(),
            vec![vec![CellValue::Int(1), text("X")]],
        )]
    );
    assert_eq!((s.success_rows, s.error_rows), (2, 1));
    assert_eq!((s.errors[0].row, s.errors[0].column.as_str()), (6, "v"));
}

#[test]
fn matched_rows_are_deleted() {
    let mut db = merge_db();
    let script = parse(
        "WORK 'd' { FROM a = SOURCE.[t] INTO m = TARGET.[dst] ON (m.[k] == a.[k]) MATCHED { DELETE } }",
    );
    let s = db.run(script, csv("k\nx\ny\n"), true, 10).unwrap();
    assert_eq!(
        db.executed,
        vec![("DELETE FROM \"dst\" WHERE \"k\" = ?".to_string(), vec![vec![text("x")]])]
    );
    assert_eq!(s.success_rows, 1);
    assert_eq!(db.phases.last().unwrap(), "load 1/1");
}

#[test]
fn left_lookup_misses_are_null() {
    let mut db = Memory::new(
        vec![("dst", vec![("c", "TEXT"), ("d", "TEXT")])],
        vec![("FROM \"T\"", vec![vec![text("1"), text("one")]])],
    );
    let script = parse(
        "WORK 'x' { FROM a = SOURCE.[t] LEFT JOIN b = TARGET.[T] ON (a.[k] == b.[k]) INTO TARGET.[dst] ADD { [c] = b.[v], [d] = N'{b.[v]}!' } }",
    );
    let s = db.run(script, csv("k\n1\n2\n"), true, 10).unwrap();
    assert_eq!(s.error_rows, 0);
    assert_eq!(
        db.inserted[0].2,
        vec![vec![text("one"), text("one!")], vec![CellValue::Null, text("!")]]
    );
}

#[test]
fn batches_cancel_and_fail() {
    let script = "[d] ADD { c = c }";
    let tables = || vec![("d", vec![("c", "INTEGER")])];
    let mut db = Memory::new(tables(), vec![]);
    let s = db.run(parse(script), csv("c\n1\n2\n3\n"), true, 2).unwrap();
    assert_eq!(db.inserted.iter().map(|x| x.2.len()).collect::<Vec<_>>(), vec![2, 1]);
    assert_eq!(s.success_rows, 3);
    let mut db = Memory::new(tables(), vec![]);
    db.cancel_after = 2;
    let s = db.run(parse(script), csv("c\n1\n2\n3\n"), true, 2).unwrap();
    assert_eq!((s.status.as_str(), s.success_rows), ("cancelled", 2));
    let mut db = Memory::new(tables(), vec![]);
    db.fail_writes = true;
    let s = db.run(parse(script), csv("c\n1\n"), true, 2).unwrap();
    assert_eq!(s.status, "failed");
    assert_eq!(s.failure.as_deref(), Some("寫入 d 失敗：locked"));
    let p = reading_progress(7);
    assert_eq!((p.phase.as_str(), p.total_batches), ("read", 0));
}

#[test]
fn mistakes_end_the_run_with_their_line() {
    let message = |script: &str, db: &mut Memory, from_file: bool| {
        db.run(parse(script), csv("k,v\n1,2\n"), from_file, 2).unwrap_err().message()
    };
    let dst = || vec![("dst", vec![("k", "TEXT")])];
    assert_eq!(
        message("[nope] ADD { k = k }", &mut Memory::new(dst(), vec![]), true),
        "ETL 錯誤: 第 1 行：無法讀取目標表 nope：no table"
    );
    assert_eq!(
        message("[dst] ADD { w = k }", &mut Memory::new(dst(), vec![]), true),
        "ETL 錯誤: 第 1 行：目標表 dst 沒有欄位 w"
    );
    let join = "WORK 'x' {\nFROM a = SOURCE.[t]\nJOIN b = SOURCE.[T] ON (a.[k] == b.[k])\nINTO TARGET.[dst]\nADD { [k] = b.[v] } }";
    assert!(message(join, &mut Memory::new(dst(), vec![]), true).contains("來源是檔案"));
    assert_eq!(
        message(join, &mut Memory::new(dst(), vec![]), false),
        "ETL 錯誤: 第 3 行：讀取查表 T 失敗：no answer"
    );
    assert!(message(MERGE, &mut Memory::new(dst(), vec![]), true).contains("沒有欄位 v"));
    let merge = Memory::new(vec![("dst", vec![("k", "TEXT"), ("v", "TEXT")])], vec![]);
    let mut merge = merge;
    assert_eq!(
        message(MERGE, &mut merge, true),
        "ETL 錯誤: 第 4 行：預載目標鍵集合失敗：no answer"
    );
    let empty = "WORK 'A' { FROM a = SOURCE.[t] INTO TARGET.[dst] ADD { } }";
    assert_eq!(
        message(empty, &mut Memory::new(dst(), vec![]), true),
        "ETL 錯誤: 第 1 行：作業「A」的 ADD 沒有任何欄位指派，至少需要一個"
    );
    assert!(message("[dst] ADD { k = zzz }", &mut Memory::new(dst(), vec![]), true)
        .contains("來源沒有欄位 zzz（可用欄位：k, v）"));
}

#[test]
fn idle_jobs_are_passed_over() {
    let mut db = Memory::new(vec![("d", vec![("c", "INTEGER")])], vec![]);
    let script = parse(
        "WORK 's' { FROM a = SOURCE.[t] INTO m = TARGET.[d] ON (m.[c] == a.[c]) NOT MATCHED { SKIP } }\nGO\n[d] ADD { c = c }",
    );
    let s = db.run(script, csv("c\n1\n"), true, 2).unwrap();
    assert_eq!((s.status.as_str(), s.success_rows), ("completed", 1));
    assert_eq!(db.phases[0], "load 1/2");
}

#[test]
fn parse_errors_name_their_line() {
    let e = run_blocking_parse("[a] ADD\n{ x = }", &read).unwrap_err();
    assert!(e.message().starts_with("ETL 錯誤: 第 2 行："));
}

#[test]
fn scripts_are_checked() {
    let ok = validate_etl_script("[d] ADD { c = name }", Some(vec!["Name".to_string()]), &read);
    assert!(ok.ok);
    assert_eq!(ok.statement_count, 1);
    let bad = validate_etl_script(
        "[d] ADD { c = nix }\nGO\nWORK 'A' { FROM a = SOURCE.[t] INTO TARGET.[d] ADD { } }",
        Some(vec!["x".to_string(), "y".to_string()]),
        &read,
    );
    assert!(!bad.ok);
    assert_eq!(bad.statement_count, 2);
    let texts: Vec<&str> = bad.issues.iter().map(|i| i.message.as_str()).collect();
    assert_eq!(
        texts,
        vec![
            "作業「A」沒有任何欄位指派，至少需要一個",
            "來源沒有欄位 nix（可用：x, y）",
        ]
    );
    let broken = validate_etl_script("[d] ADD {", None, &read);
    assert!(!broken.ok);
    assert_eq!((broken.statement_count, broken.issues.len()), (0, 1));
}

fn config(id: u128, name: &str, kind: DbKind) -> ConnectionConfig {
    ConnectionConfig {
        id,
        name: name.to_string(),
        kind,
        host: String::new(),
        port: None,
        database: "/data/f.csv".to_string(),
        username: String::new(),
        trust_server_certificate: false,
        sheet: Some("S".to_string()),
        encoding: None,
        has_header: Some(false),
    }
}

fn params() -> ScriptJobParams {
    ScriptJobParams {
        job_id: 3,
        conn_id: Some(1),
        source_path: Some("w.csv".to_string()),
        sheet: None,
        has_header: None,
        encoding: None,
        source_conn_id: None,
        source_query: None,
        batch_size: 0,
        script: String::new(),
    }
}

#[test]
fn headers_go_before_the_workspace() {
    let conns = vec![
        config(1, "db", DbKind::Sqlite),
        config(2, "file", DbKind::File),
        config(3, "other", DbKind::Postgres),
    ];
    let header = |s: &str| parse(&format!("{s}\n[d] ADD {{ c = 1 }}")).header;
    let (t, job) = resolve_script_job(&params(), &header(""), &conns).unwrap();
    assert_eq!((t.id, job.job_id, job.batch_size), (1, 3, 1));
    assert_eq!(job.source.label(), "w.csv");
    let h = header("SOURCE = CONNECTION('other', TABLE='a.b')\nTARGET = CONNECTION('OTHER')");
    let (t, job) = resolve_script_job(&params(), &h, &conns).unwrap();
    assert_eq!(t.id, 3);
    assert!(matches!(&job.source, ScriptSource::Database { conn_id: 3, query }
        if query == "SELECT * FROM \"a\".\"b\""));
    let h = header("SOURCE = CONNECTION('file')");
    let (_, job) = resolve_script_job(&params(), &h, &conns).unwrap();
    assert!(matches!(&job.source, ScriptSource::File { path, has_header: false, .. }
        if path == "/data/f.csv"));
    let fails = |s: &str, p: &ScriptJobParams| {
        resolve_script_job(p, &header(s), &conns).err().unwrap().message()
    };
    assert!(fails("TARGET = CONNECTION('file')", &params()).contains("不能作為目標"));
    assert!(fails("TARGET = CONNECTION('gone')", &params()).contains("找不到名為「gone」"));
    assert!(fails("SOURCE = CONNECTION('file', TABLE='t')", &params()).contains("不支援 TABLE"));
    assert!(fails("SOURCE = CONNECTION('db')", &params()).contains("擇一"));
    let mut p = params();
    p.conn_id = None;
    assert!(fails("", &p).contains("未指定目標"));
    let mut p = params();
    p.source_path = None;
    assert!(fails("", &p).contains("未指定來源"));
    p.source_conn_id = Some(3);
    assert!(fails("", &p).contains("缺少查詢"));
    p.source_query = Some("SELECT 1".to_string());
    let (_, job) = resolve_script_job(&p, &header(""), &conns).unwrap();
    assert_eq!(job.source.label(), "SELECT 1");
}

#[test]
fn previews_need_a_table_or_a_query() {
    let q = preview_query_for(DbKind::MySql, Some("t".to_string()), None);
    assert_eq!(q, Ok("SELECT * FROM `t`".to_string()));
    let q = preview_query_for(DbKind::MySql, None, Some("SELECT 1".to_string()));
    assert_eq!(q, Ok("SELECT 1".to_string()));
    assert!(preview_query_for(DbKind::MySql, None, None).is_err());
}
