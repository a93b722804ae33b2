use calamine::{Data, Reader};
use elu_etl::db::dialect::{rows_per_statement, Dialect};
use elu_etl::db::wire::{cell_of_driver_value, insert_rows_sql, DriverValue};
use elu_etl::double::Real;
use elu_etl::etl::executor::{EtlSummary, JobAction, JobRun};
use elu_etl::etl::mapping::{ErrorPolicy, MappingRule, NullPolicy, WriteMode};
use elu_etl::etl::script::gen::{Entropy, GenContext};
use elu_etl::etl::script::job_parser;
use elu_etl::etl::script::run::{ScriptAction, ScriptRun};
use elu_etl::etl::source_input::SourceData;
use elu_etl::etl::transform::transform_rows;
use elu_etl::excel::csv_reader;
use elu_etl::excel::reader::{read_rows, SheetCell};
use elu_etl::excel::writer::{lay_out, Ink};
use elu_etl::models::calendar::{Day, Stamp};
use elu_etl::models::schema::ColumnInfo;
use elu_etl::models::value::{CellValue, DataType};
use sqlx::{Column, Connection, Row, TypeInfo, ValueRef};

fn double(v: f64) -> Real {
    Real { bits: v.to_bits(), text: v.to_string(), json: v.to_string() }
}

fn read(s: String) -> Option<Real> {
    s.parse().ok().map(double)
}

fn text(s: &str) -> CellValue {
    CellValue::Text(s.to_string())
}

/// A database in memory.
struct Sqlite {
    rt: tokio::runtime::Runtime,
    conn: sqlx::SqliteConnection,
}

fn fetch(row: &sqlx::sqlite::SqliteRow, i: usize) -> DriverValue {
    let raw = row.try_get_raw(i).unwrap();
    if raw.is_null() {
        return DriverValue::Null;
    }
    let kind = raw.type_info().name().to_string();
    match kind.as_str() {
        "INTEGER" => DriverValue::Int(row.get(i)),
        "REAL" => DriverValue::Real(double(row.get(i))),
        _ => DriverValue::Text(row.get(i)),
    }
}

fn bound<'q>(
    sql: String,
    rows: &[Vec<CellValue>],
) -> sqlx::query::Query<'q, sqlx::Sqlite, sqlx::sqlite::SqliteArguments> {
    let mut q = sqlx::query(sqlx::AssertSqlSafe(sql));
    for cell in rows.iter().flatten() {
        q = match cell {
            CellValue::Null => q.bind(None::<String>),
            CellValue::Int(v) => q.bind(*v),
            CellValue::Float(v) => q.bind(f64::from_bits(v.bits)),
            CellValue::Bool(v) => q.bind(*v),
            other => q.bind(other.to_display_string()),
        };
    }
    q
}

impl Sqlite {
    fn new() -> Sqlite {
        let rt = tokio::runtime::Builder::new_current_thread().enable_all().build().unwrap();
        let conn = rt.block_on(sqlx::SqliteConnection::connect("sqlite::memory:")).unwrap();
        Sqlite { rt, conn }
    }

    fn query(
        &mut self,
        sql: &str,
        max: Option<usize>,
    ) -> Result<(Vec<String>, Vec<Vec<CellValue>>), String> {
        let q = sqlx::query(sqlx::AssertSqlSafe(sql.to_string())).fetch_all(&mut self.conn);
        let rows = self.rt.block_on(q).map_err(|e| e.to_string())?;
        let names = rows
            .first()
            .map(|r| r.columns().iter().map(|c| c.name().to_string()).collect())
            .unwrap_or_default();
        let cells = rows
            .iter()
            .take(max.unwrap_or(usize::MAX))
            .map(|r| (0..r.len()).map(|i| cell_of_driver_value(fetch(r, i))).collect())
            .collect();
        Ok((names, cells))
    }

    fn rows(&mut self, sql: &str) -> Vec<Vec<CellValue>> {
        self.query(sql, None).unwrap().1
    }

    fn columns(&mut self, table: &str) -> Vec<ColumnInfo> {
        let info = self.rows(&format!("SELECT name, type, \"notnull\" FROM pragma_table_info('{table}')"));
        info.iter()
            .enumerate()
            .map(|(i, r)| ColumnInfo {
                name: r[0].to_display_string(),
                db_type: r[1].to_display_string(),
                nullable: r[2] == CellValue::Int(0),
                ordinal: i as u32 + 1,
            })
            .collect()
    }

    fn write_batch(
        &mut self,
        table: &str,
        columns: &Vec<String>,
        rows: &[Vec<CellValue>],
    ) -> Result<u64, String> {
        for chunk in rows.chunks(rows_per_statement(columns.len(), 30000)) {
            let sql = insert_rows_sql(Dialect::Sqlite, table, columns, chunk.len())
                .map_err(|e| e.message())?;
            let q = bound(sql, chunk).execute(&mut self.conn);
            self.rt.block_on(q).map_err(|e| e.to_string())?;
        }
        Ok(rows.len() as u64)
    }

    fn execute_batch(&mut self, sql: &str, rows: &[Vec<CellValue>]) -> Result<u64, String> {
        let mut touched = 0;
        for row in rows {
            let q = bound(sql.to_string(), std::slice::from_ref(row)).execute(&mut self.conn);
            touched += self.rt.block_on(q).map_err(|e| e.to_string())?.rows_affected();
        }
        Ok(touched)
    }

    fn run_script(&mut self, script: &str, data: SourceData, from_file: bool) -> EtlSummary {
        let script = job_parser::parse(script, &read).unwrap();
        let mut entropy = Entropy::new();
        let (mut run, mut step) = ScriptRun::new(
            7,
            Dialect::Sqlite,
            5000,
            from_file,
            script.works,
            data,
            GenContext::new(),
            1,
        );
        loop {
            step = match step.action {
                ScriptAction::AskCancelled => run.cancel_known(false, 1),
                ScriptAction::GetColumns(t) => {
                    let columns = self.columns(&t);
                    run.columns_known(Ok(columns), &read, &mut entropy, 1)
                }
                ScriptAction::Query { sql, .. } => {
                    let rows = self.query(&sql, None).map(|r| r.1);
                    run.rows_known(rows, &read, &mut entropy, 1)
                }
                ScriptAction::Insert { table, cols, rows, .. } => {
                    let written = self.write_batch(&table, &cols, &rows);
                    run.written(written, 1)
                }
                ScriptAction::Execute { sql, rows, .. } => {
                    let written = self.execute_batch(&sql, &rows);
                    run.written(written, 1)
                }
                ScriptAction::Finish(r) => return r.unwrap(),
            };
        }
    }
}

fn csv(s: &str) -> SourceData {
    let rows = csv_reader::read_rows(&s.as_bytes().to_vec(), None, &read).unwrap();
    SourceData::from_file(rows, true)
}

fn rule(idx: usize, name: &str, target: &str, ty: DataType, np: NullPolicy) -> MappingRule {
    MappingRule {
        source_index: idx,
        source_name: name.to_string(),
        target_column: target.to_string(),
        target_type: ty,
        null_policy: np,
    }
}

#[test]
fn sqlite_end_to_end_import_and_export_query() {
    let mut db = Sqlite::new();
    db.rows(
        "CREATE TABLE employees (
            emp_id INTEGER NOT NULL,
            emp_name TEXT NOT NULL,
            salary REAL,
            active INTEGER,
            hired_at TEXT
        )",
    );
    let source_rows = vec![
        vec![text("1"), text("王小明"), text("50000.5"), text("true"), text("2026-01-15")],
        vec![text("2"), text("李大華"), CellValue::Null, text("false"), text("2025/12/01")],
        vec![text("not-a-number"), text("壞資料"), text("1"), text("true"), text("2026-02-01")],
    ];
    let rules = vec![
        rule(0, "編號", "emp_id", DataType::Integer, NullPolicy::Error),
        rule(1, "姓名", "emp_name", DataType::Text, NullPolicy::Error),
        rule(2, "薪資", "salary", DataType::Float, NullPolicy::Allow),
        rule(3, "在職", "active", DataType::Bool, NullPolicy::Allow),
        rule(4, "到職日", "hired_at", DataType::Date, NullPolicy::Allow),
    ];
    let (ok_rows, errors) = transform_rows(&source_rows, &rules, 2, &read);
    assert_eq!(ok_rows.len(), 2);
    assert_eq!(errors.len(), 1);
    assert_eq!(errors[0].row, 4);
    assert_eq!(errors[0].column, "編號");

    let columns: Vec<String> = rules.iter().map(|r| r.target_column.clone()).collect();
    let written = db.write_batch("employees", &columns, &ok_rows).unwrap();
    assert_eq!(written, 2);

    let rows =
        db.rows("SELECT emp_id, emp_name, salary, active, hired_at FROM employees ORDER BY emp_id");
    assert_eq!(rows.len(), 2);
    assert_eq!(rows[0][0], CellValue::Int(1));
    assert_eq!(rows[0][1], text("王小明"));
    assert_eq!(rows[0][2], CellValue::Float(double(50000.5)));
    assert_eq!(rows[0][3], CellValue::Int(1));
    assert_eq!(rows[0][4], text("2026-01-15"));
    assert_eq!(rows[1][2], CellValue::Null);

    let tables = db.rows("SELECT name FROM sqlite_master WHERE type = 'table'");
    assert!(tables.iter().any(|t| t[0] == text("employees")));
    let cols = db.columns("employees");
    assert_eq!(cols.len(), 5);
    assert_eq!(cols[0].name, "emp_id");
    assert!(!cols[0].nullable);
    assert!(cols[2].nullable);

    let preview = db.query("SELECT * FROM employees", Some(1)).unwrap();
    assert_eq!(preview.1.len(), 1);
}

#[test]
fn sqlite_rejects_dangerous_table_name() {
    let mut db = Sqlite::new();
    let err = db
        .write_batch("x\"; DROP TABLE y; --", &vec!["a".to_string()], &[vec![text("v")]])
        .unwrap_err();
    assert!(err.contains("不合法"));
}

#[test]
fn wizard_database_source_end_to_end() {
    let mut src = Sqlite::new();
    src.rows("CREATE TABLE staging (code TEXT, amount TEXT)");
    src.rows("INSERT INTO staging (code, amount) VALUES ('1', '10.5'), ('x', '2')");
    let mut dst = Sqlite::new();
    dst.rows("CREATE TABLE target_rows (id INTEGER, amount REAL)");

    let rules = vec![
        rule(0, "code", "id", DataType::Integer, NullPolicy::Error),
        rule(1, "amount", "amount", DataType::Float, NullPolicy::Allow),
    ];
    let columns: Vec<String> = rules.iter().map(|r| r.target_column.clone()).collect();
    let (mut run, reading) =
        JobRun::new(7, rules, WriteMode::BatchCommit, ErrorPolicy::SkipAndReport, 5000, 0);
    assert_eq!((reading.phase.as_str(), reading.batch), ("read", 0));
    let (names, rows) = src.query("SELECT code, amount FROM staging ORDER BY code", None).unwrap();
    let data = SourceData::from_query(names, rows);
    let mut step = run.source_read(data.rows, data.first_data_row, &read, 5);
    let summary = loop {
        step = match step.action {
            JobAction::AskCancelled => run.cancel_known(false, &read, 5),
            JobAction::AskRate { .. } => panic!("no rate is asked for"),
            JobAction::Write(v) => run.written(dst.write_batch("target_rows", &columns, &v), 5),
            JobAction::Record { .. } => run.recorded(5),
            JobAction::Finish { summary, .. } => break summary,
        };
    };
    assert_eq!(summary.status, "completed");
    assert_eq!(summary.total_rows, 2);
    assert_eq!(summary.success_rows, 1);
    assert_eq!(summary.error_rows, 1);
    assert_eq!(summary.errors[0].row, 2);

    let rows = dst.rows("SELECT id, amount FROM target_rows");
    assert_eq!(rows.len(), 1);
    assert_eq!(rows[0][0], CellValue::Int(1));
    assert_eq!(rows[0][1], CellValue::Float(double(10.5)));
}

fn stamp(t: chrono::NaiveDateTime) -> Option<Stamp> {
    let s = t.format("%Y-%m-%d %H:%M:%S").to_string();
    elu_etl::models::calendar::parse_datetime(&s)
}

#[test]
fn xlsx_export_roundtrip() {
    let columns = vec!["id".to_string(), "name".to_string(), "when".to_string()];
    let when = Stamp::new(Day::new(2026, 6, 12).unwrap(), 10, 30, 0, 0).unwrap();
    let rows = vec![
        vec![CellValue::Int(1), text("測試"), CellValue::DateTime(when)],
        vec![CellValue::Int(2), CellValue::Null, CellValue::Null],
    ];
    let (marks, n) = lay_out(&columns, &rows).unwrap();
    assert_eq!(n, 2);

    let mut workbook = rust_xlsxwriter::Workbook::new();
    let sheet = workbook.add_worksheet();
    let format = rust_xlsxwriter::Format::new().set_num_format("yyyy-mm-dd hh:mm:ss");
    for m in &marks {
        match &m.ink {
            Ink::Heading(s) => {
                sheet.write_string(m.row, m.col, s).unwrap();
            }
            Ink::Value(CellValue::Int(v)) => {
                sheet.write_number(m.row, m.col, *v as f64).unwrap();
            }
            Ink::Value(CellValue::Text(s)) => {
                sheet.write_string(m.row, m.col, s).unwrap();
            }
            Ink::Value(CellValue::DateTime(t)) => {
                let d = t.date();
                let naive = chrono::NaiveDate::from_ymd_opt(d.year(), d.month(), d.day())
                    .unwrap()
                    .and_hms_opt(t.hour(), t.minute(), t.second())
                    .unwrap();
                sheet.write_datetime_with_format(m.row, m.col, naive, &format).unwrap();
            }
            Ink::Value(other) => panic!("unexpected {other:?}"),
        }
    }
    let bytes = workbook.save_to_buffer().unwrap();

    let mut book = calamine::open_workbook_auto_from_rs(std::io::Cursor::new(bytes)).unwrap();
    let name = book.sheet_names()[0].clone();
    let range = book.worksheet_range(&name).unwrap();
    let cells = range
        .rows()
        .map(|r| {
            r.iter()
                .map(|d| match d {
                    Data::Empty => SheetCell::Empty,
                    Data::String(s) => SheetCell::Text(s.clone()),
                    Data::Float(f) => SheetCell::Float(double(*f)),
                    Data::DateTime(t) => SheetCell::DateTime(t.as_datetime().and_then(stamp)),
                    other => panic!("unexpected {other:?}"),
                })
                .collect()
        })
        .collect();
    let back = read_rows(cells);
    assert_eq!(back[0][0], text("id"));
    assert_eq!(back[1][0], CellValue::Float(double(1.0)));
    assert_eq!(back[1][1], text("測試"));
    assert_eq!(back[1][2], CellValue::DateTime(when));
    assert_eq!(back[2][1], CellValue::Null);
}

#[test]
fn script_lookup_join_end_to_end() {
    let mut db = Sqlite::new();
    db.rows("CREATE TABLE Account (Id INTEGER PRIMARY KEY, email TEXT NOT NULL)");
    db.rows(
        "CREATE TABLE ExternalIdentityMappings (
            AccountId INTEGER NOT NULL,
            ExternalId TEXT NOT NULL,
            ExternalSystemType TEXT NOT NULL
        )",
    );
    db.rows(
        "INSERT INTO Account (Id, email) VALUES
         (1, 'alice@example.com'), (2, 'BOB@example.com')",
    );
    let data = csv(
        "Id,email\nEXT-001,Alice@example.com\nEXT-002,bob@example.com\nEXT-003,nobody@example.com\n",
    );
    let summary = db.run_script(
        r#"
If [users].[CSV].email == [Account].email
[ExternalIdentityMappings] ADD
{
 AccountId = [Account].Id
,ExternalId = [users].[CSV].Id
,ExternalSystemType = N'MICROSOFT_ENTRA_ID'
}
GO
"#,
        data,
        true,
    );
    assert_eq!(summary.status, "completed");
    assert_eq!(summary.total_rows, 3);
    assert_eq!(summary.success_rows, 2);
    assert_eq!(summary.error_rows, 1);
    assert!(summary.errors[0].reason.contains("查無對應"));

    let rows = db.rows(
        "SELECT AccountId, ExternalId, ExternalSystemType
         FROM ExternalIdentityMappings ORDER BY AccountId",
    );
    assert_eq!(rows.len(), 2);
    assert_eq!(rows[0][0], CellValue::Int(1));
    assert_eq!(rows[0][1], text("EXT-001"));
    assert_eq!(rows[0][2], text("MICROSOFT_ENTRA_ID"));
    assert_eq!(rows[1][0], CellValue::Int(2));
    assert_eq!(rows[1][1], text("EXT-002"));
}

#[test]
fn script_without_condition_inserts_all() {
    let mut db = Sqlite::new();
    db.rows("CREATE TABLE items (name TEXT, qty INTEGER, src TEXT)");
    let summary = db.run_script(
        "[items] ADD { name = name, qty = qty, src = N'import' } GO",
        csv("name,qty\nA,1\nB,2\n"),
        true,
    );
    assert_eq!(summary.success_rows, 2);
    assert_eq!(summary.error_rows, 0);
    let rows = db.rows("SELECT name, qty, src FROM items ORDER BY name");
    assert_eq!(rows[0][1], CellValue::Int(1));
    assert_eq!(rows[1][2], text("import"));
}

#[test]
fn script_generators_produce_values() {
    let mut db = Sqlite::new();
    db.rows("CREATE TABLE rows (id TEXT, guid TEXT, name TEXT, hash TEXT, created TEXT)");
    let summary = db.run_script(
        "WORK '產生器' {
         [rows] ADD {
           id = Gen.ULID,
           guid = Gen.GUID,
           name = name,
           hash = Gen.SHA256,
           created = Gen.DateTime(Text)
         }
         }",
        csv("name\nA\nB\n"),
        true,
    );
    assert_eq!(summary.success_rows, 2);
    assert_eq!(summary.error_rows, 0);
    let rows = db.rows("SELECT id, guid, name, hash, created FROM rows ORDER BY name");
    let of = |c: &CellValue| match c {
        CellValue::Text(s) => s.clone(),
        other => panic!("expected a text, got {other:?}"),
    };
    assert_eq!(of(&rows[0][0]).len(), 26);
    assert_ne!(of(&rows[0][0]), of(&rows[1][0]));
    assert_eq!(of(&rows[0][1]).len(), 36);
    assert_eq!(of(&rows[0][3]).len(), 64);
    assert_ne!(of(&rows[0][3]), of(&rows[1][3]));
    assert_eq!(of(&rows[0][4]), of(&rows[1][4]));
}

#[test]
fn script_concat_composes_values() {
    let mut db = Sqlite::new();
    db.rows("CREATE TABLE Ref (code TEXT, label TEXT)");
    db.rows("INSERT INTO Ref (code, label) VALUES ('A1', '甲'), ('B2', '乙')");
    db.rows("CREATE TABLE out (tag TEXT, who TEXT)");
    let summary = db.run_script(
        "WORK '合成' {
         If [SOURCE].code == [Ref].code
         [out] ADD {
           tag = N'ENTRA:' + [Ref].label + N'/' + [SOURCE].code,
           who = [SOURCE].nick + N'@linkcom'
         }
         }",
        csv("code,nick\nA1,alice\nB2,\n"),
        true,
    );
    assert_eq!(summary.success_rows, 2);
    assert_eq!(summary.error_rows, 0);
    let rows = db.rows("SELECT tag, who FROM out ORDER BY tag");
    assert_eq!(rows[0][0], text("ENTRA:乙/B2"));
    assert_eq!(rows[0][1], text("@linkcom"));
    assert_eq!(rows[1][0], text("ENTRA:甲/A1"));
    assert_eq!(rows[1][1], text("alice@linkcom"));
}

#[test]
fn script_database_source_inserts_all() {
    let mut db = Sqlite::new();
    db.rows("CREATE TABLE staging (name TEXT, qty INTEGER)");
    db.rows("INSERT INTO staging (name, qty) VALUES ('A', 1), ('B', 2)");
    db.rows("CREATE TABLE items (name TEXT, qty INTEGER, src TEXT)");
    let (names, rows) = db.query("SELECT name, qty FROM staging ORDER BY name", None).unwrap();
    let summary = db.run_script(
        "[items] ADD { name = name, qty = qty, src = N'db' } GO",
        SourceData::from_query(names, rows),
        false,
    );
    assert_eq!(summary.status, "completed");
    assert_eq!(summary.total_rows, 2);
    assert_eq!(summary.success_rows, 2);
    assert_eq!(summary.error_rows, 0);
    let rows = db.rows("SELECT name, qty, src FROM items ORDER BY name");
    assert_eq!(rows.len(), 2);
    assert_eq!(rows[0][0], text("A"));
    assert_eq!(rows[0][1], CellValue::Int(1));
    assert_eq!(rows[1][2], text("db"));
}

#[test]
fn merged_rows_are_updated_added_and_deleted() {
    let mut db = Sqlite::new();
    db.rows("CREATE TABLE dst (k TEXT, v INTEGER)");
    db.rows("INSERT INTO dst (k, v) VALUES ('x', 1), ('y', 2)");
    let s = db.run_script(
        "WORK 'm' {
           FROM a = SOURCE.[t]
           INTO m = TARGET.[dst]
           ON (m.[k] == a.[k])
           MATCHED { UPDATE { [v] = a.[v] } }
           NOT MATCHED { ADD { [k] = a.[k], [v] = a.[v] } }
         }",
        csv("k,v\nx,10\nz,30\nz,31\n"),
        true,
    );
    assert_eq!(s.success_rows, 2);
    assert_eq!(
        db.rows("SELECT k, v FROM dst ORDER BY k"),
        vec![
            vec![text("x"), CellValue::Int(10)],
            vec![text("y"), CellValue::Int(2)],
            vec![text("z"), CellValue::Int(30)],
        ]
    );
    db.run_script(
        "WORK 'd' {
           FROM a = SOURCE.[t]
           INTO m = TARGET.[dst]
           ON (m.[k] == a.[k])
           MATCHED { DELETE }
         }",
        csv("k\nx\nq\n"),
        true,
    );
    assert_eq!(db.rows("SELECT k FROM dst ORDER BY k"), vec![vec![text("y")], vec![text("z")]]);
}
