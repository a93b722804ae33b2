use elu_etl::db::db2::{insert_statements, sql_literal, status};
use elu_etl::db::dialect::{
    dialect_for, equality_clause, placeholders, quote_columns, quote_table, rows_per_statement,
    split_table, validate_ident, Dialect,
};
use elu_etl::db::wire::{
    cell_of_driver_value, db2_column, db2_columns_query, db2_connection_string, db2_table,
    fetch_as, insert_rows_sql, mssql_columns_query, DriverValue, FetchAs,
};
use elu_etl::double::Real;
use elu_etl::models::calendar::Day;
use elu_etl::models::connection::{
    get_connection, get_connection_by_name, keeps_password, ConnectionConfig, DbKind,
};
use elu_etl::models::errors::EluEtlError;
use elu_etl::models::value::CellValue;
use elu_etl::security::secrets::SecretString;

fn text(s: &str) -> CellValue {
    CellValue::Text(s.to_string())
}

fn config(id: u128, name: &str, kind: DbKind) -> ConnectionConfig {
    ConnectionConfig {
        id,
        name: name.to_string(),
        kind,
        host: "h".to_string(),
        port: None,
        database: "d".to_string(),
        username: "u".to_string(),
        trust_server_certificate: false,
        sheet: None,
        encoding: None,
        has_header: None,
    }
}

#[test]
fn names_are_quoted_for_each_database() {
    assert_eq!(quote_table(Dialect::Mssql, "dbo.T").unwrap(), "[dbo].[T]");
    assert_eq!(quote_table(Dialect::Postgres, "public.t").unwrap(), "\"public\".\"t\"");
    assert_eq!(quote_table(Dialect::MySql, "t").unwrap(), "`t`");
    let cols = vec!["a".to_string(), "b c".to_string()];
    assert_eq!(quote_columns(Dialect::Sqlite, &cols).unwrap(), "\"a\", \"b c\"");
    assert!(validate_ident("").is_err());
    assert!(validate_ident("a;b").is_err());
    assert_eq!(split_table("a.b.c"), (Some("b".to_string()), "c".to_string()));
    assert_eq!(split_table("c"), (None, "c".to_string()));
}

#[test]
fn parameters_are_numbered() {
    assert_eq!(placeholders(Dialect::Mssql, 2, 2), "(@P1,@P2),(@P3,@P4)");
    assert_eq!(placeholders(Dialect::Sqlite, 1, 3), "(?,?,?)");
    let cols = vec!["a".to_string(), "b".to_string()];
    let (s, next) = equality_clause(Dialect::Postgres, &cols, 3, " AND ").unwrap();
    assert_eq!((s.as_str(), next), ("\"a\" = $3 AND \"b\" = $4", 5));
    assert_eq!(rows_per_statement(10, 2000), 200);
    assert_eq!(rows_per_statement(0, 60000), 1000);
    assert_eq!(rows_per_statement(5000, 2000), 1);
    assert_eq!(
        insert_rows_sql(Dialect::MySql, "t", &cols, 2).unwrap(),
        "INSERT INTO `t` (`a`, `b`) VALUES (?,?),(?,?)"
    );
}

#[test]
fn dialects_of_connections() {
    assert_eq!(dialect_for(DbKind::SqlServer), Ok(Dialect::Mssql));
    assert!(matches!(dialect_for(DbKind::File), Err(EluEtlError::Config(_))));
    assert!(keeps_password(DbKind::MySql));
    assert!(!keeps_password(DbKind::Sqlite));
    assert_eq!(config(1, "a", DbKind::Postgres).port_or_default(), 5432);
}

#[test]
fn connections_are_found_by_name_and_number() {
    let list = vec![config(1, "One", DbKind::Sqlite), config(2, " two ", DbKind::MySql)];
    assert_eq!(get_connection_by_name(&list, "TWO").unwrap().id, 2);
    assert_eq!(get_connection(&list, 1).unwrap().name, "One");
    let e = get_connection_by_name(&list, "x").unwrap_err();
    assert!(e.message().contains("找不到名為「x」的已儲存連線"));
    let e = get_connection(&list, 9).unwrap_err();
    assert_eq!(
        e,
        EluEtlError::NotFound("連線 00000000-0000-0000-0000-000000000009 不存在".to_string())
    );
}

#[test]
fn db2_readiness() {
    assert!(status(true, true).available);
    assert!(!status(true, false).available);
    assert!(status(true, false).message.contains("IBM_DB_HOME"));
    assert!(status(false, true).message.contains("--features db2"));
}

#[test]
fn db2_literals_and_statements() {
    assert_eq!(sql_literal(&text("it's\0")), "'it''s'");
    assert_eq!(sql_literal(&CellValue::Null), "NULL");
    assert_eq!(sql_literal(&CellValue::Bool(true)), "TRUE");
    let nan = Real { bits: f64::NAN.to_bits(), text: "NaN".to_string(), json: String::new() };
    assert_eq!(sql_literal(&CellValue::Float(nan)), "NULL");
    assert_eq!(
        sql_literal(&CellValue::Date(Day::new(2026, 6, 12).unwrap())),
        "DATE('2026-06-12')"
    );
    let rows: Vec<Vec<CellValue>> = (0..501).map(|i| vec![CellValue::Int(i)]).collect();
    let s = insert_statements("t", &vec!["a".to_string()], &rows).unwrap();
    assert_eq!(s.len(), 2);
    assert_eq!(s[1], "INSERT INTO \"t\" (\"a\") VALUES (500)");
}

#[test]
fn db2_catalog() {
    assert_eq!(
        db2_columns_query("s.t").unwrap(),
        "SELECT COLNAME, TYPENAME, NULLS, COLNO FROM SYSCAT.COLUMNS WHERE TABNAME = 't' AND TABSCHEMA = 's' ORDER BY COLNO"
    );
    assert!(db2_columns_query("t'").is_err());
    let c = db2_column(&vec![text("A"), text("INTEGER"), text("Y"), text(" 3 ")]);
    assert_eq!((c.name.as_str(), c.nullable, c.ordinal), ("A", true, 3));
    let c = db2_column(&vec![text("A"), text("INTEGER"), text("N"), text("-0")]);
    assert_eq!((c.nullable, c.ordinal), (false, 0));
    let t = db2_table(&vec![CellValue::Null, text("T")]);
    assert_eq!((t.schema, t.name.as_str()), (None, "T"));
}

#[test]
fn db2_connection_strings_stay_secret() {
    let s = db2_connection_string(
        &config(1, "a", DbKind::SqlServer),
        &SecretString::new("pw".to_string()),
    );
    assert_eq!(
        s.expose(),
        "DRIVER={IBM DB2 ODBC DRIVER};DATABASE=d;HOSTNAME=h;PORT=1433;PROTOCOL=TCPIP;UID=u;PWD=pw;"
    );
    assert_eq!(s.shown(), "***");
}

#[test]
fn sql_server_columns_query() {
    let (sql, params) = mssql_columns_query("dbo.T");
    assert!(sql.contains("TABLE_SCHEMA = @P2"));
    assert_eq!(params, vec!["T", "dbo"]);
    let (sql, params) = mssql_columns_query("T");
    assert!(!sql.contains("@P2"));
    assert_eq!(params, vec!["T"]);
}

#[test]
fn driver_values_become_cells() {
    assert_eq!(
        cell_of_driver_value(DriverValue::Time { hour: 1, minute: 2, second: 59, nano: 1_000_000_000 }),
        text("01:02:60")
    );
    assert_eq!(
        cell_of_driver_value(DriverValue::Guid(1)),
        text("00000000-0000-0000-0000-000000000001")
    );
    assert_eq!(
        cell_of_driver_value(DriverValue::Decimal { approx: None, digits: "1.50".to_string() }),
        text("1.50")
    );
    assert_eq!(cell_of_driver_value(DriverValue::Unsupported), CellValue::Null);
    assert_eq!(fetch_as("bigint"), FetchAs::Integer);
    assert_eq!(fetch_as("Decimal"), FetchAs::Decimal);
    assert_eq!(fetch_as("BLOB"), FetchAs::Text);
}
