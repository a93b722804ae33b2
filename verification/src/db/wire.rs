//! What database drivers are asked and what they hand over.
use crate::db::db2::{law_text_literals_read_back, quote_str, text_literal};
use crate::db::dialect::{
    bad_name, dot_pieces, insert_params, is_name, is_name_char, law_insert_parameters_go_on,
    law_names_are_quoted_one_by_one, placeholders, quote_columns, quote_table, quoted_columns,
    quoted_name, quoted_table, row_params, split_table, validate_ident, written, Dialect,
};
use crate::double::Real;
use crate::etl::script::alias::lemma_nat_text;
use crate::etl::script::gen::{law_uuids_are_told_apart, show_uuid, uuid_text};
use crate::models::calendar::{day_text, padded, stamp_ok, stamp_text, Day, Stamp, StampView};
use crate::models::connection::{usual_port, ConnectionConfig};
use crate::models::errors::{EluEtlError, ErrorView};
use crate::models::schema::{ColumnInfo, TableInfo};
use crate::models::value::{row_view, CellValue, CellView};
use crate::security::secrets::SecretString;
use crate::text;
use vstd::prelude::*;

verus! {

/// A value as a driver hands it over.
pub enum DriverValue {
    Null,
    Int(i64),
    Real(Real),
    Bool(bool),
    Text(String),
    Guid(u128),
    DateTime(Stamp),
    Date(Day),
    /// A time of day; in a leap second the nanoseconds go on behind second 59.
    Time { hour: u32, minute: u32, second: u32, nano: u32 },
    /// An exact decimal: the nearest double, if there is one, and its digits.
    Decimal { approx: Option<Real>, digits: String },
    /// Bytes and other types that have no cell.
    Unsupported,
}

/// `hh:mm:ss`, a leap second as second 60.
pub open spec fn time_text(hour: u32, minute: u32, second: u32, nano: u32) -> Seq<char> {
    padded(hour as nat, 2) + ":"@ + padded(minute as nat, 2) + ":"@ + padded(
        (second + nano / 1_000_000_000) as nat,
        2,
    )
}

/// The cell of a value that a driver handed over.
pub open spec fn driver_cell(v: DriverValue) -> CellView {
    match v {
        DriverValue::Null => CellView::Null,
        DriverValue::Int(x) => CellView::Int(x),
        DriverValue::Real(x) => CellView::Float(x@),
        DriverValue::Bool(x) => CellView::Bool(x),
        DriverValue::Text(x) => CellView::Text(x@),
        DriverValue::Guid(x) => CellView::Text(uuid_text(x)),
        DriverValue::DateTime(x) => CellView::DateTime(x@),
        DriverValue::Date(x) => CellView::Date(x@),
        DriverValue::Time { hour, minute, second, nano } => CellView::Text(
            time_text(hour, minute, second, nano),
        ),
        DriverValue::Decimal { approx, digits } => match approx {
            Some(x) => CellView::Float(x@),
            None => CellView::Text(digits@),
        },
        DriverValue::Unsupported => CellView::Null,
    }
}

fn two_digits(n: u64) -> (r: String)
    ensures
        r@ == padded(n as nat, 2),
{
    let t: String = text::u64_text(n);
    proof {
        reveal_with_fuel(text::nat_text, 3);
        reveal_strlit("0");
    }
    if n < 10 {
        let r: String = text::cat("0", t.as_str());
        assert(r@ =~= padded(n as nat, 2));
        r
    } else {
        assert(text::nat_text(n as nat).len() >= 2) by {
            reveal_with_fuel(text::nat_text, 3);
        }
        t
    }
}

/// The cell of a value that a driver handed over.
pub fn cell_of_driver_value(v: DriverValue) -> (r: CellValue)
    ensures
        r@ == driver_cell(v),
{
    match v {
        DriverValue::Null => CellValue::Null,
        DriverValue::Int(x) => CellValue::Int(x),
        DriverValue::Real(x) => CellValue::Float(x),
        DriverValue::Bool(x) => CellValue::Bool(x),
        DriverValue::Text(x) => CellValue::Text(x),
        DriverValue::Guid(x) => CellValue::Text(show_uuid(x)),
        DriverValue::DateTime(x) => CellValue::DateTime(x),
        DriverValue::Date(x) => CellValue::Date(x),
        DriverValue::Time { hour, minute, second, nano } => {
            let h: String = two_digits(hour as u64);
            let m: String = two_digits(minute as u64);
            let s: String = two_digits(second as u64 + (nano / 1_000_000_000) as u64);
            CellValue::Text(text::cat5(h.as_str(), ":", m.as_str(), ":", s.as_str()))
        },
        DriverValue::Decimal { approx, digits } => match approx {
            Some(x) => CellValue::Float(x),
            None => CellValue::Text(digits),
        },
        DriverValue::Unsupported => CellValue::Null,
    }
}

/// As what a column of MySQL is fetched.
#[derive(Debug, Clone, Copy, PartialEq, Eq, Structural)]
pub enum FetchAs {
    Integer,
    Bool,
    Single,
    Double,
    Decimal,
    Date,
    DateTime,
    Time,
    Json,
    /// As text where that can be, else NULL.
    Text,
}

/// As what a column of MySQL is fetched, by its type in upper case.
pub open spec fn mysql_fetch(t: Seq<char>) -> FetchAs {
    if t == "TINYINT"@ || t == "SMALLINT"@ || t == "MEDIUMINT"@ || t == "INT"@ || t == "BIGINT"@ || t
        == "YEAR"@ {
        FetchAs::Integer
    } else if t == "BOOLEAN"@ {
        FetchAs::Bool
    } else if t == "FLOAT"@ {
        FetchAs::Single
    } else if t == "DOUBLE"@ {
        FetchAs::Double
    } else if t == "DECIMAL"@ {
        FetchAs::Decimal
    } else if t == "DATE"@ {
        FetchAs::Date
    } else if t == "DATETIME"@ || t == "TIMESTAMP"@ {
        FetchAs::DateTime
    } else if t == "TIME"@ {
        FetchAs::Time
    } else if t == "JSON"@ {
        FetchAs::Json
    } else {
        FetchAs::Text
    }
}

/// As what a column of MySQL is fetched, by the name of its type in any case.
pub fn fetch_as(kind: &str) -> (r: FetchAs)
    ensures
        r == mysql_fetch(text::upper(kind@)),
{
    let up: String = text::to_upper(kind);
    let t: &str = up.as_str();
    if text::same(t, "TINYINT") || text::same(t, "SMALLINT") || text::same(t, "MEDIUMINT")
        || text::same(t, "INT") || text::same(t, "BIGINT") || text::same(t, "YEAR") {
        FetchAs::Integer
    } else if text::same(t, "BOOLEAN") {
        FetchAs::Bool
    } else if text::same(t, "FLOAT") {
        FetchAs::Single
    } else if text::same(t, "DOUBLE") {
        FetchAs::Double
    } else if text::same(t, "DECIMAL") {
        FetchAs::Decimal
    } else if text::same(t, "DATE") {
        FetchAs::Date
    } else if text::same(t, "DATETIME") || text::same(t, "TIMESTAMP") {
        FetchAs::DateTime
    } else if text::same(t, "TIME") {
        FetchAs::Time
    } else if text::same(t, "JSON") {
        FetchAs::Json
    } else {
        FetchAs::Text
    }
}

/// `INSERT INTO table (columns) VALUES (…),(…)`.
pub open spec fn insert_text(d: Dialect, table: Seq<char>, columns: Seq<Seq<char>>, rows: nat) -> Result<
    Seq<char>,
    ErrorView,
> {
    match quoted_table(d, table) {
        Err(e) => Err(e),
        Ok(t) => match quoted_columns(d, columns) {
            Err(e) => Err(e),
            Ok(c) => Ok(
                "INSERT INTO "@ + t + " ("@ + c + ") VALUES "@ + insert_params(
                    d,
                    rows,
                    columns.len(),
                ),
            ),
        },
    }
}

/// The statement that adds some rows to a table.
pub fn insert_rows_sql(d: Dialect, table: &str, columns: &Vec<String>, rows: usize) -> (r: Result<
    String,
    EluEtlError,
>)
    requires
        rows * columns@.len() < usize::MAX,
    ensures
        written(r, insert_text(d, table@, text::views(columns@), rows as nat)),
{
    let t: String = quote_table(d, table)?;
    let c: String = quote_columns(d, columns)?;
    let p: String = placeholders(d, rows, columns.len());
    assert(text::views(columns@).len() == columns@.len());
    let head: String = text::cat5("INSERT INTO ", t.as_str(), " (", c.as_str(), ") VALUES ");
    Ok(text::cat(head.as_str(), p.as_str()))
}

/// The schema part of a table name, if it has one.
pub open spec fn schema_part(table: Seq<char>) -> Option<Seq<char>> {
    let p = dot_pieces(table);
    if p.len() > 1 {
        Some(p[p.len() - 2])
    } else {
        None
    }
}

/// The query for the columns of a table of SQL Server and its parameters.
pub fn mssql_columns_query(table: &str) -> (r: (&'static str, Vec<String>))
    ensures
        match schema_part(table@) {
            Some(s) => r.0@
                == "SELECT COLUMN_NAME, DATA_TYPE, IS_NULLABLE, ORDINAL_POSITION FROM INFORMATION_SCHEMA.COLUMNS WHERE TABLE_NAME = @P1 AND TABLE_SCHEMA = @P2 ORDER BY ORDINAL_POSITION"@
                && text::views(r.1@) == seq![dot_pieces(table@).last(), s],
            None => r.0@
                == "SELECT COLUMN_NAME, DATA_TYPE, IS_NULLABLE, ORDINAL_POSITION FROM INFORMATION_SCHEMA.COLUMNS WHERE TABLE_NAME = @P1 ORDER BY ORDINAL_POSITION"@
                && text::views(r.1@) == seq![dot_pieces(table@).last()],
        },
{
    let (schema, name): (Option<String>, String) = split_table(table);
    let mut params: Vec<String> = Vec::new();
    params.push(name);
    match schema {
        Some(s) => {
            params.push(s);
            assert(text::views(params@) =~= seq![name@, s@]);
            (
                "SELECT COLUMN_NAME, DATA_TYPE, IS_NULLABLE, ORDINAL_POSITION FROM INFORMATION_SCHEMA.COLUMNS WHERE TABLE_NAME = @P1 AND TABLE_SCHEMA = @P2 ORDER BY ORDINAL_POSITION",
                params,
            )
        },
        None => {
            assert(text::views(params@) =~= seq![name@]);
            (
                "SELECT COLUMN_NAME, DATA_TYPE, IS_NULLABLE, ORDINAL_POSITION FROM INFORMATION_SCHEMA.COLUMNS WHERE TABLE_NAME = @P1 ORDER BY ORDINAL_POSITION",
                params,
            )
        },
    }
}

/// The query for the columns of a table of DB2; names that are not ordinary are refused.
pub open spec fn db2_columns_text(table: Seq<char>) -> Result<Seq<char>, ErrorView> {
    let name = dot_pieces(table).last();
    let head = "SELECT COLNAME, TYPENAME, NULLS, COLNO FROM SYSCAT.COLUMNS WHERE TABNAME = "@
        + text_literal(name);
    if !is_name(name) {
        Err(bad_name(name))
    } else {
        match schema_part(table) {
            None => Ok(head + " ORDER BY COLNO"@),
            Some(s) => if is_name(s) {
                Ok(head + " AND TABSCHEMA = "@ + text_literal(s) + " ORDER BY COLNO"@)
            } else {
                Err(bad_name(s))
            },
        }
    }
}

/// The query for the columns of a table of DB2.
pub fn db2_columns_query(table: &str) -> (r: Result<String, EluEtlError>)
    ensures
        written(r, db2_columns_text(table@)),
{
    let (schema, name): (Option<String>, String) = split_table(table);
    if let Err(e) = validate_ident(name.as_str()) {
        return Err(e);
    }
    let head: String = text::cat(
        "SELECT COLNAME, TYPENAME, NULLS, COLNO FROM SYSCAT.COLUMNS WHERE TABNAME = ",
        quote_str(name.as_str()).as_str(),
    );
    match schema {
        None => Ok(text::cat(head.as_str(), " ORDER BY COLNO")),
        Some(s) => {
            if let Err(e) = validate_ident(s.as_str()) {
                return Err(e);
            }
            Ok(
                text::cat4(
                    head.as_str(),
                    " AND TABSCHEMA = ",
                    quote_str(s.as_str()).as_str(),
                    " ORDER BY COLNO",
                ),
            )
        },
    }
}

/// The text of a cell at a place of a row; nothing where it is no text.
pub open spec fn text_at(row: Seq<CellView>, i: int) -> Option<Seq<char>> {
    if 0 <= i < row.len() {
        match row[i] {
            CellView::Text(s) => Some(s),
            _ => None,
        }
    } else {
        None
    }
}

pub open spec fn or_empty(x: Option<Seq<char>>) -> Seq<char> {
    match x {
        Some(s) => s,
        None => seq![],
    }
}

fn cell_text(row: &Vec<CellValue>, i: usize) -> (r: Option<String>)
    ensures
        text::opt_view(r) == text_at(row_view(row@), i as int),
{
    if i < row.len() {
        match &row[i] {
            CellValue::Text(s) => Some(s.as_str().to_string()),
            _ => None,
        }
    } else {
        None
    }
}

fn empty_if_none(x: Option<String>) -> (r: String)
    ensures
        r@ == or_empty(text::opt_view(x)),
{
    match x {
        Some(s) => s,
        None => {
            let s: String = String::new();
            assert(s@ =~= seq![]);
            s
        },
    }
}

/// A table from a row of the catalog of DB2.
pub fn db2_table(row: &Vec<CellValue>) -> (r: TableInfo)
    ensures
        text::opt_view(r.schema) == text_at(row_view(row@), 0),
        r.name@ == or_empty(text_at(row_view(row@), 1)),
{
    TableInfo { schema: cell_text(row, 0), name: empty_if_none(cell_text(row, 1)) }
}

/// The number that a text stands for, if it is a natural number of 32 bits.
pub open spec fn read_u32(s: Seq<char>) -> Option<u32> {
    if s.len() > 0 && s[0] == '-' {
        None
    } else {
        match text::read_int(s) {
            Some(v) => if 0 <= v <= u32::MAX {
                Some(v as u32)
            } else {
                None
            },
            None => None,
        }
    }
}

fn parse_u32(s: &str) -> (r: Option<u32>)
    ensures
        r == read_u32(s@),
{
    let chars: Vec<char> = text::chars_of(s);
    if chars.len() > 0 && chars[0] == '-' {
        return None;
    }
    match text::parse_i64(s) {
        Some(v) => if 0 <= v && v <= 0xffff_ffff {
            Some(v as u32)
        } else {
            None
        },
        None => None,
    }
}

/// A column from a row of the catalog of DB2: its name, type, whether it takes
/// NULL, and its number, zero where there is none.
pub fn db2_column(row: &Vec<CellValue>) -> (r: ColumnInfo)
    ensures
        ({
            let v = row_view(row@);
            &&& r.name@ == or_empty(text_at(v, 0))
            &&& r.db_type@ == or_empty(text_at(v, 1))
            &&& r.nullable == (text_at(v, 2) == Some("Y"@))
            &&& r.ordinal == (match text_at(v, 3) {
                Some(s) => match read_u32(text::trim(s)) {
                    Some(n) => n,
                    None => 0,
                },
                None => 0,
            })
        }),
{
    let ordinal: u32 = match cell_text(row, 3) {
        Some(s) => match parse_u32(text::trimmed(s.as_str()).as_str()) {
            Some(n) => n,
            None => 0,
        },
        None => 0,
    };
    ColumnInfo {
        name: empty_if_none(cell_text(row, 0)),
        db_type: empty_if_none(cell_text(row, 1)),
        nullable: match cell_text(row, 2) {
            Some(s) => text::same(s.as_str(), "Y"),
            None => false,
        },
        ordinal,
    }
}

/// The connection string of DB2, which holds the password.
pub open spec fn db2_connection_text(
    database: Seq<char>,
    host: Seq<char>,
    port: u16,
    user: Seq<char>,
    password: Seq<char>,
) -> Seq<char> {
    "DRIVER={IBM DB2 ODBC DRIVER};DATABASE="@ + database + ";HOSTNAME="@ + host + ";PORT="@
        + text::nat_text(port as nat) + ";PROTOCOL=TCPIP;UID="@ + user + ";PWD="@ + password + ";"@
}

/// The connection string of DB2, kept secret.
pub fn db2_connection_string(config: &ConnectionConfig, password: &SecretString) -> (r: SecretString)
    ensures
        r@ == db2_connection_text(
            config.database@,
            config.host@,
            match config.port {
                Some(p) => p,
                None => usual_port(config.kind),
            },
            config.username@,
            password@,
        ),
{
    let port: String = text::u64_text(config.port_or_default() as u64);
    let a: String = text::cat4(
        "DRIVER={IBM DB2 ODBC DRIVER};DATABASE=",
        config.database.as_str(),
        ";HOSTNAME=",
        config.host.as_str(),
    );
    let b: String = text::cat5(
        a.as_str(),
        ";PORT=",
        port.as_str(),
        ";PROTOCOL=TCPIP;UID=",
        config.username.as_str(),
    );
    SecretString::new(text::cat4(b.as_str(), ";PWD=", password.expose(), ";"))
}

/// What a driver hands over keeps its value: numbers, truth values, texts and times are
/// themselves, a GUID and a time of day are text, and only NULL and what has no cell is
/// NULL.
pub proof fn law_driver_values_are_kept(v: DriverValue)
    ensures
        driver_cell(v) is Null <==> v is Null || v is Unsupported,
        v matches DriverValue::Int(x) ==> driver_cell(v) == CellView::Int(x),
        v matches DriverValue::Real(x) ==> driver_cell(v) == CellView::Float(x@),
        v matches DriverValue::Bool(x) ==> driver_cell(v) == CellView::Bool(x),
        v matches DriverValue::Text(x) ==> driver_cell(v) == CellView::Text(x@),
        v matches DriverValue::DateTime(x) ==> driver_cell(v) == CellView::DateTime(x@),
        v matches DriverValue::Date(x) ==> driver_cell(v) == CellView::Date(x@),
        v is Guid || v is Time ==> driver_cell(v) is Text,
        v matches DriverValue::Decimal { approx, digits } ==> (match driver_cell(v) {
            CellView::Float(f) => approx matches Some(x) && x@ == f,
            CellView::Text(t) => approx is None && t == digits@,
            _ => false,
        }),
{
}

/// GUIDs that differ have texts that differ.
pub proof fn law_guids_are_told_apart(a: u128, b: u128)
    ensures
        driver_cell(DriverValue::Guid(a)) == driver_cell(DriverValue::Guid(b)) <==> a == b,
{
    law_uuids_are_told_apart(a, b);
}

/// A time of day is its hours, minutes and seconds in two digits each, so the text of a
/// date and time is that of the date, a blank, and that of the time.
pub proof fn law_times_of_day_are_shown_alike(t: StampView)
    requires
        stamp_ok(t),
    ensures
        stamp_text(t) == day_text(t.date) + seq![' '] + time_text(
            t.hour as u32,
            t.minute as u32,
            t.second as u32,
            t.nano as u32,
        ),
{
    reveal_strlit(":");
    assert(":"@ =~= seq![':']);
    assert(stamp_text(t) =~= day_text(t.date) + seq![' '] + time_text(
        t.hour as u32,
        t.minute as u32,
        t.second as u32,
        t.nano as u32,
    ));
}

/// An INSERT names its table and its columns in their order and has a place for each cell
/// of each row; one row more goes on with the parameters behind the last.
pub proof fn law_inserts_have_a_place_for_each_cell(
    d: Dialect,
    table: Seq<char>,
    columns: Seq<Seq<char>>,
    rows: nat,
)
    requires
        rows > 0,
    ensures
        insert_text(d, table, columns, rows) is Ok <==> quoted_table(d, table) is Ok
            && quoted_columns(d, columns) is Ok,
        insert_text(d, table, columns, 1) matches Ok(s) ==> s == "INSERT INTO "@ + (quoted_table(
            d,
            table,
        )->Ok_0) + " ("@ + text::join_seq(
            Seq::new(columns.len(), |i: int| quoted_name(d, columns[i])),
            ", "@,
        ) + ") VALUES "@ + row_params(d, columns.len(), 1),
        insert_text(d, table, columns, rows) matches Ok(s) ==> insert_text(
            d,
            table,
            columns,
            rows + 1,
        ) == Ok::<Seq<char>, ErrorView>(
            s + seq![','] + row_params(d, columns.len(), rows * columns.len() + 1),
        ),
{
    law_names_are_quoted_one_by_one(d, columns, ", "@);
    law_insert_parameters_go_on(d, rows, columns.len(), 1);
    if let Ok(s) = insert_text(d, table, columns, rows) {
        let t = quoted_table(d, table)->Ok_0;
        let c = quoted_columns(d, columns)->Ok_0;
        let head = "INSERT INTO "@ + t + " ("@ + c + ") VALUES "@;
        let p = insert_params(d, rows, columns.len());
        let q = row_params(d, columns.len(), rows * columns.len() + 1);
        assert(head + (p + seq![','] + q) =~= s + seq![','] + q);
    }
}

/// A natural number of 32 bits is read back from its digits, and a number that does not
/// fit is not read.
pub proof fn law_small_numbers_read_back(n: nat)
    ensures
        n <= u32::MAX ==> read_u32(text::nat_text(n)) == Some(n as u32),
        n > u32::MAX ==> read_u32(text::nat_text(n)) is None,
{
    lemma_nat_text(n);
    let t = text::nat_text(n);
    assert(text::is_digit(t[0]));
    assert(text::read_int(t) == Some(n as int));
}

/// The columns of a table are asked for by its name and, where there is one, its schema:
/// names that differ are asked for differently.
pub proof fn law_tables_are_asked_by_name(a: Seq<char>, b: Seq<char>)
    requires
        schema_part(a) is None,
        schema_part(b) is None,
        is_name(dot_pieces(a).last()),
        is_name(dot_pieces(b).last()),
    ensures
        db2_columns_text(a) == db2_columns_text(b) <==> dot_pieces(a).last() == dot_pieces(
            b,
        ).last(),
{
    let x = dot_pieces(a).last();
    let y = dot_pieces(b).last();
    let head = "SELECT COLNAME, TYPENAME, NULLS, COLNO FROM SYSCAT.COLUMNS WHERE TABNAME = "@;
    let tail = " ORDER BY COLNO"@;
    if db2_columns_text(a) == db2_columns_text(b) {
        reveal_strlit(" ORDER BY COLNO");
        let s = head + text_literal(x) + tail;
        let t = head + text_literal(y) + tail;
        assert(s == t);
        let n = head.len() as int + 1;
        law_text_literals_read_back(x, tail);
        law_text_literals_read_back(y, tail);
        assert(s.skip(n) =~= (text_literal(x) + tail).skip(1));
        assert(t.skip(n) =~= (text_literal(y) + tail).skip(1));
        if x.contains('\0') {
            let k = choose|k: int| 0 <= k < x.len() && x[k] == '\0';
            assert(is_name_char(x[k]));
        }
        if y.contains('\0') {
            let k = choose|k: int| 0 <= k < y.len() && y[k] == '\0';
            assert(is_name_char(y[k]));
        }
    }
}

/// Columns of MySQL are fetched by what their type holds: whole numbers, truth values,
/// fractions, decimals, dates and times each as such, and what is none of these as text.
pub proof fn law_columns_are_fetched_by_type(t: Seq<char>)
    ensures
        mysql_fetch(t) == FetchAs::Integer <==> t == "TINYINT"@ || t == "SMALLINT"@ || t
            == "MEDIUMINT"@ || t == "INT"@ || t == "BIGINT"@ || t == "YEAR"@,
        mysql_fetch(t) == FetchAs::Date ==> t == "DATE"@,
        mysql_fetch(t) == FetchAs::DateTime ==> t == "DATETIME"@ || t == "TIMESTAMP"@,
        mysql_fetch(t) == FetchAs::Time ==> t == "TIME"@,
        mysql_fetch(t) == FetchAs::Bool ==> t == "BOOLEAN"@,
        mysql_fetch(t) == FetchAs::Single ==> t == "FLOAT"@,
        mysql_fetch(t) == FetchAs::Double ==> t == "DOUBLE"@,
        mysql_fetch(t) == FetchAs::Decimal ==> t == "DECIMAL"@,
        mysql_fetch(t) == FetchAs::Json ==> t == "JSON"@,
        mysql_fetch(t) == FetchAs::Text ==> t != "DATE"@ && t != "DATETIME"@ && t != "TIMESTAMP"@ && t
            != "TIME"@ && t != "BOOLEAN"@ && t != "FLOAT"@ && t != "DOUBLE"@ && t != "DECIMAL"@ && t
            != "JSON"@,
{
}

/// Each part of a DB2 connection stands behind its own key: the string is cut there into the
/// database, the host, the port, the user and the password.
pub proof fn law_connection_strings_hold_each_part(
    database: Seq<char>,
    host: Seq<char>,
    port: u16,
    user: Seq<char>,
    password: Seq<char>,
)
    ensures
        ({
            let s = db2_connection_text(database, host, port, user, password);
            let n = text::nat_text(port as nat);
            let a = "DRIVER={IBM DB2 ODBC DRIVER};DATABASE="@;
            let b = a + database + ";HOSTNAME="@;
            let c = b + host + ";PORT="@;
            let d = c + n + ";PROTOCOL=TCPIP;UID="@;
            let e = d + user + ";PWD="@;
            &&& (a + database).is_prefix_of(s)
            &&& (b + host).is_prefix_of(s)
            &&& (c + n).is_prefix_of(s)
            &&& (d + user).is_prefix_of(s)
            &&& s == e + password + ";"@
        }),
{
}

/// A cell of the catalog is read where it holds text, and only there; a cell that is missing
/// reads as one that is NULL.
pub proof fn law_catalog_cells_are_read_in_place(row: Seq<CellView>, i: int, s: Seq<char>)
    ensures
        text_at(row, i) == Some(s) <==> 0 <= i < row.len() && row[i] == CellView::Text(s),
        text_at(row.push(CellView::Null), i) == text_at(row, i),
{
}

} // verus!
