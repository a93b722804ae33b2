use elu_etl::double::Real;
use elu_etl::etl::script::ast::CmpOp;
use elu_etl::etl::script::eval::{eval_cond_plan, CondPlan, RowCtx, ValBind};
use elu_etl::etl::script::gen::{Entropy, GenContext};
use elu_etl::etl::script::keys::{eval_compare, key_of, key_of_cells, like_match};
use elu_etl::models::calendar::{parse_date, parse_datetime, Day, Stamp};
use elu_etl::models::errors::EluEtlError;
use elu_etl::models::value::{CellValue, DataType, Json};
use elu_etl::security::secrets::SecretString;

fn double(v: f64) -> Real {
    Real { bits: v.to_bits(), text: v.to_string(), json: v.to_string() }
}

fn read(s: String) -> Option<Real> {
    s.parse().ok().map(double)
}

fn float(v: f64) -> CellValue {
    CellValue::Float(double(v))
}

fn text(s: &str) -> CellValue {
    CellValue::Text(s.to_string())
}

fn convert(c: CellValue, t: DataType) -> Result<CellValue, String> {
    c.convert_to(t, &read)
}

#[test]
fn int_conversions() {
    assert_eq!(convert(float(3.0), DataType::Integer), Ok(CellValue::Int(3)));
    assert!(convert(float(3.5), DataType::Integer).is_err());
    assert_eq!(convert(text(" 42 "), DataType::Integer), Ok(CellValue::Int(42)));
    assert!(convert(text("abc"), DataType::Integer).is_err());
}

#[test]
fn bool_conversions() {
    assert_eq!(convert(CellValue::Int(1), DataType::Bool), Ok(CellValue::Bool(true)));
    assert!(convert(CellValue::Int(2), DataType::Bool).is_err());
    assert_eq!(convert(text("TRUE"), DataType::Bool), Ok(CellValue::Bool(true)));
}

#[test]
fn datetime_conversions() {
    let d = Day::new(2026, 6, 12).unwrap();
    assert_eq!(convert(text("2026/06/12"), DataType::Date), Ok(CellValue::Date(d)));
    let midnight = Stamp::new(Day::new(2026, 6, 12).unwrap(), 0, 0, 0, 0).unwrap();
    assert_eq!(
        convert(CellValue::Date(Day::new(2026, 6, 12).unwrap()), DataType::DateTime),
        Ok(CellValue::DateTime(midnight))
    );
    let dt = Stamp::new(Day::new(2026, 6, 12).unwrap(), 13, 30, 0, 0).unwrap();
    assert_eq!(
        convert(CellValue::DateTime(dt), DataType::Date),
        Ok(CellValue::Date(Day::new(2026, 6, 12).unwrap()))
    );
    assert!(convert(text("not a date"), DataType::Date).is_err());
}

#[test]
fn null_passes_through() {
    assert_eq!(convert(CellValue::Null, DataType::Integer), Ok(CellValue::Null));
}

#[test]
fn anything_to_text() {
    assert_eq!(convert(CellValue::Int(7), DataType::Text), Ok(text("7")));
    let dt = Stamp::new(Day::new(2026, 1, 2).unwrap(), 3, 4, 5, 0).unwrap();
    assert_eq!(
        convert(CellValue::DateTime(dt), DataType::Text),
        Ok(text("2026-01-02 03:04:05"))
    );
}

#[test]
fn numbers_are_never_cut() {
    assert_eq!(convert(CellValue::Int(3), DataType::Float), Ok(float(3.0)));
    let odd = (1i64 << 53) + 1;
    assert_eq!(
        convert(CellValue::Int(odd), DataType::Float),
        Err(format!("無法將 {odd} 轉為浮點數（精度損失）"))
    );
    assert!(convert(float(9223372036854775808.0), DataType::Integer).is_err());
    assert_eq!(
        convert(float(-9223372036854775808.0), DataType::Integer),
        Ok(CellValue::Int(i64::MIN))
    );
    assert!(convert(float(f64::NAN), DataType::Integer).is_err());
    assert_eq!(convert(text("2.5"), DataType::Float), Ok(float(2.5)));
    assert!(convert(text("x"), DataType::Float).is_err());
    assert!(convert(CellValue::Bool(true), DataType::Date).is_err());
}

#[test]
fn dates_are_read_in_both_notations() {
    assert_eq!(parse_date("2026-06-12"), Day::new(2026, 6, 12));
    assert_eq!(parse_date("2026/06/12"), Day::new(2026, 6, 12));
    assert_eq!(parse_date("2026-02-30"), None);
    let t = Stamp::new(Day::new(2026, 6, 12).unwrap(), 13, 30, 59, 0);
    assert_eq!(parse_datetime("2026-06-12 13:30:59"), t);
    let t = Stamp::new(Day::new(2026, 6, 12).unwrap(), 13, 30, 59, 0);
    assert_eq!(parse_datetime("2026-06-12T13:30:59"), t);
    assert_eq!(parse_datetime("2026-06-12 25:00:00"), None);
    assert!(Day::new(2025, 2, 29).is_none());
    assert!(Day::new(2024, 2, 29).is_some());
}

#[test]
fn values_as_json() {
    assert_eq!(CellValue::Null.to_json(), Json::Null);
    assert_eq!(CellValue::Int(5).to_json(), Json::Int(5));
    assert_eq!(float(f64::INFINITY).to_json(), Json::Null);
    assert_eq!(float(1.5).to_json(), Json::Float(double(1.5)));
    assert_eq!(
        CellValue::Date(Day::new(2026, 1, 2).unwrap()).to_json(),
        Json::Text("2026-01-02".to_string())
    );
}

#[test]
fn types_by_database_name() {
    assert_eq!(DataType::from_db_type("BIGINT"), DataType::Integer);
    assert_eq!(DataType::from_db_type("bit"), DataType::Bool);
    assert_eq!(DataType::from_db_type("numeric(10,2)"), DataType::Float);
    assert_eq!(DataType::from_db_type("TIMESTAMP"), DataType::DateTime);
    assert_eq!(DataType::from_db_type("date"), DataType::Date);
    assert_eq!(DataType::from_db_type("nvarchar"), DataType::Text);
}

#[test]
fn serializes_to_code_and_message() {
    let err = EluEtlError::Config("缺少 host".to_string());
    assert_eq!(err.code(), "CONFIG_ERROR");
    assert_eq!(err.message(), "設定錯誤: 缺少 host");
}

#[test]
fn every_error_has_its_code() {
    let s = || "x".to_string();
    assert_eq!(EluEtlError::Db(s()).code(), "DB_ERROR");
    assert_eq!(EluEtlError::Io(s()).code(), "IO_ERROR");
    assert_eq!(EluEtlError::NotFound(s()).code(), "NOT_FOUND");
    assert_eq!(EluEtlError::NotImplemented(s()).code(), "NOT_IMPLEMENTED");
    assert_eq!(EluEtlError::Etl(s()).code(), "ETL_ERROR");
    assert_eq!(EluEtlError::Excel(s()).code(), "EXCEL_ERROR");
    assert_eq!(EluEtlError::NotFound(s()).message(), "找不到資源: x");
}

#[test]
fn debug_and_display_never_leak() {
    let s = SecretString::new("p@ssw0rd".to_string());
    assert!(!s.debugged().contains("p@ssw0rd"));
    assert!(!s.shown().contains("p@ssw0rd"));
    assert_eq!(s.expose(), "p@ssw0rd");
}

#[test]
fn like_wildcards_case_insensitive() {
    assert!(like_match("hello", "h%o"));
    assert!(like_match("hello", "%ell%"));
    assert!(like_match("hello", "h_llo"));
    assert!(like_match("Hello", "h%"));
    assert!(like_match("abc", "abc"));
    assert!(like_match("abc", "%"));
    assert!(like_match("abc", "a%c"));
    assert!(!like_match("hello", "h_o"));
    assert!(!like_match("abc", "abcd"));
    assert!(!like_match("abc", "b%"));
}

#[test]
fn percent_in_a_value_is_an_ordinary_character() {
    assert!(like_match("50% off", "50%"));
    assert!(like_match("100%", "%"));
    assert!(like_match("%a", "%a"));
}

#[test]
fn keys_ignore_case_and_blank_cells_have_none() {
    assert_eq!(key_of(&text(" Alice@Example.com ")), key_of(&text("alice@example.COM")));
    assert_eq!(key_of(&CellValue::Null), None);
    assert_eq!(key_of_cells(&vec![text("a"), CellValue::Null], 2), None);
    let k = key_of_cells(&vec![text("a"), CellValue::Int(1)], 2).unwrap();
    assert_eq!(k, "a\u{1f}1");
    assert_eq!(key_of(&float(1.0)), key_of(&CellValue::Int(1)));
}

#[test]
fn composite_keys_match_cell_by_cell() {
    let key = |a: CellValue, b: CellValue| key_of_cells(&vec![a, b], 2);
    assert_ne!(key(text("ab"), text("c")), key(text("a"), text("bc")));
    assert_eq!(key(text("A "), text("1")), key(text("a"), CellValue::Int(1)));
}

#[test]
fn comparisons_read_numbers_and_texts() {
    assert!(eval_compare(&CellValue::Int(2), CmpOp::Lt, &text("10"), &read));
    assert!(eval_compare(&text("b"), CmpOp::Gt, &text("a"), &read));
    assert!(eval_compare(&text("ABC"), CmpOp::Eq, &text("abc"), &read));
    assert!(!eval_compare(&CellValue::Null, CmpOp::Eq, &CellValue::Int(1), &read));
}

#[test]
fn conditions_follow_logic() {
    let row = vec![CellValue::Int(5), CellValue::Null, text("  ")];
    let joins = vec![];
    let gen = GenContext::new();
    let ctx = RowCtx { row: &row, joins: &joins, gen: &gen };
    let ask = |p: &CondPlan| eval_cond_plan(p, &ctx, &read, &mut Entropy::new());
    let is = |v: i64| {
        CondPlan::Compare(ValBind::Source(0), CmpOp::Eq, ValBind::Const(CellValue::Int(v)))
    };
    assert!(ask(&is(5)) && !ask(&is(6)));
    assert!(!ask(&CondPlan::Not(Box::new(is(5)))));
    assert!(ask(&CondPlan::And(vec![is(5), is(5)])));
    assert!(!ask(&CondPlan::And(vec![is(5), is(6)])));
    assert!(ask(&CondPlan::Or(vec![is(6), is(5)])));
    assert!(!ask(&CondPlan::Or(vec![is(6), is(7)])));
    let between = |lo: i64, hi: i64, negated: bool| {
        CondPlan::Between(
            ValBind::Source(0),
            ValBind::Const(CellValue::Int(lo)),
            ValBind::Const(CellValue::Int(hi)),
            negated,
        )
    };
    assert!(ask(&between(5, 9, false)) && ask(&between(1, 5, false)));
    assert!(!ask(&between(5, 9, true)) && ask(&between(6, 9, true)));
    for blank in [1, 2] {
        let one_of = |negated: bool| {
            CondPlan::In(
                ValBind::Source(blank),
                vec![ValBind::Const(CellValue::Null), ValBind::Const(text(""))],
                negated,
            )
        };
        assert!(!ask(&one_of(false)) && ask(&one_of(true)));
        assert!(ask(&CondPlan::IsEmpty(ValBind::Source(blank), false)));
        assert!(!ask(&CondPlan::IsEmpty(ValBind::Source(blank), true)));
    }
}
