use elu_etl::double::Real;
use elu_etl::etl::mapping::SourceSpec;
use elu_etl::etl::source_input::{fingerprint, header_from_rows, SourceData};
use elu_etl::excel::csv_reader::{self, detect_encoding_name, resolve_encoding};
use elu_etl::excel::preview::{preview_file, preview_query};
use elu_etl::excel::reader::{self, SheetCell};
use elu_etl::excel::schema_infer::{infer_types, merge};
use elu_etl::excel::source::{
    detect_kind, kind_of_extension, list_sheets, resolve_sheet, SheetNames, SourceKind,
};
use elu_etl::excel::writer::{lay_out, Ink};
use elu_etl::models::calendar::{Day, Stamp};
use elu_etl::models::errors::EluEtlError;
use elu_etl::models::value::{CellValue, DataType, Json};

fn double(v: f64) -> Real {
    Real { bits: v.to_bits(), text: v.to_string(), json: v.to_string() }
}

fn read(s: String) -> Option<Real> {
    s.parse().ok().map(double)
}

fn text(s: &str) -> CellValue {
    CellValue::Text(s.to_string())
}

fn parse_cell(s: &str) -> CellValue {
    csv_reader::parse_cell(s, &read)
}

#[test]
fn parses_typed_cells() {
    assert_eq!(parse_cell("42"), CellValue::Int(42));
    assert_eq!(parse_cell("3.5"), CellValue::Float(double(3.5)));
    assert_eq!(parse_cell("TRUE"), CellValue::Bool(true));
    assert_eq!(parse_cell(""), CellValue::Null);
    assert_eq!(parse_cell("007"), text("007"));
    assert_eq!(parse_cell("0.5"), CellValue::Float(double(0.5)));
    assert!(matches!(parse_cell("2026-06-12"), CellValue::Date(_)));
}

#[test]
fn more_typed_cells() {
    assert_eq!(parse_cell("  x  "), text("x"));
    assert_eq!(parse_cell("false"), CellValue::Bool(false));
    assert_eq!(parse_cell("inf"), text("inf"));
    assert_eq!(parse_cell("0"), CellValue::Int(0));
    assert!(matches!(parse_cell("2026-06-12 10:20:30"), CellValue::DateTime(_)));
}

#[test]
fn decodes_big5_csv() {
    let (encoded, _, _) = encoding_rs::BIG5.encode("姓名,部門\n王小明,財務部\n");
    let rows = csv_reader::read_rows(&encoded.to_vec(), None, &read).unwrap();
    assert_eq!(rows[0][0], text("姓名"));
    assert_eq!(rows[1][1], text("財務部"));
}

#[test]
fn explicit_encoding_override() {
    let (encoded, _, _) = encoding_rs::BIG5.encode("中文\n");
    let rows = csv_reader::read_rows(&encoded.to_vec(), Some("Big5"), &read).unwrap();
    assert_eq!(rows[0][0], text("中文"));
}

#[test]
fn encodings_are_named() {
    let marked = vec![0xEF, 0xBB, 0xBF, b'a'];
    assert_eq!(detect_encoding_name(&marked).unwrap(), "UTF-8");
    assert_eq!(detect_encoding_name(&vec![0xFF, 0xFE, b'a', 0]).unwrap(), "UTF-16LE");
    assert_eq!(detect_encoding_name(&vec![0xFE, 0xFF, 0, b'a']).unwrap(), "UTF-16BE");
    assert_eq!(resolve_encoding(&marked, Some("big5")).unwrap(), "Big5");
    assert_eq!(
        resolve_encoding(&marked, Some("nothing")),
        Err(EluEtlError::Config("未知的編碼: nothing".to_string()))
    );
    let rows = csv_reader::read_rows(&vec![0xFF, 0xFE, b'7', 0], None, &read).unwrap();
    assert_eq!(rows, vec![vec![CellValue::Int(7)]]);
}

#[test]
fn csv_records_may_differ_in_length() {
    let bytes = b"a,\"b,c\"\n1\n".to_vec();
    let rows = csv_reader::read_rows(&bytes, Some("utf-8"), &read).unwrap();
    assert_eq!(rows, vec![vec![text("a"), text("b,c")], vec![CellValue::Int(1)]]);
}

#[test]
fn votes_types() {
    let rows = vec![
        vec![CellValue::Int(1), text("a"), CellValue::Null],
        vec![CellValue::Float(double(2.5)), text("b"), CellValue::Null],
    ];
    let t = infer_types(&rows, 100);
    assert_eq!(t[0], Some(DataType::Float));
    assert_eq!(t[1], Some(DataType::Text));
    assert_eq!(t[2], None);
}

#[test]
fn mixed_becomes_text() {
    let rows = vec![vec![CellValue::Int(1)], vec![text("x")]];
    assert_eq!(infer_types(&rows, 100)[0], Some(DataType::Text));
}

#[test]
fn only_the_sample_votes() {
    let day = Day::new(2026, 1, 1).unwrap();
    let rows = vec![
        vec![CellValue::Date(day)],
        vec![CellValue::DateTime(day.at_midnight())],
        vec![text("x"), CellValue::Int(1)],
    ];
    assert_eq!(infer_types(&rows, 1), vec![Some(DataType::Date), None]);
    assert_eq!(infer_types(&rows, 2), vec![Some(DataType::DateTime), None]);
    assert_eq!(infer_types(&rows, 9), vec![Some(DataType::Text), Some(DataType::Integer)]);
}

#[test]
fn kinds_by_extension() {
    assert_eq!(detect_kind("dir/a.XLSX"), Ok(SourceKind::Excel));
    assert_eq!(detect_kind("a.b.csv"), Ok(SourceKind::Csv));
    assert_eq!(
        detect_kind("a.doc"),
        Err(EluEtlError::Config("不支援的檔案格式: .doc".to_string()))
    );
    assert_eq!(detect_kind("plain"), Err(EluEtlError::Config("不支援的檔案格式: .".to_string())));
    assert_eq!(kind_of_extension(Some("Ods".to_string())), Ok(SourceKind::Excel));
    assert!(matches!(list_sheets("a.csv"), Ok(SheetNames::Known(v)) if v == vec!["CSV"]));
    assert!(matches!(list_sheets("a.xls"), Ok(SheetNames::InWorkbook)));
    assert!(list_sheets("a.doc").is_err());
}

#[test]
fn first_sheet_unless_asked() {
    let sheets = vec!["S1".to_string(), "S2".to_string()];
    assert_eq!(resolve_sheet(None, &sheets), Ok("S1".to_string()));
    assert_eq!(resolve_sheet(Some("S2".to_string()), &sheets), Ok("S2".to_string()));
    assert_eq!(
        resolve_sheet(None, &vec![]),
        Err(EluEtlError::Excel("來源檔沒有工作表".to_string()))
    );
}

#[test]
fn workbook_cells() {
    let t = Stamp::new(Day::new(2026, 6, 12).unwrap(), 10, 30, 0, 0).unwrap();
    let rows = reader::read_rows(vec![vec![
        SheetCell::Empty,
        SheetCell::Text(String::new()),
        SheetCell::Text("x".to_string()),
        SheetCell::Float(double(1.0)),
        SheetCell::DateTime(Some(t)),
        SheetCell::DateTime(None),
        SheetCell::DateTimeIso("2026-06-12T10:30:00".to_string()),
        SheetCell::DateTimeIso("soon".to_string()),
        SheetCell::DurationIso("PT1H".to_string()),
        SheetCell::Error,
    ]]);
    assert_eq!(
        rows,
        vec![vec![
            CellValue::Null,
            CellValue::Null,
            text("x"),
            CellValue::Float(double(1.0)),
            CellValue::DateTime(t),
            CellValue::Null,
            CellValue::DateTime(t),
            text("soon"),
            text("PT1H"),
            CellValue::Null,
        ]]
    );
}

#[test]
fn sheets_are_laid_out() {
    let columns = vec!["id".to_string(), "name".to_string()];
    let rows = vec![
        vec![CellValue::Int(1), text("a")],
        vec![CellValue::Null, text("b")],
    ];
    let (marks, n) = lay_out(&columns, &rows).unwrap();
    assert_eq!(n, 2);
    let places: Vec<(u32, u16)> = marks.iter().map(|m| (m.row, m.col)).collect();
    assert_eq!(places, vec![(0, 0), (0, 1), (1, 0), (1, 1), (2, 1)]);
    assert!(matches!(&marks[0].ink, Ink::Heading(s) if s == "id"));
    assert!(matches!(&marks[4].ink, Ink::Value(CellValue::Text(s)) if s == "b"));
    let wide = vec![vec![CellValue::Null; 65537]];
    assert!(matches!(lay_out(&columns, &wide), Err(EluEtlError::Excel(_))));
}

#[test]
fn headers_and_numbered_columns() {
    let mut rows = vec![
        vec![text("a"), CellValue::Null, CellValue::Int(3)],
        vec![CellValue::Int(1)],
    ];
    assert_eq!(header_from_rows(&mut rows, true), vec!["a", "欄位2", "欄位3"]);
    assert_eq!(rows.len(), 1);
    assert_eq!(header_from_rows(&mut rows, false), vec!["欄位1"]);
    assert_eq!(rows.len(), 1);
    let data = SourceData::from_file(vec![vec![text("h")], vec![text("v")]], true);
    assert_eq!((data.first_data_row, data.rows.len()), (2, 1));
    let data = SourceData::from_query(vec!["c".to_string()], vec![]);
    assert_eq!(data.first_data_row, 1);
}

#[test]
fn previews_show_types_and_rows() {
    let mut rows = vec![vec![text("n"), CellValue::Int(5), CellValue::Null]];
    for i in 0..150 {
        rows.push(vec![CellValue::Int(i), text("x")]);
    }
    let p = preview_file(rows, true, Some("Big5".to_string()));
    assert_eq!(p.total_rows, 150);
    assert_eq!(p.rows.len(), 100);
    assert_eq!(p.rows[1], vec![Json::Int(1), Json::Text("x".to_string())]);
    let names: Vec<&str> = p.columns.iter().map(|c| c.name.as_str()).collect();
    assert_eq!(names, vec!["n", "5", "欄位3"]);
    assert_eq!(p.columns[0].inferred_type, Some(DataType::Integer));
    assert_eq!(p.columns[2].inferred_type, None);
    assert_eq!(p.encoding.as_deref(), Some("Big5"));
    let q = preview_query(
        vec!["a".to_string()],
        &vec![vec![CellValue::Bool(true)]],
        "SELECT 1".to_string(),
    );
    assert_eq!(q.columns[0].inferred_type, Some(DataType::Bool));
    assert_eq!(q.rows, vec![vec![Json::Bool(true)]]);
}

#[test]
fn fingerprints_and_labels() {
    let file = SourceSpec::File {
        path: "report.csv".to_string(),
        sheet: "CSV".to_string(),
        has_header: true,
        encoding: None,
    };
    assert_eq!(
        fingerprint(&file, &b"abc".to_vec()),
        "ba7816bf8f01cfea414140de5dae2223b00361a396177a9cb410ff61f20015ad"
    );
    assert_eq!(file.label(), "report.csv");
    let nested = SourceSpec::File {
        path: "dir/report.csv".to_string(),
        sheet: "CSV".to_string(),
        has_header: true,
        encoding: None,
    };
    assert_eq!(nested.label(), "report.csv");
    let a = SourceSpec::Database { conn_id: 1, query: " SELECT 1 ".to_string() };
    let b = SourceSpec::Database { conn_id: 2, query: " SELECT 1 ".to_string() };
    assert_eq!(a.label(), "DB 查詢（SELECT 1）");
    assert_ne!(fingerprint(&a, &vec![]), fingerprint(&b, &vec![]));
    assert_eq!(fingerprint(&a, &vec![]), fingerprint(&a, &vec![1]));
}

#[test]
fn names_without_a_stem_or_an_extension() {
    let none = Err(EluEtlError::Config("不支援的檔案格式: .".to_string()));
    assert_eq!(detect_kind(".csv"), none);
    assert_eq!(detect_kind("a."), none);
    assert_eq!(detect_kind("dir.csv/a"), none);
    assert_eq!(detect_kind("a.csv/.."), none);
    assert_eq!(detect_kind("/"), none);
    assert_eq!(detect_kind(""), none);
    assert_eq!(detect_kind("a.csv/"), Ok(SourceKind::Csv));
    assert_eq!(detect_kind("a.csv/."), Ok(SourceKind::Csv));
    assert_eq!(detect_kind("./..xls"), Ok(SourceKind::Excel));
    assert!(list_sheets(".csv").is_err());
}

#[test]
fn a_label_is_the_name_behind_the_folder() {
    let label = |path: &str| {
        let file = SourceSpec::File {
            path: path.to_string(),
            sheet: "S".to_string(),
            has_header: false,
            encoding: None,
        };
        file.label()
    };
    assert_eq!(label("/data/2026/in.xlsx"), "in.xlsx");
    assert_eq!(label("data/in.xlsx/"), "in.xlsx");
    assert_eq!(label("data/.."), "data/..");
    assert_eq!(label("/"), "/");
}

#[test]
fn types_merge_in_any_order() {
    let all = [
        DataType::Integer,
        DataType::Float,
        DataType::Text,
        DataType::Bool,
        DataType::DateTime,
        DataType::Date,
    ];
    for a in all {
        assert_eq!(merge(None, a), a);
        assert_eq!(merge(Some(a), a), a);
        assert_eq!(merge(Some(a), DataType::Text), DataType::Text);
        for b in all {
            assert_eq!(merge(Some(a), b), merge(Some(b), a));
        }
    }
    assert_eq!(merge(Some(DataType::Integer), DataType::Float), DataType::Float);
    assert_eq!(merge(Some(DataType::Date), DataType::DateTime), DataType::DateTime);
    assert_eq!(merge(Some(DataType::Bool), DataType::Integer), DataType::Text);
    let up = vec![vec![CellValue::Int(1)], vec![CellValue::Null], vec![CellValue::Bool(true)]];
    let down: Vec<Vec<CellValue>> = up.iter().rev().cloned().collect();
    assert_eq!(infer_types(&up, 9), infer_types(&down, 9));
}
