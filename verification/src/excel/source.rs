//! Which kind of file a path leads to.
use crate::models::errors::{EluEtlError, ErrorView};
use crate::paths::{
    extension, extension_fits, has_extension, known_name, name_extension, or_empty,
};
use crate::text;
use vstd::prelude::*;

verus! {

/// The kinds of source files.
#[derive(Debug, Clone, Copy, PartialEq, Eq, Structural)]
pub enum SourceKind {
    Excel,
    Csv,
}

/// The kind of a file with that extension, in lower case.
pub open spec fn extension_kind(e: Seq<char>) -> Option<SourceKind> {
    if e == "xlsx"@ || e == "xlsm"@ || e == "xls"@ || e == "xlsb"@ || e == "ods"@ {
        Some(SourceKind::Excel)
    } else if e == "csv"@ || e == "txt"@ || e == "tsv"@ {
        Some(SourceKind::Csv)
    } else {
        None
    }
}

/// The kind of a file with that extension, if it has one.
pub open spec fn kind_of(e: Option<Seq<char>>) -> Result<SourceKind, ErrorView> {
    let low = text::ascii_lower(or_empty(e));
    match extension_kind(low) {
        Some(k) => Ok(k),
        None => Err(ErrorView::Config("不支援的檔案格式: ."@ + low)),
    }
}

pub open spec fn kind_told(r: Result<SourceKind, EluEtlError>, s: Result<SourceKind, ErrorView>) -> bool {
    match r {
        Ok(k) => s == Ok::<SourceKind, ErrorView>(k),
        Err(e) => s == Err::<SourceKind, ErrorView>(e@),
    }
}

/// The kind of a file with that extension, if it has one.
pub fn kind_of_extension(e: Option<String>) -> (r: Result<SourceKind, EluEtlError>)
    ensures
        kind_told(r, kind_of(text::opt_view(e))),
{
    let ext: String = match e {
        Some(x) => x,
        None => {
            let none: String = String::new();
            assert(none@ =~= seq![]);
            none
        },
    };
    let low: String = text::to_ascii_lower(ext.as_str());
    let t: &str = low.as_str();
    if text::same(t, "xlsx") || text::same(t, "xlsm") || text::same(t, "xls") || text::same(
        t,
        "xlsb",
    ) || text::same(t, "ods") {
        Ok(SourceKind::Excel)
    } else if text::same(t, "csv") || text::same(t, "txt") || text::same(t, "tsv") {
        Ok(SourceKind::Csv)
    } else {
        Err(EluEtlError::Config(text::cat("不支援的檔案格式: .", t)))
    }
}

/// The kind of the file that a path leads to: its extension alone decides.
pub fn detect_kind(path: &str) -> (r: Result<SourceKind, EluEtlError>)
    ensures
        exists|e: Option<Seq<char>>| extension_fits(path@, e) && kind_told(r, #[trigger] kind_of(e)),
        known_name(path@) matches Some(n) ==> kind_told(r, kind_of(Some(name_extension(n)))),
        forall|x: Seq<char>| #[trigger]
            has_extension(path@, x) ==> kind_told(r, kind_of(Some(x))),
{
    let e: Option<String> = extension(path);
    let ghost v = text::opt_view(e);
    let r: Result<SourceKind, EluEtlError> = kind_of_extension(e);
    assert(extension_fits(path@, v) && kind_told(r, kind_of(v)));
    r
}

/// Where all platforms agree on the file name, or where a path ends in a plain
/// extension, that extension alone decides.
pub proof fn law_extension_decides(path: Seq<char>, x: Seq<char>, e: Option<Seq<char>>)
    requires
        has_extension(path, x) || (known_name(path) matches Some(n) && name_extension(n) == x),
        extension_fits(path, e),
    ensures
        kind_of(e) == kind_of(Some(x)),
{
}

/// The sheets of a file: those of the workbook, which only the file itself
/// tells, or the one that stands for a CSV file.
pub enum SheetNames {
    InWorkbook,
    Known(Vec<String>),
}

/// The sheets of a file of that kind; a CSV file has the one sheet `CSV`.
pub open spec fn sheets_told(r: Result<SheetNames, EluEtlError>, kind: Result<SourceKind, ErrorView>) -> bool {
    match (kind, r) {
        (Ok(SourceKind::Excel), Ok(SheetNames::InWorkbook)) => true,
        (Ok(SourceKind::Csv), Ok(SheetNames::Known(v))) => text::views(v@) == seq!["CSV"@],
        (Err(x), Err(y)) => x == y@,
        _ => false,
    }
}

/// The sheets of a file.
pub fn list_sheets(path: &str) -> (r: Result<SheetNames, EluEtlError>)
    ensures
        exists|e: Option<Seq<char>>|
            extension_fits(path@, e) && sheets_told(r, #[trigger] kind_of(e)),
        known_name(path@) matches Some(n) ==> sheets_told(r, kind_of(Some(name_extension(n)))),
        forall|x: Seq<char>| #[trigger]
            has_extension(path@, x) ==> sheets_told(r, kind_of(Some(x))),
{
    let k: Result<SourceKind, EluEtlError> = detect_kind(path);
    let ghost e = choose|e: Option<Seq<char>>|
        extension_fits(path@, e) && kind_told(k, #[trigger] kind_of(e));
    assert(extension_fits(path@, e) && kind_told(k, kind_of(e)));
    match k {
        Err(x) => Err(x),
        Ok(SourceKind::Excel) => Ok(SheetNames::InWorkbook),
        Ok(SourceKind::Csv) => {
            let mut v: Vec<String> = Vec::new();
            v.push("CSV".to_string());
            assert(text::views(v@) =~= seq!["CSV"@]);
            Ok(SheetNames::Known(v))
        },
    }
}

/// The sheet to read: the one that was asked for, or else the first.
pub open spec fn chosen_sheet(asked: Option<Seq<char>>, sheets: Seq<Seq<char>>) -> Result<
    Seq<char>,
    ErrorView,
> {
    match asked {
        Some(s) => Ok(s),
        None => if sheets.len() > 0 {
            Ok(sheets[0])
        } else {
            Err(ErrorView::Excel("來源檔沒有工作表"@))
        },
    }
}

/// The sheet to read.
pub fn resolve_sheet(asked: Option<String>, sheets: &Vec<String>) -> (r: Result<String, EluEtlError>)
    ensures
        match r {
            Ok(s) => chosen_sheet(text::opt_view(asked), text::views(sheets@)) == Ok::<
                Seq<char>,
                ErrorView,
            >(s@),
            Err(e) => chosen_sheet(text::opt_view(asked), text::views(sheets@)) == Err::<
                Seq<char>,
                ErrorView,
            >(e@),
        },
{
    match asked {
        Some(s) => Ok(s),
        None => if sheets.len() > 0 {
            Ok(sheets[0].as_str().to_string())
        } else {
            Err(EluEtlError::Excel("來源檔沒有工作表".to_string()))
        },
    }
}

/// The case of an extension does not count, and a file without one has no kind.
pub proof fn law_extensions_count_in_any_case(e: Seq<char>)
    ensures
        kind_of(Some(text::ascii_lower(e))) == kind_of(Some(e)),
        kind_of(Some(e)) is Ok <==> extension_kind(text::ascii_lower(e)) is Some,
        kind_of(None) is Err,
{
    assert(text::ascii_lower(text::ascii_lower(e)) =~= text::ascii_lower(e));
    reveal_strlit("xlsx");
    reveal_strlit("xlsm");
    reveal_strlit("xls");
    reveal_strlit("xlsb");
    reveal_strlit("ods");
    reveal_strlit("csv");
    reveal_strlit("txt");
    reveal_strlit("tsv");
    assert(text::ascii_lower(seq![]).len() == 0);
    assert("xlsx"@.len() == 4 && "xlsm"@.len() == 4 && "xls"@.len() == 3 && "xlsb"@.len() == 4
        && "ods"@.len() == 3 && "csv"@.len() == 3 && "txt"@.len() == 3 && "tsv"@.len() == 3);
}

/// A sheet that is asked for is read whatever sheets there are; else it is the first, and
/// there is none only where there are no sheets.
pub proof fn law_asked_sheet_is_read(
    s: Seq<char>,
    sheets: Seq<Seq<char>>,
    other: Seq<Seq<char>>,
)
    ensures
        chosen_sheet(Some(s), sheets) == chosen_sheet(Some(s), other),
        chosen_sheet(Some(s), sheets) == Ok::<Seq<char>, ErrorView>(s),
        sheets.len() > 0 ==> chosen_sheet(None, sheets) == Ok::<Seq<char>, ErrorView>(
            sheets.first(),
        ),
        chosen_sheet(None, sheets) is Err <==> sheets.len() == 0,
{
}

/// A file is read as text exactly where its extension is that of a text table, and as a
/// workbook exactly where it is that of one, in any case.
pub proof fn law_extensions_tell_the_kind(e: Seq<char>)
    ensures
        ({
            let low = text::ascii_lower(e);
            &&& kind_of(Some(e)) == Ok::<SourceKind, ErrorView>(SourceKind::Csv) <==> low
                == "csv"@ || low == "txt"@ || low == "tsv"@
            &&& kind_of(Some(e)) == Ok::<SourceKind, ErrorView>(SourceKind::Excel) <==> low
                == "xlsx"@ || low == "xlsm"@ || low == "xls"@ || low == "xlsb"@ || low == "ods"@
        }),
{
    reveal_strlit("xlsx");
    reveal_strlit("xlsm");
    reveal_strlit("xls");
    reveal_strlit("xlsb");
    reveal_strlit("ods");
    reveal_strlit("csv");
    reveal_strlit("txt");
    reveal_strlit("tsv");
    assert("xlsx"@.len() == 4 && "xlsm"@.len() == 4 && "xls"@.len() == 3 && "xlsb"@.len() == 4
        && "ods"@.len() == 3 && "csv"@.len() == 3 && "txt"@.len() == 3 && "tsv"@.len() == 3);
    assert("xls"@[0] == 'x' && "ods"@[0] == 'o' && "csv"@[0] == 'c' && "txt"@[0] == 't'
        && "tsv"@[0] == 't');
}

} // verus!
