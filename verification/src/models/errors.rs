//! The error that every command reports: a stable code and a message.
use crate::text;
use vstd::prelude::*;

verus! {

/// What went wrong. Messages never hold a password or a connection string.
#[derive(Debug, Clone, PartialEq)]
pub enum EluEtlError {
    Db(String),
    Io(String),
    Config(String),
    NotFound(String),
    NotImplemented(String),
    Etl(String),
    Excel(String),
}

#[verifier::ext_equal]
pub enum ErrorView {
    Db(Seq<char>),
    Io(Seq<char>),
    Config(Seq<char>),
    NotFound(Seq<char>),
    NotImplemented(Seq<char>),
    Etl(Seq<char>),
    Excel(Seq<char>),
}

impl View for EluEtlError {
    type V = ErrorView;

    open spec fn view(&self) -> ErrorView {
        match self {
            EluEtlError::Db(s) => ErrorView::Db(s@),
            EluEtlError::Io(s) => ErrorView::Io(s@),
            EluEtlError::Config(s) => ErrorView::Config(s@),
            EluEtlError::NotFound(s) => ErrorView::NotFound(s@),
            EluEtlError::NotImplemented(s) => ErrorView::NotImplemented(s@),
            EluEtlError::Etl(s) => ErrorView::Etl(s@),
            EluEtlError::Excel(s) => ErrorView::Excel(s@),
        }
    }
}

pub open spec fn error_code(e: ErrorView) -> Seq<char> {
    match e {
        ErrorView::Db(_) => "DB_ERROR"@,
        ErrorView::Io(_) => "IO_ERROR"@,
        ErrorView::Config(_) => "CONFIG_ERROR"@,
        ErrorView::NotFound(_) => "NOT_FOUND"@,
        ErrorView::NotImplemented(_) => "NOT_IMPLEMENTED"@,
        ErrorView::Etl(_) => "ETL_ERROR"@,
        ErrorView::Excel(_) => "EXCEL_ERROR"@,
    }
}

pub open spec fn error_message(e: ErrorView) -> Seq<char> {
    match e {
        ErrorView::Db(s) => "資料庫錯誤: "@ + s,
        ErrorView::Io(s) => "I/O 錯誤: "@ + s,
        ErrorView::Config(s) => "設定錯誤: "@ + s,
        ErrorView::NotFound(s) => "找不到資源: "@ + s,
        ErrorView::NotImplemented(s) => "尚未實作: "@ + s,
        ErrorView::Etl(s) => "ETL 錯誤: "@ + s,
        ErrorView::Excel(s) => "Excel 錯誤: "@ + s,
    }
}

impl EluEtlError {
    /// The stable code by which callers tell errors apart.
    pub fn code(&self) -> (r: &'static str)
        ensures
            r@ == error_code(self@),
    {
        match self {
            EluEtlError::Db(_) => "DB_ERROR",
            EluEtlError::Io(_) => "IO_ERROR",
            EluEtlError::Config(_) => "CONFIG_ERROR",
            EluEtlError::NotFound(_) => "NOT_FOUND",
            EluEtlError::NotImplemented(_) => "NOT_IMPLEMENTED",
            EluEtlError::Etl(_) => "ETL_ERROR",
            EluEtlError::Excel(_) => "EXCEL_ERROR",
        }
    }

    /// The message for people.
    pub fn message(&self) -> (r: String)
        ensures
            r@ == error_message(self@),
    {
        match self {
            EluEtlError::Db(s) => text::cat("資料庫錯誤: ", s.as_str()),
            EluEtlError::Io(s) => text::cat("I/O 錯誤: ", s.as_str()),
            EluEtlError::Config(s) => text::cat("設定錯誤: ", s.as_str()),
            EluEtlError::NotFound(s) => text::cat("找不到資源: ", s.as_str()),
            EluEtlError::NotImplemented(s) => text::cat("尚未實作: ", s.as_str()),
            EluEtlError::Etl(s) => text::cat("ETL 錯誤: ", s.as_str()),
            EluEtlError::Excel(s) => text::cat("Excel 錯誤: ", s.as_str()),
        }
    }
}

/// The message `第 N 行：…` of an error at a line of a script.
pub open spec fn line_message(line: usize, rest: Seq<char>) -> Seq<char> {
    "第 "@ + text::nat_text(line as nat) + " 行："@ + rest
}

/// The error `第 N 行：…` at a line of a script.
pub fn at_line(line: usize, rest: &str) -> (r: EluEtlError)
    ensures
        r@ == ErrorView::Etl(line_message(line, rest@)),
{
    EluEtlError::Etl(text::cat4("第 ", text::usize_text(line).as_str(), " 行：", rest))
}

/// Errors of different kinds have different codes, whatever they say.
pub proof fn law_codes_tell_kinds_apart(a: ErrorView, b: ErrorView)
    ensures
        error_code(a) == error_code(b) <==> kind_number(a) == kind_number(b),
{
    reveal_strlit("DB_ERROR");
    reveal_strlit("IO_ERROR");
    reveal_strlit("CONFIG_ERROR");
    reveal_strlit("NOT_FOUND");
    reveal_strlit("NOT_IMPLEMENTED");
    reveal_strlit("ETL_ERROR");
    reveal_strlit("EXCEL_ERROR");
    assert("DB_ERROR"@.len() == 8 && "IO_ERROR"@.len() == 8 && "CONFIG_ERROR"@.len() == 12
        && "NOT_FOUND"@.len() == 9 && "NOT_IMPLEMENTED"@.len() == 15 && "ETL_ERROR"@.len() == 9
        && "EXCEL_ERROR"@.len() == 11);
    assert("DB_ERROR"@[0] == 'D' && "IO_ERROR"@[0] == 'I' && "NOT_FOUND"@[0] == 'N'
        && "ETL_ERROR"@[0] == 'E');
}

/// Which kind an error is of.
pub open spec fn kind_number(e: ErrorView) -> int {
    match e {
        ErrorView::Db(_) => 0,
        ErrorView::Io(_) => 1,
        ErrorView::Config(_) => 2,
        ErrorView::NotFound(_) => 3,
        ErrorView::NotImplemented(_) => 4,
        ErrorView::Etl(_) => 5,
        ErrorView::Excel(_) => 6,
    }
}

/// What an error says stands at the end of its message, and the message at a line of a
/// script tells the line and ends with the rest.
pub proof fn law_messages_end_with_what_is_said(s: Seq<char>, line: usize)
    ensures
        s.is_suffix_of(error_message(ErrorView::Db(s))),
        s.is_suffix_of(error_message(ErrorView::Io(s))),
        s.is_suffix_of(error_message(ErrorView::Config(s))),
        s.is_suffix_of(error_message(ErrorView::NotFound(s))),
        s.is_suffix_of(error_message(ErrorView::NotImplemented(s))),
        s.is_suffix_of(error_message(ErrorView::Etl(s))),
        s.is_suffix_of(error_message(ErrorView::Excel(s))),
        s.is_suffix_of(line_message(line, s)),
        line_message(line, s).skip("第 "@.len() as int).take(
            text::nat_text(line as nat).len() as int,
        ) == text::nat_text(line as nat),
{
    let n = text::nat_text(line as nat);
    let m = line_message(line, s);
    assert(m.skip("第 "@.len() as int).take(n.len() as int) =~= n);
}

} // verus!
