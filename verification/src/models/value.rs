//! Cell values that pass between files and databases, and their conversions.
use crate::double::{
    ask, as_i64, finite, is_finite, is_reader, reading, to_i64, Real, RealView, Reading,
};
use crate::etl::script::alias::lemma_nat_text;
use crate::etl::script::readback::values::lemma_int_text;
use crate::models::calendar::{
    date_read, day_ok, day_text, lemma_day_shape, lemma_stamp_shape, midnight, parse_date,
    parse_datetime, stamp_ok, stamp_read, stamp_text, Day, DayView, Stamp, StampView,
};
use crate::text;
use vstd::prelude::*;

verus! {

/// The common data types.
#[derive(Debug, Clone, Copy, PartialEq, Eq, Structural)]
pub enum DataType {
    Integer,
    Float,
    Text,
    Bool,
    DateTime,
    Date,
}

/// `part` occurs in `s`.
pub open spec fn has_part(s: Seq<char>, part: Seq<char>) -> bool {
    exists|i: int|
        0 <= i && i + part.len() <= s.len() && #[trigger] s.subrange(i, i + part.len()) == part
}

/// The common type of a database type name in lower case.
pub open spec fn db_data_type(t: Seq<char>) -> DataType {
    if has_part(t, "bool"@) || t == "bit"@ {
        DataType::Bool
    } else if has_part(t, "int"@) || has_part(t, "serial"@) || t == "year"@ {
        DataType::Integer
    } else if has_part(t, "decimal"@) || has_part(t, "numeric"@) || has_part(t, "real"@)
        || has_part(t, "double"@) || has_part(t, "float"@) || has_part(t, "money"@) {
        DataType::Float
    } else if has_part(t, "datetime"@) || has_part(t, "timestamp"@) {
        DataType::DateTime
    } else if t == "date"@ {
        DataType::Date
    } else {
        DataType::Text
    }
}

/// Whether `part` occurs in the text.
pub fn contains_part(s: &str, part: &str) -> (r: bool)
    ensures
        r == has_part(s@, part@),
{
    let a: Vec<char> = text::chars_of(s);
    let b: Vec<char> = text::chars_of(part);
    if b.len() > a.len() {
        return false;
    }
    let last: usize = a.len() - b.len();
    let mut i: usize = 0;
    loop
        invariant
            i <= last,
            last == a@.len() - b@.len(),
            last + b@.len() <= usize::MAX,
            a@ == s@,
            b@ == part@,
            forall|k: int| 0 <= k < i ==> #[trigger] s@.subrange(k, k + part@.len()) != part@,
        decreases last - i,
    {
        let mut j: usize = 0;
        while j < b.len() && a[i + j] == b[j]
            invariant
                i <= last,
                j <= b@.len(),
                last == a@.len() - b@.len(),
                last + b@.len() <= usize::MAX,
                a@ == s@,
                b@ == part@,
                forall|k: int| 0 <= k < j ==> #[trigger] b@[k] == a@[i + k],
            decreases b@.len() - j,
        {
            j += 1;
        }
        if j == b.len() {
            assert(s@.subrange(i as int, i + part@.len()) =~= part@);
            return true;
        }
        assert(s@.subrange(i as int, i + part@.len())[j as int] != part@[j as int]);
        if i == last {
            assert forall|k: int| 0 <= k && k + part@.len() <= s@.len() implies #[trigger] s@.subrange(
                k,
                k + part@.len(),
            ) != part@ by {}
            return false;
        }
        i += 1;
    }
}

impl DataType {
    /// The common type of a database type name.
    pub fn from_db_type(db_type: &str) -> (r: DataType)
        ensures
            r == db_data_type(text::lower(db_type@)),
    {
        let low: String = text::to_lower(db_type);
        let t: &str = low.as_str();
        if contains_part(t, "bool") || text::same(t, "bit") {
            DataType::Bool
        } else if contains_part(t, "int") || contains_part(t, "serial") || text::same(t, "year") {
            DataType::Integer
        } else if contains_part(t, "decimal") || contains_part(t, "numeric") || contains_part(
            t,
            "real",
        ) || contains_part(t, "double") || contains_part(t, "float") || contains_part(t, "money") {
            DataType::Float
        } else if contains_part(t, "datetime") || contains_part(t, "timestamp") {
            DataType::DateTime
        } else if text::same(t, "date") {
            DataType::Date
        } else {
            DataType::Text
        }
    }

    /// The name of the type.
    pub fn name(&self) -> (r: &'static str)
        ensures
            r@ == kind_name(*self),
    {
        match self {
            DataType::Integer => "Integer",
            DataType::Float => "Float",
            DataType::Text => "Text",
            DataType::Bool => "Bool",
            DataType::DateTime => "DateTime",
            DataType::Date => "Date",
        }
    }
}

pub open spec fn kind_name(t: DataType) -> Seq<char> {
    match t {
        DataType::Integer => "Integer"@,
        DataType::Float => "Float"@,
        DataType::Text => "Text"@,
        DataType::Bool => "Bool"@,
        DataType::DateTime => "DateTime"@,
        DataType::Date => "Date"@,
    }
}

/// A cell of a sheet, a CSV file or a result set.
#[derive(Debug, Clone, PartialEq)]
pub enum CellValue {
    Null,
    Int(i64),
    Float(Real),
    Text(String),
    Bool(bool),
    DateTime(Stamp),
    Date(Day),
}

#[verifier::ext_equal]
pub enum CellView {
    Null,
    Int(i64),
    Float(RealView),
    Text(Seq<char>),
    Bool(bool),
    DateTime(StampView),
    Date(DayView),
}

impl View for CellValue {
    type V = CellView;

    open spec fn view(&self) -> CellView {
        match self {
            CellValue::Null => CellView::Null,
            CellValue::Int(v) => CellView::Int(*v),
            CellValue::Float(v) => CellView::Float(v@),
            CellValue::Text(v) => CellView::Text(v@),
            CellValue::Bool(v) => CellView::Bool(*v),
            CellValue::DateTime(v) => CellView::DateTime(v@),
            CellValue::Date(v) => CellView::Date(v@),
        }
    }
}

/// The cells of a row.
pub open spec fn row_view(v: Seq<CellValue>) -> Seq<CellView> {
    Seq::new(v.len(), |i: int| v[i]@)
}

/// The cells of each row.
pub open spec fn rows_view(v: Seq<Vec<CellValue>>) -> Seq<Seq<CellView>> {
    Seq::new(v.len(), |i: int| row_view(v[i]@))
}

/// The type of a value; NULL has none.
pub open spec fn cell_type(c: CellView) -> Option<DataType> {
    match c {
        CellView::Null => None,
        CellView::Int(_) => Some(DataType::Integer),
        CellView::Float(_) => Some(DataType::Float),
        CellView::Text(_) => Some(DataType::Text),
        CellView::Bool(_) => Some(DataType::Bool),
        CellView::DateTime(_) => Some(DataType::DateTime),
        CellView::Date(_) => Some(DataType::Date),
    }
}

pub open spec fn bool_text(b: bool) -> Seq<char> {
    if b {
        "true"@
    } else {
        "false"@
    }
}

/// A value as text; NULL is empty.
pub open spec fn cell_text(c: CellView) -> Seq<char> {
    match c {
        CellView::Null => seq![],
        CellView::Int(v) => text::int_text(v as int),
        CellView::Float(v) => v.text,
        CellView::Text(v) => v,
        CellView::Bool(v) => bool_text(v),
        CellView::DateTime(v) => stamp_text(v),
        CellView::Date(v) => day_text(v),
    }
}

/// A value as JSON. A double that JSON cannot write is null.
#[derive(Debug, Clone, PartialEq)]
pub enum Json {
    Null,
    Int(i64),
    Float(Real),
    Text(String),
    Bool(bool),
}

#[verifier::ext_equal]
pub enum JsonView {
    Null,
    Int(i64),
    Float(RealView),
    Text(Seq<char>),
    Bool(bool),
}

impl View for Json {
    type V = JsonView;

    open spec fn view(&self) -> JsonView {
        match self {
            Json::Null => JsonView::Null,
            Json::Int(v) => JsonView::Int(*v),
            Json::Float(v) => JsonView::Float(v@),
            Json::Text(v) => JsonView::Text(v@),
            Json::Bool(v) => JsonView::Bool(*v),
        }
    }
}

pub open spec fn cell_json(c: CellView) -> JsonView {
    match c {
        CellView::Null => JsonView::Null,
        CellView::Int(v) => JsonView::Int(v),
        CellView::Float(v) => if is_finite(v.bits) {
            JsonView::Float(v)
        } else {
            JsonView::Null
        },
        CellView::Text(v) => JsonView::Text(v),
        CellView::Bool(v) => JsonView::Bool(v),
        CellView::DateTime(v) => JsonView::Text(stamp_text(v)),
        CellView::Date(v) => JsonView::Text(day_text(v)),
    }
}

/// The outcome of a conversion: the value, or why there is none.
pub type Converted = Result<CellView, Seq<char>>;

pub open spec fn to_integer(c: CellView) -> Converted {
    match c {
        CellView::Int(v) => Ok(CellView::Int(v)),
        CellView::Float(v) => match as_i64(v.bits) {
            Some(i) => Ok(CellView::Int(i)),
            None => Err("無法將 "@ + v.text + " 轉為整數（非整數或溢位）"@),
        },
        CellView::Text(s) => match text::read_i64(text::trim(s)) {
            Some(i) => Ok(CellView::Int(i)),
            None => Err("無法將「"@ + s + "」解析為整數"@),
        },
        CellView::Bool(b) => Ok(
            CellView::Int(
                if b {
                    1
                } else {
                    0
                },
            ),
        ),
        other => Err(unsupported(other, DataType::Integer)),
    }
}

/// The double that an integer is, where there is one.
pub open spec fn exact_real(v: i64, rd: Reading) -> Option<RealView> {
    match rd(text::int_text(v as int)) {
        Some(r) => if as_i64(r.bits) == Some(v) {
            Some(r)
        } else {
            None
        },
        None => None,
    }
}

pub open spec fn to_float(c: CellView, rd: Reading) -> Converted {
    match c {
        CellView::Float(v) => Ok(CellView::Float(v)),
        CellView::Int(v) => match exact_real(v, rd) {
            Some(r) => Ok(CellView::Float(r)),
            None => Err("無法將 "@ + text::int_text(v as int) + " 轉為浮點數（精度損失）"@),
        },
        CellView::Text(s) => match rd(text::trim(s)) {
            Some(r) => Ok(CellView::Float(r)),
            None => Err("無法將「"@ + s + "」解析為浮點數"@),
        },
        other => Err(unsupported(other, DataType::Float)),
    }
}

pub open spec fn to_bool(c: CellView) -> Converted {
    match c {
        CellView::Bool(v) => Ok(CellView::Bool(v)),
        CellView::Int(v) => if v == 0 {
            Ok(CellView::Bool(false))
        } else if v == 1 {
            Ok(CellView::Bool(true))
        } else {
            Err("無法將 "@ + text::int_text(v as int) + " 轉為布林（僅接受 0/1）"@)
        },
        CellView::Text(s) => {
            let t = text::ascii_lower(text::trim(s));
            if t == "true"@ || t == "1"@ {
                Ok(CellView::Bool(true))
            } else if t == "false"@ || t == "0"@ {
                Ok(CellView::Bool(false))
            } else {
                Err("無法將「"@ + s + "」解析為布林"@)
            }
        },
        other => Err(unsupported(other, DataType::Bool)),
    }
}

pub open spec fn to_stamp(c: CellView) -> Converted {
    match c {
        CellView::DateTime(v) => Ok(CellView::DateTime(v)),
        CellView::Date(d) => Ok(CellView::DateTime(midnight(d))),
        CellView::Text(s) => match stamp_read(text::trim(s)) {
            Some(t) => Ok(CellView::DateTime(t)),
            None => Err("無法將「"@ + s + "」解析為日期時間"@),
        },
        other => Err(unsupported(other, DataType::DateTime)),
    }
}

pub open spec fn to_day(c: CellView) -> Converted {
    match c {
        CellView::Date(v) => Ok(CellView::Date(v)),
        CellView::DateTime(t) => Ok(CellView::Date(t.date)),
        CellView::Text(s) => match date_read(text::trim(s)) {
            Some(d) => Ok(CellView::Date(d)),
            None => Err("無法將「"@ + s + "」解析為日期"@),
        },
        other => Err(unsupported(other, DataType::Date)),
    }
}

pub open spec fn unsupported(c: CellView, t: DataType) -> Seq<char> {
    "不支援 "@ + (match cell_type(c) {
        Some(x) => "Some("@ + kind_name(x) + ")"@,
        None => "None"@,
    }) + " → "@ + kind_name(t) + " 的轉換"@
}

/// The conversion of a value to a type. NULL stays NULL.
pub open spec fn convert(c: CellView, t: DataType, rd: Reading) -> Converted {
    if c is Null {
        Ok(CellView::Null)
    } else {
        match t {
            DataType::Integer => to_integer(c),
            DataType::Float => to_float(c, rd),
            DataType::Text => Ok(CellView::Text(cell_text(c))),
            DataType::Bool => to_bool(c),
            DataType::DateTime => to_stamp(c),
            DataType::Date => to_day(c),
        }
    }
}

/// A conversion did what it should.
pub open spec fn converted(r: Result<CellValue, String>, s: Converted) -> bool {
    match r {
        Ok(v) => s == Ok::<CellView, Seq<char>>(v@),
        Err(e) => s == Err::<CellView, Seq<char>>(e@),
    }
}

/// A number that is converted keeps its value: a whole number becomes the
/// double or the integer that is the same number, or the conversion fails.
pub proof fn law_numbers_keep_their_value(v: i64, x: RealView, rd: Reading)
    ensures
        convert(CellView::Int(v), DataType::Float, rd) matches Ok(CellView::Float(r))
            ==> as_i64(r.bits) == Some(v),
        convert(CellView::Float(x), DataType::Integer, rd) matches Ok(CellView::Int(i))
            ==> as_i64(x.bits) == Some(i),
        as_i64(x.bits) is None ==> convert(CellView::Float(x), DataType::Integer, rd) is Err,
        convert(CellView::Int(v), DataType::Bool, rd) matches Ok(CellView::Bool(b)) ==> v == (if b {
            1int
        } else {
            0int
        }),
{
}

/// A conversion that succeeds gives NULL for NULL and else a value of the type asked for.
pub proof fn law_conversion_reaches_its_type(c: CellView, t: DataType, rd: Reading)
    ensures
        convert(CellView::Null, t, rd) == Ok::<CellView, Seq<char>>(CellView::Null),
        c !is Null ==> (convert(c, t, rd) matches Ok(v) ==> cell_type(v) == Some(t)),
        c !is Null && cell_type(c) == Some(t) ==> convert(c, t, rd) == Ok::<CellView, Seq<char>>(c),
{
}

/// What is converted and converted back is the value again: an integer through text
/// or, where it can be, through a double, a truth value through text or an integer,
/// and a date through its midnight.
pub proof fn law_conversions_come_back(i: i64, b: bool, d: DayView, rd: Reading)
    ensures
        convert(CellView::Int(i), DataType::Text, rd) matches Ok(t) && convert(
            t,
            DataType::Integer,
            rd,
        ) == Ok::<CellView, Seq<char>>(CellView::Int(i)),
        convert(CellView::Int(i), DataType::Float, rd) matches Ok(f) ==> convert(
            f,
            DataType::Integer,
            rd,
        ) == Ok::<CellView, Seq<char>>(CellView::Int(i)),
        convert(CellView::Bool(b), DataType::Text, rd) matches Ok(t) && convert(
            t,
            DataType::Bool,
            rd,
        ) == Ok::<CellView, Seq<char>>(CellView::Bool(b)),
        convert(CellView::Bool(b), DataType::Integer, rd) matches Ok(n) && convert(
            n,
            DataType::Bool,
            rd,
        ) == Ok::<CellView, Seq<char>>(CellView::Bool(b)),
        convert(CellView::Date(d), DataType::DateTime, rd) matches Ok(t) && convert(
            t,
            DataType::Date,
            rd,
        ) == Ok::<CellView, Seq<char>>(CellView::Date(d)),
{
    let s = text::int_text(i as int);
    lemma_int_text(i);
    if i < 0 {
        lemma_nat_text((-i) as nat);
        assert(s.last() == text::nat_text((-i) as nat).last());
    } else {
        lemma_nat_text(i as nat);
    }
    text::lemma_trimmed(s);
    reveal_strlit("true");
    reveal_strlit("false");
    reveal_strlit("1");
    reveal_strlit("0");
    text::lemma_trimmed(bool_text(b));
    assert(text::ascii_lower(bool_text(b)) =~= bool_text(b));
    assert("true"@.len() == 4 && "false"@.len() == 5 && "1"@.len() == 1 && "0"@.len() == 1);
}

/// Dates and times come back from their text, given that they are read as they were
/// written, and the date of a date and time is its day.
pub proof fn law_dates_come_back(d: DayView, t: StampView, rd: Reading)
    requires
        day_ok(d),
        stamp_ok(t),
        date_read(day_text(d)) == Some(d),
        stamp_read(stamp_text(t)) == Some(t),
    ensures
        convert(CellView::Date(d), DataType::Text, rd) matches Ok(s) && convert(
            s,
            DataType::Date,
            rd,
        ) == Ok::<CellView, Seq<char>>(CellView::Date(d)),
        convert(CellView::DateTime(t), DataType::Text, rd) matches Ok(s) && convert(
            s,
            DataType::DateTime,
            rd,
        ) == Ok::<CellView, Seq<char>>(CellView::DateTime(t)),
        convert(CellView::DateTime(t), DataType::Date, rd) == Ok::<CellView, Seq<char>>(
            CellView::Date(t.date),
        ),
{
    lemma_day_shape(d);
    lemma_stamp_shape(t);
}

/// White space around a text does not count where it is converted to another type,
/// and a text that stands for no such value is refused.
pub proof fn law_white_space_is_not_converted(s: Seq<char>, t: DataType, rd: Reading)
    requires
        t != DataType::Text,
    ensures
        convert(CellView::Text(s), t, rd) is Ok <==> convert(
            CellView::Text(text::trim(s)),
            t,
            rd,
        ) is Ok,
        convert(CellView::Text(s), t, rd) matches Ok(v) ==> convert(
            CellView::Text(text::trim(s)),
            t,
            rd,
        ) == Ok::<CellView, Seq<char>>(v),
        convert(CellView::Text(s), DataType::Integer, rd) is Ok <==> text::read_i64(
            text::trim(s),
        ) is Some,
        convert(CellView::Text(s), DataType::Float, rd) is Ok <==> rd(text::trim(s)) is Some,
        convert(CellView::Text(s), DataType::Date, rd) is Ok <==> date_read(text::trim(s)) is Some,
        convert(CellView::Text(s), DataType::DateTime, rd) is Ok <==> stamp_read(
            text::trim(s),
        ) is Some,
{
    text::lemma_trim_ends(s);
    if text::trim(s).len() > 0 {
        text::lemma_trimmed(text::trim(s));
    }
}

/// Which types go over into which: every value into text, a truth value into an
/// integer and back, a date into a date and time and back. Numbers are no dates
/// and dates no numbers, and a truth value is no double.
pub proof fn law_unlike_types_are_not_converted(
    i: i64,
    f: RealView,
    b: bool,
    d: DayView,
    t: StampView,
    rd: Reading,
)
    ensures
        convert(CellView::Int(i), DataType::Date, rd) is Err,
        convert(CellView::Int(i), DataType::DateTime, rd) is Err,
        convert(CellView::Float(f), DataType::Date, rd) is Err,
        convert(CellView::Float(f), DataType::DateTime, rd) is Err,
        convert(CellView::Float(f), DataType::Bool, rd) is Err,
        convert(CellView::Bool(b), DataType::Float, rd) is Err,
        convert(CellView::Bool(b), DataType::Date, rd) is Err,
        convert(CellView::Bool(b), DataType::DateTime, rd) is Err,
        convert(CellView::Date(d), DataType::Integer, rd) is Err,
        convert(CellView::Date(d), DataType::Float, rd) is Err,
        convert(CellView::Date(d), DataType::Bool, rd) is Err,
        convert(CellView::DateTime(t), DataType::Integer, rd) is Err,
        convert(CellView::DateTime(t), DataType::Float, rd) is Err,
        convert(CellView::DateTime(t), DataType::Bool, rd) is Err,
        convert(CellView::Int(i), DataType::Bool, rd) is Ok <==> i == 0 || i == 1,
{
}

/// The JSON of a value says what its text says: a text, a date and a time are their
/// text, numbers and truth values themselves, and only NULL and a number that is not
/// finite are null.
pub proof fn law_json_keeps_the_value(c: CellView)
    ensures
        cell_json(c) is Null <==> c is Null || (c matches CellView::Float(f) && !is_finite(f.bits)),
        cell_json(c) matches JsonView::Text(s) ==> s == cell_text(c),
        c is Text || c is Date || c is DateTime ==> cell_json(c) is Text,
        cell_json(c) matches JsonView::Int(v) ==> c == CellView::Int(v),
        cell_json(c) matches JsonView::Float(v) ==> c == CellView::Float(v),
        cell_json(c) matches JsonView::Bool(v) ==> c == CellView::Bool(v),
{
}

/// What the name of a column type says: truth values before whole numbers before
/// other numbers before times; a name that says nothing of these is text.
pub proof fn law_type_names_are_told(t: Seq<char>)
    ensures
        has_part(t, "bool"@) ==> db_data_type(t) == DataType::Bool,
        t == "bit"@ ==> db_data_type(t) == DataType::Bool,
        has_part(t, "int"@) && !has_part(t, "bool"@) && t != "bit"@ ==> db_data_type(t)
            == DataType::Integer,
        (has_part(t, "decimal"@) || has_part(t, "numeric"@) || has_part(t, "money"@)) && !has_part(
            t,
            "bool"@,
        ) && !has_part(t, "int"@) && !has_part(t, "serial"@) && t != "bit"@ && t != "year"@
            ==> db_data_type(t) == DataType::Float,
        db_data_type(t) == DataType::DateTime ==> has_part(t, "datetime"@) || has_part(
            t,
            "timestamp"@,
        ),
        db_data_type(t) == DataType::Date <==> t == "date"@,
{
    if t == "date"@ {
        reveal_strlit("date");
        reveal_strlit("bool");
        reveal_strlit("bit");
        reveal_strlit("int");
        reveal_strlit("serial");
        reveal_strlit("year");
        reveal_strlit("decimal");
        reveal_strlit("numeric");
        reveal_strlit("real");
        reveal_strlit("double");
        reveal_strlit("float");
        reveal_strlit("money");
        reveal_strlit("datetime");
        reveal_strlit("timestamp");
        assert(t.len() == 4);
        assert("bit"@.len() == 3 && "serial"@.len() == 6 && "decimal"@.len() == 7 && "numeric"@.len()
            == 7 && "double"@.len() == 6 && "float"@.len() == 5 && "money"@.len() == 5
            && "datetime"@.len() == 8 && "timestamp"@.len() == 9);
        assert(t[0] == 'd' && t[1] == 'a' && t[2] == 't' && t[3] == 'e');
        assert("year"@[0] == 'y');
        assert(!has_part(t, "bool"@)) by {
            if has_part(t, "bool"@) {
                let i = choose|i: int|
                    0 <= i && i + 4 <= t.len() && #[trigger] t.subrange(i, i + 4) == "bool"@;
                assert(t.subrange(i, i + 4)[0] == t[i]);
                assert("bool"@[0] == 'b');
            }
        }
        assert(!has_part(t, "real"@)) by {
            if has_part(t, "real"@) {
                let i = choose|i: int|
                    0 <= i && i + 4 <= t.len() && #[trigger] t.subrange(i, i + 4) == "real"@;
                assert(t.subrange(i, i + 4)[0] == t[i]);
                assert("real"@[0] == 'r');
            }
        }
        assert(!has_part(t, "int"@)) by {
            if has_part(t, "int"@) {
                let i = choose|i: int|
                    0 <= i && i + 3 <= t.len() && #[trigger] t.subrange(i, i + 3) == "int"@;
                assert(t.subrange(i, i + 3)[0] == t[i]);
                assert("int"@[0] == 'i');
            }
        }
    }
}

impl CellValue {
    /// A copy of the value.
    pub fn copy(&self) -> (r: CellValue)
        ensures
            r@ == self@,
    {
        match self {
            CellValue::Null => CellValue::Null,
            CellValue::Int(v) => CellValue::Int(*v),
            CellValue::Float(v) => CellValue::Float(v.copy()),
            CellValue::Text(v) => CellValue::Text(v.clone()),
            CellValue::Bool(v) => CellValue::Bool(*v),
            CellValue::DateTime(v) => CellValue::DateTime(*v),
            CellValue::Date(v) => CellValue::Date(*v),
        }
    }

    pub fn is_null(&self) -> (r: bool)
        ensures
            r == (self@ is Null),
    {
        match self {
            CellValue::Null => true,
            _ => false,
        }
    }

    /// The type of the value; NULL has none.
    pub fn data_type(&self) -> (r: Option<DataType>)
        ensures
            r == cell_type(self@),
    {
        match self {
            CellValue::Null => None,
            CellValue::Int(_) => Some(DataType::Integer),
            CellValue::Float(_) => Some(DataType::Float),
            CellValue::Text(_) => Some(DataType::Text),
            CellValue::Bool(_) => Some(DataType::Bool),
            CellValue::DateTime(_) => Some(DataType::DateTime),
            CellValue::Date(_) => Some(DataType::Date),
        }
    }

    /// The value as JSON, dates and times as text.
    pub fn to_json(&self) -> (r: Json)
        ensures
            r@ == cell_json(self@),
    {
        match self {
            CellValue::Null => Json::Null,
            CellValue::Int(v) => Json::Int(*v),
            CellValue::Float(v) => if finite(v.bits) {
                Json::Float(v.copy())
            } else {
                Json::Null
            },
            CellValue::Text(v) => Json::Text(v.clone()),
            CellValue::Bool(v) => Json::Bool(*v),
            CellValue::DateTime(v) => Json::Text(v.show()),
            CellValue::Date(v) => Json::Text(v.show()),
        }
    }

    /// The value as text; NULL is empty.
    pub fn to_display_string(&self) -> (r: String)
        ensures
            r@ == cell_text(self@),
    {
        match self {
            CellValue::Null => {
                let s: String = String::new();
                assert(s@ =~= seq![]);
                s
            },
            CellValue::Int(v) => text::i64_text(*v),
            CellValue::Float(v) => v.text.clone(),
            CellValue::Text(v) => v.clone(),
            CellValue::Bool(v) => if *v { "true".to_string() } else { "false".to_string() },
            CellValue::DateTime(v) => v.show(),
            CellValue::Date(v) => v.show(),
        }
    }

    fn unsupported(&self, t: DataType) -> (r: Result<CellValue, String>)
        ensures
            r matches Err(e) && e@ == unsupported(self@, t),
    {
        let from: String = match self.data_type() {
            Some(x) => text::cat3("Some(", x.name(), ")"),
            None => "None".to_string(),
        };
        Err(text::cat5("不支援 ", from.as_str(), " → ", t.name(), " 的轉換"))
    }

    fn as_integer(&self) -> (r: Result<CellValue, String>)
        ensures
            converted(r, to_integer(self@)),
    {
        match self {
            CellValue::Int(v) => Ok(CellValue::Int(*v)),
            CellValue::Float(v) => match to_i64(v.bits) {
                Some(i) => Ok(CellValue::Int(i)),
                None => Err(
                    text::cat3("無法將 ", v.text.as_str(), " 轉為整數（非整數或溢位）"),
                ),
            },
            CellValue::Text(s) => match text::parse_i64(text::trimmed(s.as_str()).as_str()) {
                Some(i) => Ok(CellValue::Int(i)),
                None => Err(text::cat3("無法將「", s.as_str(), "」解析為整數")),
            },
            CellValue::Bool(b) => Ok(CellValue::Int(if *b { 1 } else { 0 })),
            _ => self.unsupported(DataType::Integer),
        }
    }

    fn as_float<F: Fn(String) -> Option<Real>>(&self, read: &F) -> (r: Result<CellValue, String>)
        requires
            is_reader(*read),
        ensures
            converted(r, to_float(self@, reading(*read))),
    {
        match self {
            CellValue::Float(v) => Ok(CellValue::Float(v.copy())),
            CellValue::Int(v) => {
                let digits: String = text::i64_text(*v);
                if let Some(r) = ask(read, digits.clone()) {
                    if let Some(i) = to_i64(r.bits) {
                        if i == *v {
                            return Ok(CellValue::Float(r));
                        }
                    }
                }
                Err(text::cat3("無法將 ", digits.as_str(), " 轉為浮點數（精度損失）"))
            },
            CellValue::Text(s) => match ask(read, text::trimmed(s.as_str())) {
                Some(r) => Ok(CellValue::Float(r)),
                None => Err(text::cat3("無法將「", s.as_str(), "」解析為浮點數")),
            },
            _ => self.unsupported(DataType::Float),
        }
    }

    fn as_bool(&self) -> (r: Result<CellValue, String>)
        ensures
            converted(r, to_bool(self@)),
    {
        match self {
            CellValue::Bool(v) => Ok(CellValue::Bool(*v)),
            CellValue::Int(v) => if *v == 0 {
                Ok(CellValue::Bool(false))
            } else if *v == 1 {
                Ok(CellValue::Bool(true))
            } else {
                Err(
                    text::cat3(
                        "無法將 ",
                        text::i64_text(*v).as_str(),
                        " 轉為布林（僅接受 0/1）",
                    ),
                )
            },
            CellValue::Text(s) => {
                let t: String = text::to_ascii_lower(text::trimmed(s.as_str()).as_str());
                if text::same(t.as_str(), "true") || text::same(t.as_str(), "1") {
                    Ok(CellValue::Bool(true))
                } else if text::same(t.as_str(), "false") || text::same(t.as_str(), "0") {
                    Ok(CellValue::Bool(false))
                } else {
                    Err(text::cat3("無法將「", s.as_str(), "」解析為布林"))
                }
            },
            _ => self.unsupported(DataType::Bool),
        }
    }

    fn as_stamp(&self) -> (r: Result<CellValue, String>)
        ensures
            converted(r, to_stamp(self@)),
            forall|t: StampView|
                stamp_ok(t) && t.nano == 0 && self@ == CellView::Text(#[trigger] stamp_text(t))
                    ==> (r matches Ok(v) && v@ == CellView::DateTime(t)),
            forall|d: DayView|
                day_ok(d) && self@ == CellView::Text(#[trigger] day_text(d)) ==> (r matches Ok(v)
                    && v@ == CellView::DateTime(midnight(d))),
    {
        proof {
            assert forall|t: StampView|
                stamp_ok(t) && self@ == CellView::Text(#[trigger] stamp_text(t)) implies text::trim(
                stamp_text(t),
            ) == stamp_text(t) by {
                lemma_stamp_shape(t);
            }
            assert forall|d: DayView|
                day_ok(d) && self@ == CellView::Text(#[trigger] day_text(d)) implies text::trim(
                day_text(d),
            ) == day_text(d) by {
                lemma_day_shape(d);
            }
        }
        match self {
            CellValue::DateTime(v) => Ok(CellValue::DateTime(*v)),
            CellValue::Date(d) => Ok(CellValue::DateTime(d.at_midnight())),
            CellValue::Text(s) => match parse_datetime(text::trimmed(s.as_str()).as_str()) {
                Some(t) => Ok(CellValue::DateTime(t)),
                None => Err(text::cat3("無法將「", s.as_str(), "」解析為日期時間")),
            },
            _ => self.unsupported(DataType::DateTime),
        }
    }

    fn as_day(&self) -> (r: Result<CellValue, String>)
        ensures
            converted(r, to_day(self@)),
            forall|d: DayView|
                day_ok(d) && self@ == CellView::Text(#[trigger] day_text(d)) ==> (r matches Ok(v)
                    && v@ == CellView::Date(d)),
    {
        proof {
            assert forall|d: DayView|
                day_ok(d) && self@ == CellView::Text(#[trigger] day_text(d)) implies text::trim(
                day_text(d),
            ) == day_text(d) by {
                lemma_day_shape(d);
            }
        }
        match self {
            CellValue::Date(v) => Ok(CellValue::Date(*v)),
            CellValue::DateTime(t) => Ok(CellValue::Date(t.date())),
            CellValue::Text(s) => match parse_date(text::trimmed(s.as_str()).as_str()) {
                Some(d) => Ok(CellValue::Date(d)),
                None => Err(text::cat3("無法將「", s.as_str(), "」解析為日期")),
            },
            _ => self.unsupported(DataType::Date),
        }
    }

    /// Converts the value to a type, or says why it cannot. Nothing is cut off
    /// in silence: an overflow, a loss of precision and an invalid date fail. A date
    /// or a whole second comes back from its text. `read` turns decimal text into a
    /// double.
    pub fn convert_to<F: Fn(String) -> Option<Real>>(&self, target: DataType, read: &F) -> (r: Result<
        CellValue,
        String,
    >)
        requires
            is_reader(*read),
        ensures
            converted(r, convert(self@, target, reading(*read))),
            forall|d: DayView|
                day_ok(d) && self@ == CellView::Text(#[trigger] day_text(d)) && target
                    == DataType::Date ==> (r matches Ok(v) && v@ == CellView::Date(d)),
            forall|d: DayView|
                day_ok(d) && self@ == CellView::Text(#[trigger] day_text(d)) && target
                    == DataType::DateTime ==> (r matches Ok(v) && v@ == CellView::DateTime(
                    midnight(d),
                )),
            forall|t: StampView|
                stamp_ok(t) && t.nano == 0 && self@ == CellView::Text(#[trigger] stamp_text(t))
                    && target == DataType::DateTime ==> (r matches Ok(v) && v@
                    == CellView::DateTime(t)),
    {
        if self.is_null() {
            return Ok(CellValue::Null);
        }
        match target {
            DataType::Integer => self.as_integer(),
            DataType::Float => self.as_float(read),
            DataType::Text => Ok(CellValue::Text(self.to_display_string())),
            DataType::Bool => self.as_bool(),
            DataType::DateTime => self.as_stamp(),
            DataType::Date => self.as_day(),
        }
    }
}

} // verus!
