//! CSV files: their encoding, their fields, and the type of each cell.
use crate::double::{ask, finite, is_finite, is_reader, reading, Real, Reading};
use crate::etl::script::alias::lemma_nat_text;
use crate::etl::script::readback::values::lemma_int_text;
use crate::models::calendar::{
    chrono_date, chrono_stamp, date_read, day_of, day_ok, day_text, lemma_day_shape,
    lemma_stamp_shape, parse_date, parse_datetime, stamp_of, stamp_ok, stamp_read, stamp_text, year_text, DayView, StampView,
};
use crate::models::errors::{EluEtlError, ErrorView};
use crate::models::value::{bool_text, row_view, rows_view, CellValue, CellView};
use crate::text;
use vstd::prelude::*;
use vstd::utf8::encode_utf8;

verus! {

/// How many bytes an encoding is guessed from.
pub const SAMPLE_BYTES: usize = 65536;

/// The name of the encoding that a label stands for.
pub uninterp spec fn encoding_named(label: Seq<char>) -> Option<Seq<char>>;

/// The name of the encoding that some bytes seem to have; `whole` tells whether
/// nothing follows them.
pub uninterp spec fn encoding_guessed(sample: Seq<u8>, whole: bool) -> Seq<char>;

/// The text of some bytes in an encoding.
pub uninterp spec fn decoded(encoding: Seq<char>, bytes: Seq<u8>) -> Seq<char>;

/// The fields of the records of a CSV text, or why it has none.
pub uninterp spec fn csv_fields(text: Seq<char>) -> Result<Seq<Seq<Seq<char>>>, Seq<char>>;

/// Calls `Encoding::for_label`, which knows the labels of the Encoding Standard
/// in any case, and takes the name of what it finds. The name of an encoding is
/// one of its labels.
#[verifier::external_body]
fn label_encoding(label: &str) -> (r: Option<String>)
    ensures
        text::opt_view(r) == encoding_named(label@),
        r matches Some(n) ==> encoding_named(n@) == Some(n@),
{
    encoding_rs::Encoding::for_label(label.as_bytes()).map(|e| e.name().to_string())
}

/// The encoding that a byte order mark stands for.
pub open spec fn marked_encoding(bytes: Seq<u8>) -> Option<Seq<char>> {
    if bytes.len() >= 3 && bytes[0] == 0xEF && bytes[1] == 0xBB && bytes[2] == 0xBF {
        Some("UTF-8"@)
    } else if bytes.len() >= 2 && bytes[0] == 0xFF && bytes[1] == 0xFE {
        Some("UTF-16LE"@)
    } else if bytes.len() >= 2 && bytes[0] == 0xFE && bytes[1] == 0xFF {
        Some("UTF-16BE"@)
    } else {
        None
    }
}

/// Calls `Encoding::for_bom`, which looks for the byte order marks of UTF-8 and
/// UTF-16 at the start, and takes the name of the encoding. The name of an
/// encoding is one of its labels.
#[verifier::external_body]
fn mark_encoding(bytes: &[u8]) -> (r: Option<String>)
    ensures
        text::opt_view(r) == marked_encoding(bytes@),
        r matches Some(n) ==> encoding_named(n@) == Some(n@),
{
    encoding_rs::Encoding::for_bom(bytes).map(|(e, _)| e.name().to_string())
}

/// Feeds a new `EncodingDetector` that does not expect ISO-2022-JP, and takes
/// the name of what it guesses where UTF-8 is allowed and the domain unknown.
/// The guess depends on the bytes and on whether they are the whole input. The
/// name of an encoding is one of its labels.
#[verifier::external_body]
fn guess_encoding(sample: &[u8], whole: bool) -> (r: String)
    ensures
        r@ == encoding_guessed(sample@, whole),
        encoding_named(r@) == Some(r@),
{
    let mut detector = chardetng::EncodingDetector::new(chardetng::Iso2022JpDetection::Deny);
    detector.feed(sample, whole);
    detector.guess(None, chardetng::Utf8Detection::Allow).name().to_string()
}

/// Looks up an encoding by its name with `Encoding::for_label` and calls its
/// `decode`, which replaces malformed parts. Far below the length that it
/// rejects.
#[verifier::external_body]
fn decode(encoding: &str, bytes: &[u8]) -> (r: Option<String>)
    requires
        bytes@.len() <= usize::MAX / 8,
    ensures
        r is Some <==> encoding_named(encoding@) is Some,
        r matches Some(t) ==> t@ == decoded(encoding@, bytes@),
{
    encoding_rs::Encoding::for_label(encoding.as_bytes()).map(|e| e.decode(bytes).0.into_owned())
}

/// The views of the fields of records.
pub open spec fn fields_view(v: Seq<Vec<String>>) -> Seq<Seq<Seq<char>>> {
    Seq::new(v.len(), |i: int| text::views(v[i]@))
}

/// Reads all records with a `csv` reader that expects no header and lets
/// records differ in length. What it reads depends on the text alone.
#[verifier::external_body]
fn csv_records(text: &str) -> (r: Result<Vec<Vec<String>>, String>)
    ensures
        match r {
            Ok(v) => csv_fields(text@) == Ok::<Seq<Seq<Seq<char>>>, Seq<char>>(fields_view(v@)),
            Err(e) => csv_fields(text@) == Err::<Seq<Seq<Seq<char>>>, Seq<char>>(e@),
        },
{
    csv::ReaderBuilder::new()
        .has_headers(false)
        .flexible(true)
        .from_reader(text.as_bytes())
        .records()
        .map(|r| r.map(|x| x.iter().map(|f| f.to_string()).collect()).map_err(|e| e.to_string()))
        .collect()
}

/// The first bytes, as many as an encoding is guessed from.
pub open spec fn sample_of(bytes: Seq<u8>) -> Seq<u8> {
    if bytes.len() <= SAMPLE_BYTES {
        bytes
    } else {
        bytes.take(SAMPLE_BYTES as int)
    }
}

/// The encoding of a file: the one that was asked for, else that of the byte
/// order mark, else the one that was guessed.
pub open spec fn encoding_of(bytes: Seq<u8>, asked: Option<Seq<char>>) -> Result<
    Seq<char>,
    ErrorView,
> {
    match asked {
        Some(label) => match encoding_named(label) {
            Some(n) => Ok(n),
            None => Err(ErrorView::Config("未知的編碼: "@ + label)),
        },
        None => match marked_encoding(bytes) {
            Some(n) => Ok(n),
            None => Ok(encoding_guessed(sample_of(bytes), bytes.len() <= SAMPLE_BYTES)),
        },
    }
}

/// The name of the encoding of a file.
pub fn resolve_encoding(bytes: &Vec<u8>, encoding_override: Option<&str>) -> (r: Result<
    String,
    EluEtlError,
>)
    ensures
        match r {
            Ok(n) => encoding_of(
                bytes@,
                match encoding_override {
                    Some(s) => Some(s@),
                    None => None,
                },
            ) == Ok::<Seq<char>, ErrorView>(n@) && encoding_named(n@) == Some(n@),
            Err(e) => encoding_of(
                bytes@,
                match encoding_override {
                    Some(s) => Some(s@),
                    None => None,
                },
            ) == Err::<Seq<char>, ErrorView>(e@),
        },
{
    match encoding_override {
        Some(label) => match label_encoding(label) {
            Some(n) => Ok(n),
            None => Err(EluEtlError::Config(text::cat("未知的編碼: ", label))),
        },
        None => match mark_encoding(bytes.as_slice()) {
            Some(n) => Ok(n),
            None => if bytes.len() <= SAMPLE_BYTES {
                Ok(guess_encoding(bytes.as_slice(), true))
            } else {
                let sample: &[u8] = vstd::slice::slice_subrange(bytes.as_slice(), 0, SAMPLE_BYTES);
                assert(sample@ =~= sample_of(bytes@));
                Ok(guess_encoding(sample, false))
            },
        },
    }
}

/// The name of the encoding of a file, for people to confirm.
pub fn detect_encoding_name(bytes: &Vec<u8>) -> (r: Result<String, EluEtlError>)
    ensures
        match r {
            Ok(n) => encoding_of(bytes@, None) == Ok::<Seq<char>, ErrorView>(n@),
            Err(_) => false,
        },
{
    resolve_encoding(bytes, None)
}

/// A number that starts with zeros, such as an employee number, stays a text.
pub open spec fn has_leading_zero(t: Seq<char>) -> bool {
    t.len() > 1 && t[0] == '0' && t[1] != '.'
}

/// What a field that is not empty holds: a whole number, a finite number, a
/// truth value, a date, a time, or else a text.
pub open spec fn field_value(t: Seq<char>, rd: Reading) -> CellView {
    if !has_leading_zero(t) && text::read_i64(t) is Some {
        CellView::Int(text::read_i64(t)->0)
    } else if !has_leading_zero(t) && rd(t) is Some && is_finite(rd(t)->0.bits) {
        CellView::Float(rd(t)->0)
    } else if text::ascii_lower(t) == "true"@ {
        CellView::Bool(true)
    } else if text::ascii_lower(t) == "false"@ {
        CellView::Bool(false)
    } else if encode_utf8(t).len() >= 8 && date_read(t) is Some {
        CellView::Date(date_read(t)->0)
    } else if encode_utf8(t).len() >= 8 && stamp_read(t) is Some {
        CellView::DateTime(stamp_read(t)->0)
    } else {
        CellView::Text(t)
    }
}

/// The cell of a field; white space around it does not count, and an empty one is NULL.
pub open spec fn field_cell(s: Seq<char>, rd: Reading) -> CellView {
    let t = text::trim(s);
    if t.len() == 0 {
        CellView::Null
    } else {
        field_value(t, rd)
    }
}

/// A text that starts with a digit or a sign and has a `-` or a blank further on, so
/// that it is neither a number nor a truth value, and is long enough for a date.
spec fn shows_a_day(s: Seq<char>) -> bool {
    &&& text::trim(s) == s
    &&& s.len() >= 8
    &&& encode_utf8(s).len() >= 8
    &&& text::read_i64(s) is None
    &&& text::ascii_lower(s) != "true"@
    &&& text::ascii_lower(s) != "false"@
}

/// Every character takes at least one byte.
proof fn lemma_utf8_len(s: Seq<char>)
    ensures
        encode_utf8(s).len() >= s.len(),
    decreases s.len(),
{
    if s.len() > 0 {
        lemma_utf8_len(s.drop_first());
    }
}

/// A text that starts with at least four digits, with or without a sign, then has
/// a `-`, and ends with a digit.
proof fn lemma_shows_a_day(s: Seq<char>, k: int)
    requires
        4 <= k <= s.len() - 4,
        text::is_digit(s[0]) || s[0] == '+' || s[0] == '-',
        s[k] == '-',
        text::is_digit(s.last()),
    ensures
        shows_a_day(s),
{
    text::lemma_trimmed(s);
    lemma_utf8_len(s);
    assert(text::all_digits(s) ==> text::is_digit(s[k]));
    assert(s.skip(1)[k - 1] == s[k]);
    assert(text::all_digits(s.skip(1)) ==> text::is_digit(s.skip(1)[k - 1]));
    reveal_strlit("true");
    reveal_strlit("false");
    assert(text::ascii_lower(s)[0] == s[0]);
    assert("true"@[0] == 't' && "false"@[0] == 'f');
}

proof fn lemma_day_text(d: DayView)
    requires
        day_ok(d),
    ensures
        shows_a_day(day_text(d)),
{
    lemma_day_shape(d);
    lemma_shows_a_day(day_text(d), year_text(d.year).len() as int);
}

proof fn lemma_stamp_text(t: StampView)
    requires
        stamp_ok(t),
    ensures
        shows_a_day(stamp_text(t)),
{
    lemma_stamp_shape(t);
    lemma_shows_a_day(stamp_text(t), year_text(t.date.year).len() as int);
}

/// An integer in decimal is a field that reads back as that integer.
pub proof fn law_integers_read_back(v: i64, rd: Reading)
    ensures
        field_cell(text::int_text(v as int), rd) == CellView::Int(v),
{
    let s = text::int_text(v as int);
    lemma_int_text(v);
    if v < 0 {
        lemma_nat_text((-v) as nat);
        let d = text::nat_text((-v) as nat);
        assert(s.last() == d.last());
    } else {
        lemma_nat_text(v as nat);
        lemma_no_leading_zero(v as nat);
    }
    text::lemma_trimmed(s);
}

/// A number in decimal starts with a zero only where it is zero.
proof fn lemma_no_leading_zero(n: nat)
    ensures
        text::nat_text(n).len() > 1 ==> text::nat_text(n)[0] != '0',
    decreases n,
{
    if n >= 10 {
        lemma_no_leading_zero(n / 10);
        lemma_nat_text(n / 10);
        let t = text::nat_text(n / 10);
        assert(text::nat_text(n)[0] == t[0]);
        if n / 10 >= 10 {
            lemma_nat_text(n / 10 / 10);
        }
    }
}

/// A date as it is shown is a field that reads back as that date, given that
/// `chrono` reads the date it has written and that the text is no number.
pub proof fn law_dates_read_back(d: DayView, rd: Reading)
    requires
        day_ok(d),
        day_of(chrono_date(day_text(d), "%Y-%m-%d"@)) == Some(d),
        rd(day_text(d)) is None,
    ensures
        field_cell(day_text(d), rd) == CellView::Date(d),
{
    lemma_day_text(d);
}

/// A whole second as it is shown is a field that reads back as that date and time,
/// given that `chrono` reads what it has written and takes it for no date, and that
/// the text is no number.
pub proof fn law_stamps_read_back(t: StampView, rd: Reading)
    requires
        stamp_ok(t),
        t.nano == 0,
        stamp_of(chrono_stamp(stamp_text(t), "%Y-%m-%d %H:%M:%S"@)) == Some(t),
        chrono_date(stamp_text(t), "%Y-%m-%d"@) is None,
        chrono_date(stamp_text(t), "%Y/%m/%d"@) is None,
        rd(stamp_text(t)) is None,
    ensures
        field_cell(stamp_text(t), rd) == CellView::DateTime(t),
{
    lemma_stamp_text(t);
}

/// A truth value reads back as itself, in any case, given that it is no number.
pub proof fn law_truth_values_read_back(b: bool, s: Seq<char>, rd: Reading)
    requires
        text::same_ignoring_case(s, bool_text(b)),
        rd(s) is None,
    ensures
        field_cell(s, rd) == CellView::Bool(b),
{
    reveal_strlit("true");
    reveal_strlit("false");
    let w = bool_text(b);
    assert(text::ascii_lower(w) =~= w);
    assert(text::ascii_lower(s).len() == s.len());
    assert(w[0] == 't' || w[0] == 'f');
    assert(w.last() == 'e');
    assert(text::lower_char(s[0]) == text::ascii_lower(s)[0]);
    assert(text::lower_char(s.last()) == text::ascii_lower(s)[s.len() - 1]);
    assert(!text::is_digit(s[0]) && s[0] != '-' && s[0] != '+');
    assert(text::all_digits(s) ==> text::is_digit(s[0]));
    text::lemma_trimmed(s);
    if b {
    } else {
        assert("true"@.len() == 4 && "false"@.len() == 5);
    }
}

/// Nothing but the white space around it is lost of a field that stays a text, and
/// a field is NULL exactly where it is blank.
pub proof fn law_text_fields_are_kept(s: Seq<char>, rd: Reading)
    ensures
        field_cell(s, rd) matches CellView::Text(t) ==> t == text::trim(s),
        field_cell(s, rd) is Null <==> text::trim(s).len() == 0,
        field_cell(s, rd) matches CellView::Float(v) ==> rd(text::trim(s)) == Some(v),
        field_cell(s, rd) matches CellView::Int(v) ==> text::read_i64(text::trim(s)) == Some(v),
        field_cell(s, rd) matches CellView::Date(d) ==> date_read(text::trim(s)) == Some(d),
        field_cell(s, rd) matches CellView::DateTime(t) ==> stamp_read(text::trim(s)) == Some(t),
        field_cell(s, rd) is Text ==> date_read(text::trim(s)) is None || encode_utf8(
            text::trim(s),
        ).len() < 8,
{
}

/// White space around a field does not count.
pub proof fn law_white_space_does_not_count(s: Seq<char>, rd: Reading)
    ensures
        field_cell(text::trim(s), rd) == field_cell(s, rd),
{
    text::lemma_trim_ends(s);
    let t = text::trim(s);
    if t.len() > 0 {
        text::lemma_trimmed(t);
    }
}

/// An encoding that is asked for counts whatever the bytes are, a byte order mark
/// counts before any guess, and only the first bytes are guessed from.
pub proof fn law_encodings_have_their_turn(
    bytes: Seq<u8>,
    more: Seq<u8>,
    label: Seq<char>,
)
    ensures
        encoding_of(bytes, Some(label)) == encoding_of(more, Some(label)),
        encoding_of(bytes, Some(label)) is Ok <==> encoding_named(label) is Some,
        marked_encoding(bytes) matches Some(n) ==> encoding_of(bytes, None) == Ok::<
            Seq<char>,
            ErrorView,
        >(n),
        encoding_of(bytes, None) is Ok,
        bytes.len() > SAMPLE_BYTES && more.len() > SAMPLE_BYTES && bytes.take(SAMPLE_BYTES as int)
            == more.take(SAMPLE_BYTES as int) ==> encoding_of(bytes, None) == encoding_of(more, None),
{
    if bytes.len() > SAMPLE_BYTES && more.len() > SAMPLE_BYTES && bytes.take(SAMPLE_BYTES as int)
        == more.take(SAMPLE_BYTES as int) {
        assert forall|i: int| 0 <= i < 4 implies bytes[i] == more[i] by {
            assert(bytes.take(SAMPLE_BYTES as int)[i] == more.take(SAMPLE_BYTES as int)[i]);
        }
        assert(bytes[0] == more[0] && bytes[1] == more[1] && bytes[2] == more[2]);
    }
}

/// The cell of a field. What is written as an integer, a date or a whole second is
/// read back as that, dates and times where `read` does not take them for numbers.
pub fn parse_cell<F: Fn(String) -> Option<Real>>(s: &str, read: &F) -> (r: CellValue)
    requires
        is_reader(*read),
    ensures
        r@ == field_cell(s@, reading(*read)),
        forall|v: i64| s@ == #[trigger] text::int_text(v as int) ==> r@ == CellView::Int(v),
        reading(*read)(s@) is None ==> {
            &&& forall|d: DayView|
                day_ok(d) && s@ == #[trigger] day_text(d) ==> r@ == CellView::Date(d)
            &&& forall|t: StampView|
                stamp_ok(t) && t.nano == 0 && s@ == #[trigger] stamp_text(t) ==> r@
                    == CellView::DateTime(t)
        },
{
    proof {
        assert forall|v: i64| s@ == #[trigger] text::int_text(v as int) implies field_cell(
            s@,
            reading(*read),
        ) == CellView::Int(v) by {
            law_integers_read_back(v, reading(*read));
        }
        assert forall|d: DayView|
            day_ok(d) && s@ == #[trigger] day_text(d) && reading(*read)(s@) is None implies shows_a_day(
            s@,
        ) by {
            lemma_day_text(d);
        }
        assert forall|t: StampView|
            stamp_ok(t) && s@ == #[trigger] stamp_text(t) && reading(*read)(s@) is None implies shows_a_day(
            s@,
        ) by {
            lemma_stamp_text(t);
        }
    }
    let owned: String = text::trimmed(s);
    let t: &str = owned.as_str();
    let chars: Vec<char> = text::chars_of(t);
    if chars.len() == 0 {
        return CellValue::Null;
    }
    let leading_zero: bool = chars.len() > 1 && chars[0] == '0' && chars[1] != '.';
    if !leading_zero {
        if let Some(v) = text::parse_i64(t) {
            return CellValue::Int(v);
        }
        if let Some(v) = ask(read, t.to_string()) {
            if finite(v.bits) {
                return CellValue::Float(v);
            }
        }
    }
    let low: String = text::to_ascii_lower(t);
    if text::same(low.as_str(), "true") {
        return CellValue::Bool(true);
    }
    if text::same(low.as_str(), "false") {
        return CellValue::Bool(false);
    }
    if t.as_bytes().len() >= 8 {
        if let Some(d) = parse_date(t) {
            return CellValue::Date(d);
        }
        if let Some(d) = parse_datetime(t) {
            return CellValue::DateTime(d);
        }
    }
    CellValue::Text(t.to_string())
}

/// The cells of records.
pub open spec fn record_cells(records: Seq<Seq<Seq<char>>>, rd: Reading) -> Seq<Seq<CellView>> {
    Seq::new(
        records.len(),
        |i: int| Seq::new(records[i].len(), |j: int| field_cell(records[i][j], rd)),
    )
}

/// The cells of records.
pub fn parse_records<F: Fn(String) -> Option<Real>>(records: &Vec<Vec<String>>, read: &F) -> (r: Vec<
    Vec<CellValue>,
>)
    requires
        is_reader(*read),
    ensures
        rows_view(r@) == record_cells(fields_view(records@), reading(*read)),
{
    let ghost rd = reading(*read);
    let mut rows: Vec<Vec<CellValue>> = Vec::new();
    let mut i: usize = 0;
    while i < records.len()
        invariant
            i <= records@.len(),
            rows@.len() == i,
            rd == reading(*read),
            is_reader(*read),
            forall|k: int|
                0 <= k < i ==> row_view(#[trigger] rows@[k]@) == record_cells(
                    fields_view(records@),
                    rd,
                )[k],
        decreases records@.len() - i,
    {
        let record: &Vec<String> = &records[i];
        let mut cells: Vec<CellValue> = Vec::new();
        let mut j: usize = 0;
        while j < record.len()
            invariant
                j <= record@.len(),
                cells@.len() == j,
                rd == reading(*read),
                is_reader(*read),
                forall|k: int| 0 <= k < j ==> #[trigger] cells@[k]@ == field_cell(record@[k]@, rd),
            decreases record@.len() - j,
        {
            cells.push(parse_cell(record[j].as_str(), read));
            j += 1;
        }
        assert(row_view(cells@) =~= record_cells(fields_view(records@), rd)[i as int]);
        rows.push(cells);
        i += 1;
    }
    assert(rows_view(rows@) =~= record_cells(fields_view(records@), rd));
    rows
}

/// The rows of a CSV file.
pub open spec fn csv_rows(bytes: Seq<u8>, asked: Option<Seq<char>>, rd: Reading) -> Result<
    Seq<Seq<CellView>>,
    ErrorView,
> {
    match encoding_of(bytes, asked) {
        Err(e) => Err(e),
        Ok(n) => match csv_fields(decoded(n, bytes)) {
            Err(e) => Err(ErrorView::Excel(e)),
            Ok(records) => Ok(record_cells(records, rd)),
        },
    }
}

/// The rows of a CSV file; an encoding that is asked for goes before the
/// detected one.
pub fn read_rows<F: Fn(String) -> Option<Real>>(
    bytes: &Vec<u8>,
    encoding_override: Option<&str>,
    read: &F,
) -> (r: Result<Vec<Vec<CellValue>>, EluEtlError>)
    requires
        is_reader(*read),
        bytes@.len() <= usize::MAX / 8,
    ensures
        ({
            let s = csv_rows(
                bytes@,
                match encoding_override {
                    Some(s) => Some(s@),
                    None => None,
                },
                reading(*read),
            );
            match r {
                Ok(rows) => s == Ok::<Seq<Seq<CellView>>, ErrorView>(rows_view(rows@)),
                Err(e) => s == Err::<Seq<Seq<CellView>>, ErrorView>(e@),
            }
        }),
{
    let encoding: String = resolve_encoding(bytes, encoding_override)?;
    let text: String = match decode(encoding.as_str(), bytes.as_slice()) {
        Some(t) => t,
        None => {
            assert(false);
            String::new()
        },
    };
    match csv_records(text.as_str()) {
        Ok(records) => Ok(parse_records(&records, read)),
        Err(e) => Err(EluEtlError::Excel(e)),
    }
}

/// Numbers with leading zeros keep their zeros: they are read as texts unless
/// they are dates or times.
pub proof fn law_leading_zeros_are_kept(s: Seq<char>, rd: Reading)
    requires
        has_leading_zero(text::trim(s)),
    ensures
        !(field_cell(s, rd) is Int),
        !(field_cell(s, rd) is Float),
{
}

/// Each field of a record becomes the cell at its place.
pub proof fn law_fields_keep_their_place(
    records: Seq<Seq<Seq<char>>>,
    rd: Reading,
    i: int,
    j: int,
)
    requires
        0 <= i < records.len(),
        0 <= j < records[i].len(),
    ensures
        record_cells(records, rd).len() == records.len(),
        record_cells(records, rd)[i].len() == records[i].len(),
        record_cells(records, rd)[i][j] == field_cell(records[i][j], rd),
{
}

/// The rows of a file are those of its text in the encoding that it has or is said to
/// have; a file whose encoding is unknown or whose text is no CSV has none.
pub proof fn law_rows_come_from_the_decoded_text(
    bytes: Seq<u8>,
    asked: Option<Seq<char>>,
    rd: Reading,
)
    ensures
        csv_rows(bytes, asked, rd) is Ok <==> (encoding_of(bytes, asked) matches Ok(n)
            && csv_fields(decoded(n, bytes)) is Ok),
        csv_rows(bytes, asked, rd) matches Ok(rows) ==> (encoding_of(bytes, asked) matches Ok(n) && (
        csv_fields(decoded(n, bytes)) matches Ok(records) && rows.len() == records.len())),
        asked matches Some(label) ==> (encoding_named(label) is None ==> csv_rows(bytes, asked, rd)
            is Err),
{
}

/// A byte order mark tells the encoding of a file whatever stands behind it, unless another
/// one is asked for.
pub proof fn law_marks_tell_the_encoding(rest: Seq<u8>)
    ensures
        encoding_of(seq![0xEFu8, 0xBBu8, 0xBFu8] + rest, None) == Ok::<Seq<char>, ErrorView>(
            "UTF-8"@,
        ),
        encoding_of(seq![0xFFu8, 0xFEu8] + rest, None) == Ok::<Seq<char>, ErrorView>("UTF-16LE"@),
        encoding_of(seq![0xFEu8, 0xFFu8] + rest, None) == Ok::<Seq<char>, ErrorView>("UTF-16BE"@),
{
    let a = seq![0xEFu8, 0xBBu8, 0xBFu8] + rest;
    let b = seq![0xFFu8, 0xFEu8] + rest;
    let c = seq![0xFEu8, 0xFFu8] + rest;
    assert(a[0] == 0xEF && a[1] == 0xBB && a[2] == 0xBF);
    assert(b[0] == 0xFF && b[1] == 0xFE);
    assert(c[0] == 0xFE && c[1] == 0xFF);
}

} // verus!
