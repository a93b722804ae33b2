//! Cells of a workbook.
use crate::double::Real;
use crate::models::calendar::{parse_datetime, stamp_read, Stamp};
use crate::models::value::{row_view, rows_view, CellValue, CellView};
use vstd::prelude::*;

verus! {

/// A cell as a workbook holds it.
pub enum SheetCell {
    Empty,
    Text(String),
    Float(Real),
    Int(i64),
    Bool(bool),
    /// A date serial; none where it is no time of the calendar.
    DateTime(Option<Stamp>),
    DateTimeIso(String),
    DurationIso(String),
    /// A formula error such as `#DIV/0!`.
    Error,
}

/// What a cell of a workbook holds: empty texts, errors and impossible serials
/// are NULL, and a time that cannot be read stays a text.
pub open spec fn sheet_value(c: SheetCell) -> CellView {
    match c {
        SheetCell::Empty => CellView::Null,
        SheetCell::Text(s) => if s@.len() == 0 {
            CellView::Null
        } else {
            CellView::Text(s@)
        },
        SheetCell::Float(v) => CellView::Float(v@),
        SheetCell::Int(v) => CellView::Int(v),
        SheetCell::Bool(v) => CellView::Bool(v),
        SheetCell::DateTime(t) => match t {
            Some(x) => CellView::DateTime(x@),
            None => CellView::Null,
        },
        SheetCell::DateTimeIso(s) => match stamp_read(s@) {
            Some(t) => CellView::DateTime(t),
            None => CellView::Text(s@),
        },
        SheetCell::DurationIso(s) => CellView::Text(s@),
        SheetCell::Error => CellView::Null,
    }
}

/// What a cell of a workbook holds.
pub fn data_to_cell(c: SheetCell) -> (r: CellValue)
    ensures
        r@ == sheet_value(c),
{
    match c {
        SheetCell::Empty => CellValue::Null,
        SheetCell::Text(s) => if s.as_str().unicode_len() == 0 {
            CellValue::Null
        } else {
            CellValue::Text(s)
        },
        SheetCell::Float(v) => CellValue::Float(v),
        SheetCell::Int(v) => CellValue::Int(v),
        SheetCell::Bool(v) => CellValue::Bool(v),
        SheetCell::DateTime(t) => match t {
            Some(x) => CellValue::DateTime(x),
            None => CellValue::Null,
        },
        SheetCell::DateTimeIso(s) => match parse_datetime(s.as_str()) {
            Some(t) => CellValue::DateTime(t),
            None => CellValue::Text(s),
        },
        SheetCell::DurationIso(s) => CellValue::Text(s),
        SheetCell::Error => CellValue::Null,
    }
}

/// What the rows of a workbook hold.
pub open spec fn sheet_rows(rows: Seq<Vec<SheetCell>>) -> Seq<Seq<CellView>> {
    Seq::new(
        rows.len(),
        |i: int| Seq::new(rows[i]@.len(), |j: int| sheet_value(rows[i]@[j])),
    )
}

/// What the rows of a workbook hold.
pub fn read_rows(rows: Vec<Vec<SheetCell>>) -> (r: Vec<Vec<CellValue>>)
    ensures
        rows_view(r@) == sheet_rows(rows@),
{
    let ghost all = rows@;
    let mut out: Vec<Vec<CellValue>> = Vec::new();
    for row in it: rows
        invariant
            it.seq() == all,
            out@.len() == it.index(),
            forall|k: int|
                0 <= k < out@.len() ==> row_view(#[trigger] out@[k]@) == sheet_rows(all)[k],
    {
        let ghost n = it.index() as int;
        let ghost source = row@;
        assert(row == all[n]);
        let mut cells: Vec<CellValue> = Vec::new();
        for c in inner: row
            invariant
                inner.seq() == source,
                cells@.len() == inner.index(),
                forall|k: int|
                    0 <= k < cells@.len() ==> #[trigger] cells@[k]@ == sheet_value(source[k]),
        {
            assert(c == source[inner.index() as int]);
            cells.push(data_to_cell(c));
        }
        assert(row_view(cells@) =~= sheet_rows(all)[n]);
        out.push(cells);
    }
    assert(rows_view(out@) =~= sheet_rows(all));
    out
}

/// A workbook cell keeps its value: numbers, truth values and times are themselves, text
/// is the text it is, and only what holds nothing is NULL.
pub proof fn law_sheet_cells_keep_their_value(c: SheetCell)
    ensures
        sheet_value(c) is Null <==> (match c {
            SheetCell::Empty => true,
            SheetCell::Text(s) => s@.len() == 0,
            SheetCell::DateTime(t) => t is None,
            SheetCell::Error => true,
            _ => false,
        }),
        c matches SheetCell::Int(v) ==> sheet_value(c) == CellView::Int(v),
        c matches SheetCell::Float(v) ==> sheet_value(c) == CellView::Float(v@),
        c matches SheetCell::Bool(v) ==> sheet_value(c) == CellView::Bool(v),
        c matches SheetCell::DateTime(Some(t)) ==> sheet_value(c) == CellView::DateTime(t@),
        c matches SheetCell::Text(s) ==> (sheet_value(c) matches CellView::Text(t) ==> t == s@),
        c matches SheetCell::DurationIso(s) ==> sheet_value(c) == CellView::Text(s@),
        c matches SheetCell::DateTimeIso(s) ==> (match sheet_value(c) {
            CellView::DateTime(t) => stamp_read(s@) == Some(t),
            CellView::Text(t) => t == s@ && stamp_read(s@) is None,
            _ => false,
        }),
{
}

/// Each cell of a workbook stays at its place.
pub proof fn law_sheet_cells_keep_their_place(rows: Seq<Vec<SheetCell>>, i: int, j: int)
    requires
        0 <= i < rows.len(),
        0 <= j < rows[i]@.len(),
    ensures
        sheet_rows(rows).len() == rows.len(),
        sheet_rows(rows)[i].len() == rows[i]@.len(),
        sheet_rows(rows)[i][j] == sheet_value(rows[i]@[j]),
{
}

} // verus!
