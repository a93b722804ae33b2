//! A result set laid out on a sheet.
use crate::models::errors::{EluEtlError, ErrorView};
use crate::models::value::{row_view, rows_view, CellValue, CellView};
use crate::text;
use vstd::prelude::*;

verus! {

/// What is written into a cell of a sheet.
#[verifier::ext_equal]
pub enum InkView {
    /// The name of a column, in bold.
    Heading(Seq<char>),
    /// The value of a cell; dates and times carry a number format.
    Value(CellView),
}

/// What is written into a cell of a sheet.
pub enum Ink {
    Heading(String),
    Value(CellValue),
}

impl View for Ink {
    type V = InkView;

    open spec fn view(&self) -> InkView {
        match *self {
            Ink::Heading(s) => InkView::Heading(s@),
            Ink::Value(c) => InkView::Value(c@),
        }
    }
}

/// Where something is written, and what.
#[verifier::ext_equal]
pub struct MarkView {
    pub row: u32,
    pub col: u16,
    pub ink: InkView,
}

/// Where something is written, and what.
pub struct Mark {
    pub row: u32,
    pub col: u16,
    pub ink: Ink,
}

impl View for Mark {
    type V = MarkView;

    open spec fn view(&self) -> MarkView {
        MarkView { row: self.row, col: self.col, ink: self.ink@ }
    }
}

pub open spec fn marks_view(v: Seq<Mark>) -> Seq<MarkView> {
    Seq::new(v.len(), |i: int| v[i]@)
}

/// The marks of the first columns of the heading.
pub open spec fn heading_marks(columns: Seq<Seq<char>>) -> Seq<MarkView> {
    Seq::new(
        columns.len(),
        |i: int| MarkView { row: 0, col: i as u16, ink: InkView::Heading(columns[i]) },
    )
}

/// The marks of the first cells of a row; NULL leaves its cell empty.
pub open spec fn row_marks(cells: Seq<CellView>, row: u32) -> Seq<MarkView>
    decreases cells.len(),
{
    if cells.len() == 0 {
        seq![]
    } else {
        let before = row_marks(cells.drop_last(), row);
        if cells.last() is Null {
            before
        } else {
            before.push(
                MarkView {
                    row,
                    col: (cells.len() - 1) as u16,
                    ink: InkView::Value(cells.last()),
                },
            )
        }
    }
}

/// The marks of rows, below the heading.
pub open spec fn body_marks(rows: Seq<Seq<CellView>>) -> Seq<MarkView>
    decreases rows.len(),
{
    if rows.len() == 0 {
        seq![]
    } else {
        body_marks(rows.drop_last()) + row_marks(rows.last(), rows.len() as u32)
    }
}

/// The rows and columns have numbers on a sheet.
pub open spec fn fits_sheet(columns: nat, rows: Seq<Seq<CellView>>) -> bool {
    &&& columns <= 65536
    &&& rows.len() < u32::MAX
    &&& forall|i: int| 0 <= i < rows.len() ==> (#[trigger] rows[i]).len() <= 65536
}

/// Everything that is written: the heading, and a row for each row.
pub open spec fn sheet_marks(columns: Seq<Seq<char>>, rows: Seq<Seq<CellView>>) -> Result<
    Seq<MarkView>,
    ErrorView,
> {
    if fits_sheet(columns.len(), rows) {
        Ok(heading_marks(columns) + body_marks(rows))
    } else {
        Err(ErrorView::Excel("資料超出工作表可容納的列數或欄數"@))
    }
}

proof fn lemma_marks_push(v: Seq<Mark>, m: Mark)
    ensures
        marks_view(v.push(m)) == marks_view(v).push(m@),
{
    assert(marks_view(v.push(m)) =~= marks_view(v).push(m@));
}

fn mark_row(out: &mut Vec<Mark>, cells: &Vec<CellValue>, row: u32)
    requires
        cells@.len() <= 65536,
    ensures
        marks_view(final(out)@) == marks_view(old(out)@) + row_marks(row_view(cells@), row),
{
    let ghost start = marks_view(out@);
    let ghost all = row_view(cells@);
    let mut c: usize = 0;
    assert(start + row_marks(all.take(0), row) =~= start);
    while c < cells.len()
        invariant
            c <= cells@.len() <= 65536,
            all == row_view(cells@),
            marks_view(out@) == start + row_marks(all.take(c as int), row),
        decreases cells@.len() - c,
    {
        proof {
            assert(all.take(c + 1).drop_last() =~= all.take(c as int));
            assert(all.take(c + 1).last() == cells@[c as int]@);
        }
        if !cells[c].is_null() {
            let m = Mark { row, col: c as u16, ink: Ink::Value(cells[c].copy()) };
            proof {
                lemma_marks_push(out@, m);
                assert(start + row_marks(all.take(c as int), row).push(m@) =~= (start + row_marks(
                    all.take(c as int),
                    row,
                )).push(m@));
            }
            out.push(m);
        }
        c += 1;
    }
    assert(all.take(c as int) =~= all);
}

/// Lays out a result set on a sheet: what to write where, and how many rows there are.
pub fn lay_out(columns: &Vec<String>, rows: &Vec<Vec<CellValue>>) -> (r: Result<
    (Vec<Mark>, u64),
    EluEtlError,
>)
    ensures
        match r {
            Ok((marks, n)) => sheet_marks(text::views(columns@), rows_view(rows@)) == Ok::<
                Seq<MarkView>,
                ErrorView,
            >(marks_view(marks@)) && n == rows@.len(),
            Err(e) => sheet_marks(text::views(columns@), rows_view(rows@)) == Err::<
                Seq<MarkView>,
                ErrorView,
            >(e@),
        },
{
    let ghost all = rows_view(rows@);
    let len: usize = rows.len();
    let mut fits: bool = columns.len() <= 65536 && len < u32::MAX as usize;
    let mut k: usize = 0;
    while k < len
        invariant
            k <= len == rows@.len(),
            all == rows_view(rows@),
            fits == (columns@.len() <= 65536 && len < u32::MAX && forall|i: int|
                0 <= i < k ==> (#[trigger] all[i]).len() <= 65536),
        decreases len - k,
    {
        assert(all[k as int].len() == rows@[k as int]@.len());
        fits = fits && rows[k].len() <= 65536;
        k += 1;
    }
    if !fits {
        return Err(
            EluEtlError::Excel("資料超出工作表可容納的列數或欄數".to_string()),
        );
    }
    let ghost names = text::views(columns@);
    let mut out: Vec<Mark> = Vec::new();
    let mut c: usize = 0;
    assert(marks_view(out@) =~= heading_marks(names.take(0)));
    while c < columns.len()
        invariant
            c <= columns@.len() <= 65536,
            names == text::views(columns@),
            marks_view(out@) == heading_marks(names.take(c as int)),
        decreases columns@.len() - c,
    {
        let m = Mark {
            row: 0,
            col: c as u16,
            ink: Ink::Heading(columns[c].as_str().to_string()),
        };
        proof {
            lemma_marks_push(out@, m);
            assert(heading_marks(names.take(c + 1)) =~= heading_marks(names.take(c as int)).push(
                m@,
            ));
        }
        out.push(m);
        c += 1;
    }
    assert(names.take(c as int) =~= names);
    let ghost head = heading_marks(names);
    let mut i: usize = 0;
    assert(head + body_marks(all.take(0)) =~= head);
    while i < len
        invariant
            i <= len == rows@.len(),
            all == rows_view(rows@),
            len < u32::MAX,
            forall|i: int| 0 <= i < len ==> (#[trigger] all[i]).len() <= 65536,
            marks_view(out@) == head + body_marks(all.take(i as int)),
        decreases len - i,
    {
        proof {
            assert(all.take(i + 1).drop_last() =~= all.take(i as int));
            assert(all[i as int].len() <= 65536);
            let next = row_marks(all[i as int], (i + 1) as u32);
            assert((head + body_marks(all.take(i as int))) + next =~= head + (body_marks(
                all.take(i as int),
            ) + next));
        }
        mark_row(&mut out, &rows[i], (i + 1) as u32);
        i += 1;
    }
    assert(all.take(i as int) =~= all);
    Ok((out, len as u64))
}

/// Nothing is written twice into the same cell of a row, and every value of the
/// row that is not NULL is written.
pub proof fn law_row_is_written_once(cells: Seq<CellView>, row: u32)
    requires
        cells.len() <= 65536,
    ensures
        forall|i: int, j: int|
            0 <= i < j < row_marks(cells, row).len() ==> (#[trigger] row_marks(cells, row)[i]).col
                < (#[trigger] row_marks(cells, row)[j]).col,
        forall|i: int|
            0 <= i < row_marks(cells, row).len() ==> (#[trigger] row_marks(cells, row)[i]).col
                < cells.len(),
        forall|c: int|
            0 <= c < cells.len() && !(#[trigger] cells[c] is Null) ==> row_marks(
                cells,
                row,
            ).contains(MarkView { row, col: c as u16, ink: InkView::Value(cells[c]) }),
    decreases cells.len(),
{
    if cells.len() > 0 {
        let before = row_marks(cells.drop_last(), row);
        let all = row_marks(cells, row);
        law_row_is_written_once(cells.drop_last(), row);
        assert forall|c: int| 0 <= c < cells.len() && !(#[trigger] cells[c] is Null) implies all.contains(
            MarkView { row, col: c as u16, ink: InkView::Value(cells[c]) },
        ) by {
            let m = MarkView { row, col: c as u16, ink: InkView::Value(cells[c]) };
            if c < cells.len() - 1 {
                assert(cells.drop_last()[c] == cells[c]);
                let k = choose|k: int| 0 <= k < before.len() && before[k] == m;
                assert(all[k] == m);
            } else {
                assert(all[all.len() - 1] == m);
            }
        }
    }
}

/// One mark stands before another on the sheet: in an earlier row, or in an earlier
/// column of the same row.
pub open spec fn stands_before(a: MarkView, b: MarkView) -> bool {
    a.row < b.row || (a.row == b.row && a.col < b.col)
}

proof fn lemma_row_marks(cells: Seq<CellView>, row: u32)
    requires
        cells.len() <= 65536,
    ensures
        forall|k: int|
            0 <= k < row_marks(cells, row).len() ==> {
                let m = #[trigger] row_marks(cells, row)[k];
                &&& m.row == row
                &&& m.col < cells.len()
                &&& m.ink == InkView::Value(cells[m.col as int])
                &&& !(cells[m.col as int] is Null)
            },
    decreases cells.len(),
{
    if cells.len() > 0 {
        let front = cells.drop_last();
        lemma_row_marks(front, row);
        let before = row_marks(front, row);
        let all = row_marks(cells, row);
        assert forall|k: int| 0 <= k < all.len() implies {
            let m = #[trigger] all[k];
            &&& m.row == row
            &&& m.col < cells.len()
            &&& m.ink == InkView::Value(cells[m.col as int])
            &&& !(cells[m.col as int] is Null)
        } by {
            if k < before.len() {
                assert(all[k] == before[k]);
                assert(front[all[k].col as int] == cells[all[k].col as int]);
            }
        }
    }
}

proof fn lemma_body_marks(rows: Seq<Seq<CellView>>)
    requires
        rows.len() < u32::MAX,
        forall|i: int| 0 <= i < rows.len() ==> (#[trigger] rows[i]).len() <= 65536,
    ensures
        forall|k: int|
            0 <= k < body_marks(rows).len() ==> {
                let m = #[trigger] body_marks(rows)[k];
                &&& 1 <= m.row <= rows.len()
                &&& m.col < rows[m.row - 1].len()
                &&& m.ink == InkView::Value(rows[m.row - 1][m.col as int])
                &&& !(rows[m.row - 1][m.col as int] is Null)
            },
        forall|k: int, l: int|
            0 <= k < l < body_marks(rows).len() ==> stands_before(
                #[trigger] body_marks(rows)[k],
                #[trigger] body_marks(rows)[l],
            ),
    decreases rows.len(),
{
    if rows.len() > 0 {
        let front = rows.drop_last();
        assert forall|i: int| 0 <= i < front.len() implies (#[trigger] front[i]).len() <= 65536 by {
            assert(front[i] == rows[i]);
        }
        lemma_body_marks(front);
        let last = rows.len() - 1;
        assert(rows[last] == rows.last());
        let before = body_marks(front);
        let next = row_marks(rows.last(), rows.len() as u32);
        let all = body_marks(rows);
        lemma_row_marks(rows.last(), rows.len() as u32);
        law_row_is_written_once(rows.last(), rows.len() as u32);
        assert forall|k: int| 0 <= k < all.len() implies {
            let m = #[trigger] all[k];
            &&& 1 <= m.row <= rows.len()
            &&& m.col < rows[m.row - 1].len()
            &&& m.ink == InkView::Value(rows[m.row - 1][m.col as int])
            &&& !(rows[m.row - 1][m.col as int] is Null)
        } by {
            if k < before.len() {
                assert(all[k] == before[k]);
                assert(front[all[k].row - 1] == rows[all[k].row - 1]);
            } else {
                assert(all[k] == next[k - before.len()]);
            }
        }
        assert forall|k: int, l: int| 0 <= k < l < all.len() implies stands_before(
            #[trigger] all[k],
            #[trigger] all[l],
        ) by {
            if l < before.len() {
                assert(all[k] == before[k] && all[l] == before[l]);
            } else if k < before.len() {
                assert(all[k] == before[k]);
                assert(all[l] == next[l - before.len()]);
            } else {
                assert(all[k] == next[k - before.len()]);
                assert(all[l] == next[l - before.len()]);
            }
        }
    }
}

/// Everything on a sheet is a heading in the first row or the value of a cell, the cell
/// of row `r` and column `c` in row `r + 1` and column `c`; and nothing is written
/// twice into the same cell.
pub proof fn law_sheets_hold_nothing_else(
    columns: Seq<Seq<char>>,
    rows: Seq<Seq<CellView>>,
    marks: Seq<MarkView>,
    k: int,
    l: int,
)
    requires
        sheet_marks(columns, rows) == Ok::<Seq<MarkView>, ErrorView>(marks),
        0 <= k < marks.len(),
    ensures
        marks[k].row == 0 ==> marks[k].col < columns.len() && marks[k].ink == InkView::Heading(
            columns[marks[k].col as int],
        ),
        marks[k].row > 0 ==> marks[k].row <= rows.len() && marks[k].col < rows[marks[k].row
            - 1].len() && marks[k].ink == InkView::Value(
            rows[marks[k].row - 1][marks[k].col as int],
        ) && !(rows[marks[k].row - 1][marks[k].col as int] is Null),
        k < l < marks.len() ==> stands_before(marks[k], marks[l]),
{
    let head = heading_marks(columns);
    let body = body_marks(rows);
    lemma_body_marks(rows);
    if k < head.len() {
        assert(marks[k] == head[k]);
    } else {
        assert(marks[k] == body[k - head.len()]);
    }
    if k < l < marks.len() {
        if l < head.len() {
            assert(marks[l] == head[l]);
        } else {
            assert(marks[l] == body[l - head.len()]);
        }
    }
}

/// Every column has its heading and every cell that is not NULL its value on the sheet.
pub proof fn law_sheets_hold_every_cell(
    columns: Seq<Seq<char>>,
    rows: Seq<Seq<CellView>>,
    marks: Seq<MarkView>,
    r: int,
    c: int,
)
    requires
        sheet_marks(columns, rows) == Ok::<Seq<MarkView>, ErrorView>(marks),
    ensures
        0 <= c < columns.len() ==> marks.contains(
            MarkView { row: 0, col: c as u16, ink: InkView::Heading(columns[c]) },
        ),
        0 <= r < rows.len() && 0 <= c < rows[r].len() && !(rows[r][c] is Null) ==> marks.contains(
            MarkView { row: (r + 1) as u32, col: c as u16, ink: InkView::Value(rows[r][c]) },
        ),
{
    let head = heading_marks(columns);
    let body = body_marks(rows);
    if 0 <= c < columns.len() {
        assert(marks[c] == head[c]);
    }
    if 0 <= r < rows.len() && 0 <= c < rows[r].len() && !(rows[r][c] is Null) {
        lemma_body_holds(rows, r, c);
        let m = MarkView { row: (r + 1) as u32, col: c as u16, ink: InkView::Value(rows[r][c]) };
        let k = choose|k: int| 0 <= k < body.len() && body[k] == m;
        assert(marks[head.len() + k] == m);
    }
}

proof fn lemma_body_holds(rows: Seq<Seq<CellView>>, r: int, c: int)
    requires
        rows.len() < u32::MAX,
        forall|i: int| 0 <= i < rows.len() ==> (#[trigger] rows[i]).len() <= 65536,
        0 <= r < rows.len(),
        0 <= c < rows[r].len(),
        !(rows[r][c] is Null),
    ensures
        body_marks(rows).contains(
            MarkView { row: (r + 1) as u32, col: c as u16, ink: InkView::Value(rows[r][c]) },
        ),
    decreases rows.len(),
{
    let front = rows.drop_last();
    let before = body_marks(front);
    let next = row_marks(rows.last(), rows.len() as u32);
    let m = MarkView { row: (r + 1) as u32, col: c as u16, ink: InkView::Value(rows[r][c]) };
    if r < rows.len() - 1 {
        assert forall|i: int| 0 <= i < front.len() implies (#[trigger] front[i]).len() <= 65536 by {
            assert(front[i] == rows[i]);
        }
        assert(front[r] == rows[r]);
        lemma_body_holds(front, r, c);
        let k = choose|k: int| 0 <= k < before.len() && before[k] == m;
        assert(body_marks(rows)[k] == m);
    } else {
        law_row_is_written_once(rows.last(), rows.len() as u32);
        let k = choose|k: int| 0 <= k < next.len() && next[k] == m;
        assert(body_marks(rows)[before.len() + k] == m);
    }
}

} // verus!
