//! The type of a column, voted for by its cells.
use crate::etl::source_input::width;
use crate::models::value::{cell_type, row_view, rows_view, CellValue, CellView, DataType};
use vstd::prelude::*;

verus! {

/// The type that two types have in common: whole and fractional numbers are
/// fractional, dates and times are times, and everything else is text.
pub open spec fn common(a: DataType, b: DataType) -> DataType {
    if a == b {
        a
    } else if (a is Integer || a is Float) && (b is Integer || b is Float) {
        DataType::Float
    } else if (a is Date || a is DateTime) && (b is Date || b is DateTime) {
        DataType::DateTime
    } else {
        DataType::Text
    }
}

/// The type so far and one more vote.
pub open spec fn vote(so_far: Option<DataType>, t: DataType) -> DataType {
    match so_far {
        None => t,
        Some(a) => common(a, t),
    }
}

/// The vote of a cell; a missing cell and NULL have none.
pub open spec fn ballot(row: Seq<CellView>, col: int) -> Option<DataType> {
    if 0 <= col < row.len() {
        cell_type(row[col])
    } else {
        None
    }
}

/// The type of a column; none where no cell voted.
pub open spec fn column_type(rows: Seq<Seq<CellView>>, col: int) -> Option<DataType>
    decreases rows.len(),
{
    if rows.len() == 0 {
        None
    } else {
        let before = column_type(rows.drop_last(), col);
        match ballot(rows.last(), col) {
            Some(t) => Some(vote(before, t)),
            None => before,
        }
    }
}

/// The first rows, as many as there are.
pub open spec fn first_rows(rows: Seq<Seq<CellView>>, sample: nat) -> Seq<Seq<CellView>> {
    if sample <= rows.len() {
        rows.take(sample as int)
    } else {
        rows
    }
}

/// The types of all columns; only the first rows vote.
pub open spec fn inferred(rows: Seq<Seq<CellView>>, sample: nat) -> Seq<Option<DataType>> {
    Seq::new(width(rows), |col: int| column_type(first_rows(rows, sample), col))
}

/// How types merge: the order in which they come does not matter, nor how often
/// one comes. Text takes in everything, whole numbers and fractions make
/// fractions, dates and times make times, and any other mixture is text.
pub proof fn law_common_type_has_no_order(a: DataType, b: DataType, c: DataType)
    ensures
        vote(Some(a), b) == vote(Some(b), a),
        vote(Some(vote(Some(a), b)), c) == vote(Some(a), vote(Some(b), c)),
        vote(Some(a), a) == a,
        vote(Some(a), DataType::Text) == DataType::Text,
        vote(None, a) == a,
        vote(Some(DataType::Integer), DataType::Float) == DataType::Float,
        vote(Some(DataType::Date), DataType::DateTime) == DataType::DateTime,
        a != b && !(a is Integer && b is Float) && !(a is Float && b is Integer) && !(a is Date
            && b is DateTime) && !(a is DateTime && b is Date) ==> vote(Some(a), b)
            == DataType::Text,
{
}

/// Two results of a vote put together.
spec fn both(a: Option<DataType>, b: Option<DataType>) -> Option<DataType> {
    match b {
        Some(t) => Some(vote(a, t)),
        None => a,
    }
}

proof fn lemma_both(a: Seq<Seq<CellView>>, b: Seq<Seq<CellView>>, col: int)
    ensures
        column_type(a + b, col) == both(column_type(a, col), column_type(b, col)),
    decreases b.len(),
{
    if b.len() == 0 {
        assert(a + b =~= a);
    } else {
        let front = b.drop_last();
        lemma_both(a, front, col);
        assert((a + b).drop_last() =~= a + front);
        assert((a + b).last() == b.last());
    }
}

proof fn lemma_one_out(rows: Seq<Seq<CellView>>, i: int, col: int)
    requires
        0 <= i < rows.len(),
    ensures
        column_type(rows, col) == both(column_type(rows.remove(i), col), ballot(rows[i], col)),
{
    let before = rows.take(i);
    let one = seq![rows[i]];
    let behind = rows.skip(i + 1);
    assert(rows =~= (before + one) + behind);
    assert(rows.remove(i) =~= before + behind);
    lemma_both(before + one, behind, col);
    lemma_both(before, one, col);
    lemma_both(before, behind, col);
    assert(one.drop_last() =~= seq![]);
    assert(column_type(one.drop_last(), col) is None);
    assert(column_type(one, col) == ballot(rows[i], col));
}

/// The order of the rows does not matter for the type of a column.
pub proof fn law_column_type_has_no_order(
    rows: Seq<Seq<CellView>>,
    other: Seq<Seq<CellView>>,
    col: int,
)
    requires
        rows.to_multiset() == other.to_multiset(),
    ensures
        column_type(rows, col) == column_type(other, col),
    decreases rows.len(),
{
    rows.to_multiset_ensures();
    other.to_multiset_ensures();
    if rows.len() == 0 {
        assert(other.len() == 0);
    } else {
        let last = rows.len() - 1;
        assert(rows.to_multiset().count(rows[last]) > 0);
        assert(other.contains(rows[last]));
        let j = choose|j: int| 0 <= j < other.len() && other[j] == rows[last];
        assert(rows.remove(last).to_multiset() == other.remove(j).to_multiset());
        law_column_type_has_no_order(rows.remove(last), other.remove(j), col);
        lemma_one_out(rows, last, col);
        lemma_one_out(other, j, col);
    }
}

/// Merging only widens: the common type takes in both types again.
pub proof fn law_common_type_takes_in_both(a: DataType, b: DataType)
    ensures
        common(common(a, b), a) == common(a, b),
        common(common(a, b), b) == common(a, b),
{
}

proof fn lemma_all_voted(rows: Seq<Seq<CellView>>, col: int)
    ensures
        forall|i: int|
            0 <= i < rows.len() && ballot(#[trigger] rows[i], col) is Some ==> column_type(
                rows,
                col,
            ) is Some && common(column_type(rows, col)->0, ballot(rows[i], col)->0) == column_type(
                rows,
                col,
            )->0,
    decreases rows.len(),
{
    if rows.len() > 0 {
        lemma_all_voted(rows.drop_last(), col);
        assert forall|i: int|
            0 <= i < rows.len() && ballot(#[trigger] rows[i], col) is Some implies column_type(
            rows,
            col,
        ) is Some && common(column_type(rows, col)->0, ballot(rows[i], col)->0) == column_type(
            rows,
            col,
        )->0 by {
            if i < rows.len() - 1 {
                assert(rows.drop_last()[i] == rows[i]);
            }
        }
    }
}

/// The type of a column takes in the type of each of its cells that voted, and
/// it is open only where no cell voted.
pub proof fn law_column_type_takes_in_every_cell(rows: Seq<Seq<CellView>>, col: int, i: int)
    requires
        0 <= i < rows.len(),
        ballot(rows[i], col) is Some,
    ensures
        column_type(rows, col) matches Some(t) && common(t, ballot(rows[i], col)->0) == t,
{
    lemma_all_voted(rows, col);
}

/// The type so far and one more vote.
pub fn merge(so_far: Option<DataType>, t: DataType) -> (r: DataType)
    ensures
        r == vote(so_far, t),
{
    match so_far {
        None => t,
        Some(a) => if a == t {
            a
        } else {
            match (a, t) {
                (DataType::Integer, DataType::Float) => DataType::Float,
                (DataType::Float, DataType::Integer) => DataType::Float,
                (DataType::Date, DataType::DateTime) => DataType::DateTime,
                (DataType::DateTime, DataType::Date) => DataType::DateTime,
                _ => DataType::Text,
            }
        },
    }
}

fn type_of_column(rows: &Vec<Vec<CellValue>>, n: usize, col: usize) -> (r: Option<DataType>)
    requires
        n <= rows@.len(),
    ensures
        r == column_type(rows_view(rows@).take(n as int), col as int),
{
    let ghost all = rows_view(rows@);
    let mut t: Option<DataType> = None;
    let mut i: usize = 0;
    while i < n
        invariant
            i <= n <= rows@.len(),
            all == rows_view(rows@),
            t == column_type(all.take(i as int), col as int),
        decreases n - i,
    {
        assert(all.take(i + 1).drop_last() =~= all.take(i as int));
        assert(all.take(i + 1).last() == row_view(rows@[i as int]@));
        if col < rows[i].len() {
            if let Some(v) = rows[i][col].data_type() {
                t = Some(merge(t, v));
            }
        }
        i += 1;
    }
    t
}

/// The types of all columns, voted for by the first `sample` rows.
pub fn infer_types(rows: &Vec<Vec<CellValue>>, sample: usize) -> (r: Vec<Option<DataType>>)
    ensures
        r@ == inferred(rows_view(rows@), sample as nat),
{
    let ghost all = rows_view(rows@);
    let n: usize = if sample <= rows.len() {
        sample
    } else {
        rows.len()
    };
    assert(all.take(n as int) =~= first_rows(all, sample as nat));
    let mut cols: usize = 0;
    let mut k: usize = 0;
    assert(all.take(0) =~= seq![]);
    while k < rows.len()
        invariant
            k <= rows@.len(),
            all == rows_view(rows@),
            cols == width(all.take(k as int)),
        decreases rows@.len() - k,
    {
        assert(all.take(k + 1).drop_last() =~= all.take(k as int));
        if rows[k].len() > cols {
            cols = rows[k].len();
        }
        k += 1;
    }
    assert(all.take(k as int) =~= all);
    let mut out: Vec<Option<DataType>> = Vec::new();
    let mut c: usize = 0;
    while c < cols
        invariant
            c <= cols,
            n <= rows@.len(),
            out@.len() == c,
            all == rows_view(rows@),
            forall|j: int| 0 <= j < c ==> #[trigger] out@[j] == column_type(all.take(n as int), j),
        decreases cols - c,
    {
        out.push(type_of_column(rows, n, c));
        c += 1;
    }
    assert(out@ =~= inferred(all, sample as nat));
    out
}

/// Numbers stay numbers and times stay times: only a mixture of unlike kinds is text.
pub proof fn law_like_types_stay_like(a: DataType, b: DataType)
    ensures
        ({
            let numbers = (a is Integer || a is Float) && (b is Integer || b is Float);
            let times = (a is Date || a is DateTime) && (b is Date || b is DateTime);
            &&& numbers ==> common(a, b) is Integer || common(a, b) is Float
            &&& times ==> common(a, b) is Date || common(a, b) is DateTime
            &&& !numbers && !times && a != b ==> common(a, b) is Text
            &&& common(a, b) is Integer <==> a is Integer && b is Integer
            &&& common(a, b) is Date <==> a is Date && b is Date
            &&& common(a, b) is Bool <==> a is Bool && b is Bool
        }),
{
}

/// A column whose cells all have one type has that type, and a column where no cell
/// voted is open.
pub proof fn law_column_of_one_type_has_it(rows: Seq<Seq<CellView>>, col: int, t: DataType)
    requires
        forall|i: int|
            0 <= i < rows.len() ==> ballot(#[trigger] rows[i], col) is None || ballot(rows[i], col)
                == Some(t),
    ensures
        column_type(rows, col) is None || column_type(rows, col) == Some(t),
        column_type(rows, col) is None <==> forall|i: int|
            0 <= i < rows.len() ==> ballot(#[trigger] rows[i], col) is None,
    decreases rows.len(),
{
    if rows.len() > 0 {
        let front = rows.drop_last();
        let last = rows.len() - 1;
        assert forall|i: int| 0 <= i < front.len() implies ballot(#[trigger] front[i], col) is None
            || ballot(front[i], col) == Some(t) by {
            assert(front[i] == rows[i]);
        }
        law_column_of_one_type_has_it(front, col, t);
        assert(rows[last] == rows.last());
        if column_type(rows, col) is None {
            assert forall|i: int| 0 <= i < rows.len() implies ballot(#[trigger] rows[i], col)
                is None by {
                if i < last {
                    assert(front[i] == rows[i]);
                }
            }
        } else if ballot(rows[last], col) is None {
            let i = choose|i: int| 0 <= i < front.len() && !(ballot(#[trigger] front[i], col) is None);
            assert(rows[i] == front[i]);
        }
    }
}

/// Only the first rows vote, and every column of the longest row gets a type or is open.
pub proof fn law_only_the_first_rows_vote(
    rows: Seq<Seq<CellView>>,
    other: Seq<Seq<CellView>>,
    sample: nat,
    col: int,
)
    requires
        sample <= rows.len(),
        sample <= other.len(),
        rows.take(sample as int) == other.take(sample as int),
        0 <= col < width(rows),
        0 <= col < width(other),
    ensures
        inferred(rows, sample).len() == width(rows),
        inferred(rows, sample)[col] == inferred(other, sample)[col],
        inferred(rows, sample)[col] == column_type(rows.take(sample as int), col),
{
}

/// A cell that a row does not have counts as NULL: filling a row up with NULL changes no vote,
/// and a row that is too short or has NULL there leaves the type of the column as it was.
pub proof fn law_missing_cells_do_not_vote(rows: Seq<Seq<CellView>>, row: Seq<CellView>, col: int)
    ensures
        ballot(row.push(CellView::Null), col) == ballot(row, col),
        col >= row.len() || row[col] is Null ==> column_type(rows.push(row), col) == column_type(
            rows,
            col,
        ),
{
    assert(rows.push(row).drop_last() =~= rows);
}

} // verus!
