//! Rows turned into what the target takes, row by row and in parallel.
use crate::double::{is_reader, reading, Real, Reading};
use crate::etl::mapping::{rules_view, MappingRule, NullPolicy, RuleView};
use crate::models::value::{
    convert, row_view, rows_view, CellValue, CellView, Converted,
};
use rayon::iter::{IntoParallelIterator, ParallelIterator};
use vstd::prelude::*;

verus! {

/// Why a row failed: its number, the column, and the reason.
#[derive(Debug, Clone, PartialEq)]
pub struct RowError {
    pub row: usize,
    pub column: String,
    pub reason: String,
}

#[verifier::ext_equal]
pub struct RowErrorView {
    pub row: usize,
    pub column: Seq<char>,
    pub reason: Seq<char>,
}

impl View for RowError {
    type V = RowErrorView;

    open spec fn view(&self) -> RowErrorView {
        RowErrorView { row: self.row, column: self.column@, reason: self.reason@ }
    }
}

pub open spec fn row_errors_view(v: Seq<RowError>) -> Seq<RowErrorView> {
    Seq::new(v.len(), |i: int| v[i]@)
}

/// The number of the `i`-th row when the first has the number `first`.
pub open spec fn row_number(first: usize, i: int) -> usize {
    if first + i <= usize::MAX {
        (first + i) as usize
    } else {
        usize::MAX
    }
}

/// The number of a row.
pub fn number_row(first: usize, i: usize) -> (r: usize)
    ensures
        r == row_number(first, i as int),
{
    if i <= usize::MAX - first {
        first + i
    } else {
        usize::MAX
    }
}

/// The cell that a rule reads; NULL where the row is too short.
pub open spec fn rule_cell(row: Seq<CellView>, rule: RuleView) -> CellView {
    if rule.source_index < row.len() {
        row[rule.source_index as int]
    } else {
        CellView::Null
    }
}

/// What a rule makes of a row: a cell, or a reason to fail.
pub open spec fn apply_rule(row: Seq<CellView>, rule: RuleView, rd: Reading) -> Converted {
    let c = rule_cell(row, rule);
    if c is Null {
        match rule.null_policy {
            NullPolicy::Allow => Ok(CellView::Null),
            NullPolicy::Error => Err("欄位為空，但 NULL 政策為不允許"@),
        }
    } else {
        convert(c, rule.target_type, rd)
    }
}

/// A row turned into target cells by its rules; the first rule that fails fails the row.
pub open spec fn transformed(
    row: Seq<CellView>,
    rules: Seq<RuleView>,
    number: usize,
    rd: Reading,
) -> Result<Seq<CellView>, RowErrorView>
    decreases rules.len(),
{
    if rules.len() == 0 {
        Ok(seq![])
    } else {
        match transformed(row, rules.drop_last(), number, rd) {
            Err(e) => Err(e),
            Ok(cells) => match apply_rule(row, rules.last(), rd) {
                Ok(c) => Ok(cells.push(c)),
                Err(reason) => Err(
                    RowErrorView { row: number, column: rules.last().source_name, reason },
                ),
            },
        }
    }
}

/// The rows that were turned, and the errors of the others, both in order.
pub open spec fn partition(
    rows: Seq<Seq<CellView>>,
    rules: Seq<RuleView>,
    first: usize,
    rd: Reading,
) -> (Seq<Seq<CellView>>, Seq<RowErrorView>)
    decreases rows.len(),
{
    if rows.len() == 0 {
        (seq![], seq![])
    } else {
        let (ok, bad) = partition(rows.drop_last(), rules, first, rd);
        match transformed(rows.last(), rules, row_number(first, rows.len() - 1), rd) {
            Ok(cells) => (ok.push(cells), bad),
            Err(e) => (ok, bad.push(e)),
        }
    }
}

/// No row is lost and none is counted twice: it is either turned as a whole,
/// with a cell for every rule, or reported.
pub proof fn law_rows_are_turned_or_reported(
    rows: Seq<Seq<CellView>>,
    rules: Seq<RuleView>,
    first: usize,
    rd: Reading,
)
    ensures
        ({
            let (ok, bad) = partition(rows, rules, first, rd);
            &&& ok.len() + bad.len() == rows.len()
            &&& forall|i: int| 0 <= i < ok.len() ==> (#[trigger] ok[i]).len() == rules.len()
        }),
    decreases rows.len(),
{
    if rows.len() > 0 {
        law_rows_are_turned_or_reported(rows.drop_last(), rules, first, rd);
        lemma_transformed_len(rows.last(), rules, row_number(first, rows.len() - 1), rd);
    }
}

proof fn lemma_transformed_len(
    row: Seq<CellView>,
    rules: Seq<RuleView>,
    number: usize,
    rd: Reading,
)
    ensures
        transformed(row, rules, number, rd) matches Ok(cells) ==> cells.len() == rules.len(),
        transformed(row, rules, number, rd) matches Err(e) ==> e.row == number,
    decreases rules.len(),
{
    if rules.len() > 0 {
        lemma_transformed_len(row, rules.drop_last(), number, rd);
    }
}

proof fn lemma_transformed_error(
    row: Seq<CellView>,
    rules: Seq<RuleView>,
    k: int,
    number: usize,
    rd: Reading,
)
    requires
        0 <= k <= rules.len(),
        transformed(row, rules.take(k), number, rd) is Err,
    ensures
        transformed(row, rules, number, rd) == transformed(row, rules.take(k), number, rd),
    decreases rules.len() - k,
{
    if k < rules.len() {
        assert(rules.take(k + 1).drop_last() =~= rules.take(k));
        lemma_transformed_error(row, rules, k + 1, number, rd);
    } else {
        assert(rules.take(k) =~= rules);
    }
}

/// A turned row, or its error, as the rules say.
pub open spec fn row_done(
    r: Result<Vec<CellValue>, RowError>,
    s: Result<Seq<CellView>, RowErrorView>,
) -> bool {
    match r {
        Ok(v) => s == Ok::<Seq<CellView>, RowErrorView>(row_view(v@)),
        Err(e) => s == Err::<Seq<CellView>, RowErrorView>(e@),
    }
}

/// Turns a row into target cells.
pub fn transform_row<F: Fn(String) -> Option<Real>>(
    row: &Vec<CellValue>,
    rules: &Vec<MappingRule>,
    number: usize,
    read: &F,
) -> (r: Result<Vec<CellValue>, RowError>)
    requires
        is_reader(*read),
    ensures
        row_done(
            r,
            transformed(row_view(row@), rules_view(rules@), number, reading(*read)),
        ),
{
    let ghost all = rules_view(rules@);
    let ghost cells = row_view(row@);
    let ghost rd = reading(*read);
    let mut out: Vec<CellValue> = Vec::new();
    let mut i: usize = 0;
    assert(row_view(out@) =~= seq![]);
    while i < rules.len()
        invariant
            i <= rules@.len(),
            is_reader(*read),
            all == rules_view(rules@),
            cells == row_view(row@),
            rd == reading(*read),
            transformed(cells, all.take(i as int), number, rd) == Ok::<
                Seq<CellView>,
                RowErrorView,
            >(row_view(out@)),
        decreases rules@.len() - i,
    {
        let rule: &MappingRule = &rules[i];
        proof {
            assert(all.take(i + 1).drop_last() =~= all.take(i as int));
            assert(all.take(i + 1).last() == rule@);
        }
        let blank: bool = rule.source_index >= row.len() || row[rule.source_index].is_null();
        let done: Result<CellValue, String> = if blank {
            match rule.null_policy {
                NullPolicy::Allow => Ok(CellValue::Null),
                NullPolicy::Error => Err(
                    "欄位為空，但 NULL 政策為不允許".to_string(),
                ),
            }
        } else {
            row[rule.source_index].convert_to(rule.target_type, read)
        };
        match done {
            Ok(c) => {
                assert(row_view(out@.push(c)) =~= row_view(out@).push(c@));
                out.push(c);
            },
            Err(reason) => {
                proof {
                    lemma_transformed_error(cells, all, i + 1, number, rd);
                }
                return Err(
                    RowError { row: number, column: rule.source_name.clone(), reason },
                );
            },
        }
        i += 1;
    }
    assert(all.take(i as int) =~= all);
    Ok(out)
}

/// Turns the `i`-th row.
fn transform_nth<F: Fn(String) -> Option<Real>>(
    rows: &Vec<Vec<CellValue>>,
    rules: &Vec<MappingRule>,
    first: usize,
    i: usize,
    read: &F,
) -> (r: Result<Vec<CellValue>, RowError>)
    requires
        i < rows@.len(),
        is_reader(*read),
    ensures
        row_done(
            r,
            transformed(
                row_view(rows@[i as int]@),
                rules_view(rules@),
                row_number(first, i as int),
                reading(*read),
            ),
        ),
{
    transform_row(&rows[i], rules, number_row(first, i), read)
}

/// Maps every row index in parallel with `rayon`; `collect` keeps the order of the indices.
#[verifier::external_body]
fn transform_each<F: Fn(String) -> Option<Real> + Sync>(
    rows: &Vec<Vec<CellValue>>,
    rules: &Vec<MappingRule>,
    first: usize,
    read: &F,
) -> (r: Vec<Result<Vec<CellValue>, RowError>>)
    requires
        is_reader(*read),
    ensures
        r@.len() == rows@.len(),
        forall|i: int|
            0 <= i < r@.len() ==> row_done(
                #[trigger] r@[i],
                transformed(
                    row_view(rows@[i]@),
                    rules_view(rules@),
                    row_number(first, i),
                    reading(*read),
                ),
            ),
{
    (0..rows.len()).into_par_iter().map(|i| transform_nth(rows, rules, first, i, read)).collect()
}

/// Turns all rows: those that succeed, and the errors of the others. The
/// first row has the number `row_offset`.
pub fn transform_rows<F: Fn(String) -> Option<Real> + Sync>(
    rows: &Vec<Vec<CellValue>>,
    rules: &Vec<MappingRule>,
    row_offset: usize,
    read: &F,
) -> (r: (Vec<Vec<CellValue>>, Vec<RowError>))
    requires
        is_reader(*read),
    ensures
        (rows_view(r.0@), row_errors_view(r.1@)) == partition(
            rows_view(rows@),
            rules_view(rules@),
            row_offset,
            reading(*read),
        ),
{
    let results: Vec<Result<Vec<CellValue>, RowError>> = transform_each(
        rows,
        rules,
        row_offset,
        read,
    );
    let ghost all = rows_view(rows@);
    let ghost rl = rules_view(rules@);
    let ghost rd = reading(*read);
    let ghost done = results@;
    let mut ok: Vec<Vec<CellValue>> = Vec::new();
    let mut bad: Vec<RowError> = Vec::new();
    proof {
        assert(rows_view(ok@) =~= seq![]);
        assert(row_errors_view(bad@) =~= seq![]);
        assert(all.take(0) =~= seq![]);
    }
    for r in it: results
        invariant
            it.seq() == done,
            done.len() == rows@.len(),
            all == rows_view(rows@),
            rl == rules_view(rules@),
            rd == reading(*read),
            forall|k: int|
                0 <= k < done.len() ==> row_done(
                    #[trigger] done[k],
                    transformed(row_view(rows@[k]@), rl, row_number(row_offset, k), rd),
                ),
            (rows_view(ok@), row_errors_view(bad@)) == partition(
                all.take(it.index() as int),
                rl,
                row_offset,
                rd,
            ),
    {
        proof {
            let n = it.index() as int;
            assert(all.take(n + 1).drop_last() =~= all.take(n));
            assert(all.take(n + 1).last() == row_view(rows@[n]@));
            assert(r == done[n]);
        }
        match r {
            Ok(row) => {
                assert(rows_view(ok@.push(row)) =~= rows_view(ok@).push(row_view(row@)));
                ok.push(row);
            },
            Err(e) => {
                assert(row_errors_view(bad@.push(e)) =~= row_errors_view(bad@).push(e@));
                bad.push(e);
            },
        }
    }
    assert(all.take(rows@.len() as int) =~= all);
    (ok, bad)
}

/// A row is turned rule by rule: each rule takes the cell at its place, NULL where the
/// row ends before it, and gives that cell in the type of the rule. NULL goes through
/// where the rule allows it.
pub proof fn law_each_rule_gives_its_cell(
    row: Seq<CellView>,
    rules: Seq<RuleView>,
    number: usize,
    rd: Reading,
    cells: Seq<CellView>,
    i: int,
)
    requires
        transformed(row, rules, number, rd) == Ok::<Seq<CellView>, RowErrorView>(cells),
        0 <= i < rules.len(),
    ensures
        cells.len() == rules.len(),
        rules[i].source_index < row.len() && row[rules[i].source_index as int] !is Null ==> convert(
            row[rules[i].source_index as int],
            rules[i].target_type,
            rd,
        ) == Ok::<CellView, Seq<char>>(cells[i]),
        !(rules[i].source_index < row.len() && row[rules[i].source_index as int] !is Null)
            ==> cells[i] is Null && rules[i].null_policy is Allow,
    decreases rules.len(),
{
    let front = rules.drop_last();
    let before = transformed(row, front, number, rd)->Ok_0;
    lemma_transformed_len(row, rules, number, rd);
    lemma_transformed_len(row, front, number, rd);
    if i < rules.len() - 1 {
        law_each_rule_gives_its_cell(row, front, number, rd, before, i);
        assert(front[i] == rules[i]);
        assert(cells[i] == before[i]);
    }
}

/// A row fails by the first rule that cannot give its cell: the error tells the row's
/// number, the source column of that rule, and why.
pub proof fn law_first_failing_rule_is_told(
    row: Seq<CellView>,
    rules: Seq<RuleView>,
    number: usize,
    rd: Reading,
    e: RowErrorView,
) -> (k: int)
    requires
        transformed(row, rules, number, rd) == Err::<Seq<CellView>, RowErrorView>(e),
    ensures
        0 <= k < rules.len(),
        e.row == number,
        e.column == rules[k].source_name,
        apply_rule(row, rules[k], rd) == Err::<CellView, Seq<char>>(e.reason),
        forall|j: int| 0 <= j < k ==> apply_rule(row, #[trigger] rules[j], rd) is Ok,
    decreases rules.len(),
{
    let front = rules.drop_last();
    if transformed(row, front, number, rd) is Err {
        let k = law_first_failing_rule_is_told(row, front, number, rd, e);
        assert forall|j: int| 0 <= j < k implies apply_rule(row, #[trigger] rules[j], rd) is Ok by {
            assert(front[j] == rules[j]);
        }
        k
    } else {
        let k = rules.len() - 1;
        assert forall|j: int| 0 <= j < k implies apply_rule(row, #[trigger] rules[j], rd) is Ok by {
            lemma_rule_ok(row, front, number, rd, j);
            assert(front[j] == rules[j]);
        }
        k
    }
}

proof fn lemma_rule_ok(row: Seq<CellView>, rules: Seq<RuleView>, number: usize, rd: Reading, j: int)
    requires
        transformed(row, rules, number, rd) is Ok,
        0 <= j < rules.len(),
    ensures
        apply_rule(row, rules[j], rd) is Ok,
    decreases rules.len(),
{
    if j < rules.len() - 1 {
        lemma_rule_ok(row, rules.drop_last(), number, rd, j);
    }
}

/// An empty cell fails exactly where its rule does not allow NULL.
pub proof fn law_null_goes_by_its_rule(row: Seq<CellView>, rule: RuleView, rd: Reading)
    requires
        rule.source_index >= row.len() || row[rule.source_index as int] is Null,
    ensures
        apply_rule(row, rule, rd) is Err <==> rule.null_policy is Error,
        apply_rule(row, rule, rd) matches Ok(c) ==> c is Null,
{
}

/// Rows are turned one after the other: what comes of some rows is what comes of the
/// first of them followed by what comes of the others, numbered on.
pub proof fn law_rows_are_turned_in_order(
    a: Seq<Seq<CellView>>,
    b: Seq<Seq<CellView>>,
    rules: Seq<RuleView>,
    first: usize,
    rd: Reading,
)
    requires
        first + a.len() + b.len() <= usize::MAX,
    ensures
        partition(a + b, rules, first, rd).0 == partition(a, rules, first, rd).0 + partition(
            b,
            rules,
            (first + a.len()) as usize,
            rd,
        ).0,
        partition(a + b, rules, first, rd).1 == partition(a, rules, first, rd).1 + partition(
            b,
            rules,
            (first + a.len()) as usize,
            rd,
        ).1,
    decreases b.len(),
{
    let next = (first + a.len()) as usize;
    if b.len() == 0 {
        assert(a + b =~= a);
        assert(partition(b, rules, next, rd).0 =~= seq![]);
        assert(partition(b, rules, next, rd).1 =~= seq![]);
        assert(partition(a, rules, first, rd).0 + partition(b, rules, next, rd).0 =~= partition(
            a,
            rules,
            first,
            rd,
        ).0);
        assert(partition(a, rules, first, rd).1 + partition(b, rules, next, rd).1 =~= partition(
            a,
            rules,
            first,
            rd,
        ).1);
    } else {
        let front = b.drop_last();
        law_rows_are_turned_in_order(a, front, rules, first, rd);
        assert((a + b).drop_last() =~= a + front);
        assert((a + b).last() == b.last());
        assert(row_number(first, (a + b).len() - 1) == row_number(next, b.len() - 1));
        let x = partition(a, rules, first, rd);
        let y = partition(front, rules, next, rd);
        assert forall|c: Seq<CellView>| (x.0 + y.0).push(c) == x.0 + #[trigger] y.0.push(c) by {
            assert((x.0 + y.0).push(c) =~= x.0 + y.0.push(c));
        }
        assert forall|e: RowErrorView| (x.1 + y.1).push(e) == x.1 + #[trigger] y.1.push(e) by {
            assert((x.1 + y.1).push(e) =~= x.1 + y.1.push(e));
        }
    }
}

/// One row alone is turned or reported under its number.
pub proof fn law_one_row_is_turned_or_reported(
    row: Seq<CellView>,
    rules: Seq<RuleView>,
    first: usize,
    rd: Reading,
)
    ensures
        transformed(row, rules, first, rd) matches Ok(cells) ==> partition(
            seq![row],
            rules,
            first,
            rd,
        ) == (seq![cells], Seq::<RowErrorView>::empty()),
        transformed(row, rules, first, rd) matches Err(e) ==> partition(
            seq![row],
            rules,
            first,
            rd,
        ) == (Seq::<Seq<CellView>>::empty(), seq![e]),
{
    assert(seq![row].drop_last() =~= seq![]);
    assert(partition(seq![row].drop_last(), rules, first, rd) == (
        Seq::<Seq<CellView>>::empty(),
        Seq::<RowErrorView>::empty(),
    ));
    let none = Seq::<Seq<CellView>>::empty();
    let no_errors = Seq::<RowErrorView>::empty();
    if let Ok(cells) = transformed(row, rules, first, rd) {
        assert(none.push(cells) =~= seq![cells]);
    }
    if let Err(e) = transformed(row, rules, first, rd) {
        assert(no_errors.push(e) =~= seq![e]);
    }
}

/// Every reported row has the number of one of the rows.
pub proof fn law_errors_tell_their_rows(
    rows: Seq<Seq<CellView>>,
    rules: Seq<RuleView>,
    first: usize,
    rd: Reading,
    k: int,
) -> (i: int)
    requires
        0 <= k < partition(rows, rules, first, rd).1.len(),
    ensures
        0 <= i < rows.len(),
        partition(rows, rules, first, rd).1[k].row == row_number(first, i),
        transformed(rows[i], rules, row_number(first, i), rd) == Err::<Seq<CellView>, RowErrorView>(
            partition(rows, rules, first, rd).1[k],
        ),
    decreases rows.len(),
{
    let before = partition(rows.drop_last(), rules, first, rd).1;
    if k < before.len() {
        let i = law_errors_tell_their_rows(rows.drop_last(), rules, first, rd, k);
        assert(partition(rows, rules, first, rd).1[k] == before[k]);
        i
    } else {
        let i = rows.len() - 1;
        let e = partition(rows, rules, first, rd).1[k];
        let j = law_first_failing_rule_is_told(rows[i], rules, row_number(first, i), rd, e);
        i
    }
}

} // verus!
