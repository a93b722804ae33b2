//! IBM DB2: whether its driver is ready, and SQL with values written inline.
use crate::db::dialect::{quote_columns, quote_table, quoted_columns, quoted_table, Dialect};
use crate::double::{finite, is_finite};
use crate::etl::batches::{
    batch, batch_count, first_batches, law_batches_are_full, law_batches_cover_the_rows,
};
use crate::etl::script::ast::double_quotes;
use crate::etl::script::readback::values::lemma_int_text;
use crate::models::calendar::{day_text, stamp_text};
use crate::models::errors::{EluEtlError, ErrorView};
use crate::models::value::{bool_text, cell_text, row_view, rows_view, CellValue, CellView};
use crate::text;
use vstd::prelude::*;

verus! {

/// Where the driver is offered for download.
pub const DRIVER_DOWNLOAD_URL: &'static str = "https://www.ibm.com/support/pages/db2-data-server-driver-package-ds-driver";

/// Whether DB2 can be used.
#[derive(Debug, Clone)]
pub struct Db2DriverStatus {
    /// The program supports DB2 and the driver is installed.
    pub available: bool,
    pub feature_built: bool,
    pub driver_present: bool,
    pub message: String,
    pub download_url: String,
}

pub open spec fn status_message(feature_built: bool, driver_present: bool) -> Seq<char> {
    if !feature_built {
        "此版本未編譯 IBM DB2 支援。請於備有 IBM Data Server Driver 的環境以 `cargo build --features db2` 重新建置；DB2 連線方可使用。"@
    } else if driver_present {
        "IBM DB2 驅動已就緒。"@
    } else {
        "找不到 IBM Data Server Driver（clidriver）。請安裝後設定 IBM_DB_HOME（或 DB2_HOME）環境變數，再重新啟動本程式。"@
    }
}

/// Says whether DB2 can be used, given whether the program supports it and
/// whether the driver was found.
pub fn status(feature_built: bool, driver_present: bool) -> (r: Db2DriverStatus)
    ensures
        r.available == (feature_built && driver_present),
        r.feature_built == feature_built,
        r.driver_present == driver_present,
        r.message@ == status_message(feature_built, driver_present),
        r.download_url@ == DRIVER_DOWNLOAD_URL@,
{
    let message: &str = if !feature_built {
        "此版本未編譯 IBM DB2 支援。請於備有 IBM Data Server Driver 的環境以 `cargo build --features db2` 重新建置；DB2 連線方可使用。"
    } else if driver_present {
        "IBM DB2 驅動已就緒。"
    } else {
        "找不到 IBM Data Server Driver（clidriver）。請安裝後設定 IBM_DB_HOME（或 DB2_HOME）環境變數，再重新啟動本程式。"
    };
    Db2DriverStatus {
        available: feature_built && driver_present,
        feature_built,
        driver_present,
        message: message.to_string(),
        download_url: DRIVER_DOWNLOAD_URL.to_string(),
    }
}

/// The text without NUL characters.
pub open spec fn without_nul(s: Seq<char>) -> Seq<char>
    decreases s.len(),
{
    if s.len() == 0 {
        seq![]
    } else if s[0] == '\0' {
        without_nul(s.skip(1))
    } else {
        seq![s[0]] + without_nul(s.skip(1))
    }
}

/// A text as an SQL literal: quotes doubled, NUL characters left out.
pub open spec fn text_literal(s: Seq<char>) -> Seq<char> {
    seq!['\''] + double_quotes(without_nul(s)) + seq!['\'']
}

/// A value as an SQL literal.
pub open spec fn literal(c: CellView) -> Seq<char> {
    match c {
        CellView::Null => "NULL"@,
        CellView::Int(v) => text::int_text(v as int),
        CellView::Float(v) => if is_finite(v.bits) {
            v.text
        } else {
            "NULL"@
        },
        CellView::Bool(b) => if b {
            "TRUE"@
        } else {
            "FALSE"@
        },
        CellView::Text(s) => text_literal(s),
        CellView::DateTime(t) => "TIMESTAMP('"@ + stamp_text(t) + "')"@,
        CellView::Date(d) => "DATE('"@ + day_text(d) + "')"@,
    }
}

/// A text as an SQL literal.
pub fn quote_str(s: &str) -> (r: String)
    ensures
        r@ == text_literal(s@),
{
    let chars: Vec<char> = text::chars_of(s);
    let mut t: String = String::new();
    t.push('\'');
    let ghost goal = double_quotes(without_nul(s@));
    let mut i: usize = 0;
    proof {
        assert(s@.skip(0) =~= s@);
        assert(t@ + goal =~= seq!['\''] + goal);
    }
    while i < chars.len()
        invariant
            i <= chars@.len(),
            chars@ == s@,
            t@ + double_quotes(without_nul(s@.skip(i as int))) == seq!['\''] + goal,
        decreases chars@.len() - i,
    {
        let c: char = chars[i];
        let ghost before = t@;
        let ghost rest = without_nul(s@.skip(i + 1));
        proof {
            assert(s@.skip(i as int).skip(1) =~= s@.skip(i + 1));
            assert(s@.skip(i as int)[0] == c);
            if c != '\0' {
                let kept = seq![c] + rest;
                assert(kept.skip(1) =~= rest);
                assert(kept[0] == c);
            }
        }
        if c == '\'' {
            t.push('\'');
            t.push('\'');
            assert(t@ + double_quotes(rest) =~= before + (seq!['\'', '\''] + double_quotes(rest)));
        } else if c != '\0' {
            t.push(c);
            assert(t@ + double_quotes(rest) =~= before + (seq![c] + double_quotes(rest)));
        }
        i += 1;
    }
    t.push('\'');
    proof {
        assert(without_nul(s@.skip(i as int)) =~= seq![]);
        assert(t@ =~= text_literal(s@));
    }
    t
}

/// A value as an SQL literal.
pub fn sql_literal(cell: &CellValue) -> (r: String)
    ensures
        r@ == literal(cell@),
{
    match cell {
        CellValue::Null => "NULL".to_string(),
        CellValue::Int(v) => text::i64_text(*v),
        CellValue::Float(v) => if finite(v.bits) {
            v.text.clone()
        } else {
            "NULL".to_string()
        },
        CellValue::Bool(b) => if *b { "TRUE".to_string() } else { "FALSE".to_string() },
        CellValue::Text(s) => quote_str(s.as_str()),
        CellValue::DateTime(t) => text::cat3("TIMESTAMP('", t.show().as_str(), "')"),
        CellValue::Date(d) => text::cat3("DATE('", d.show().as_str(), "')"),
    }
}

/// `(literal,literal,…)`.
pub open spec fn row_literal(row: Seq<CellView>) -> Seq<char> {
    "("@ + text::join_seq(Seq::new(row.len(), |i: int| literal(row[i])), ","@) + ")"@
}

/// The INSERT of some rows into a table.
pub open spec fn insert_statement(
    table: Seq<char>,
    columns: Seq<char>,
    rows: Seq<Seq<CellView>>,
) -> Seq<char> {
    "INSERT INTO "@ + table + " ("@ + columns + ") VALUES "@ + text::join_seq(
        Seq::new(rows.len(), |i: int| row_literal(rows[i])),
        ","@,
    )
}

fn row_text(row: &Vec<CellValue>) -> (r: String)
    ensures
        r@ == row_literal(row_view(row@)),
{
    let mut parts: Vec<String> = Vec::new();
    let mut i: usize = 0;
    while i < row.len()
        invariant
            i <= row@.len(),
            parts@.len() == i,
            forall|j: int| 0 <= j < i ==> #[trigger] parts@[j]@ == literal(row@[j]@),
        decreases row@.len() - i,
    {
        parts.push(sql_literal(&row[i]));
        i += 1;
    }
    proof {
        let v = row_view(row@);
        assert(text::views(parts@) =~= Seq::new(v.len(), |j: int| literal(v[j])));
    }
    text::cat3("(", text::join(&parts, ",").as_str(), ")")
}

/// The INSERT of the rows from `from` up to `to`.
pub fn insert_sql(table: &str, columns: &str, rows: &Vec<Vec<CellValue>>, from: usize, to: usize) -> (r:
    String)
    requires
        from <= to <= rows@.len(),
    ensures
        r@ == insert_statement(
            table@,
            columns@,
            rows_view(rows@).subrange(from as int, to as int),
        ),
{
    let mut lines: Vec<String> = Vec::new();
    let mut i: usize = from;
    while i < to
        invariant
            from <= i <= to <= rows@.len(),
            lines@.len() == i - from,
            forall|j: int|
                0 <= j < i - from ==> #[trigger] lines@[j]@ == row_literal(
                    row_view(rows@[from + j]@),
                ),
        decreases to - i,
    {
        lines.push(row_text(&rows[i]));
        i += 1;
    }
    proof {
        let v = rows_view(rows@).subrange(from as int, to as int);
        assert(text::views(lines@) =~= Seq::new(v.len(), |j: int| row_literal(v[j])));
    }
    let head: String = text::cat5("INSERT INTO ", table, " (", columns, ") VALUES ");
    text::cat(head.as_str(), text::join(&lines, ",").as_str())
}

/// How many statements hold some rows, five hundred to a statement.
pub open spec fn statement_count(rows: nat) -> nat {
    (rows + 499) / 500
}

/// The rows of the `k`-th statement.
pub open spec fn chunk(rows: Seq<Seq<CellView>>, k: int) -> Seq<Seq<CellView>> {
    let end = if k * 500 + 500 <= rows.len() {
        k * 500 + 500
    } else {
        rows.len() as int
    };
    rows.subrange(k * 500, end)
}

/// The INSERT statements for some rows, five hundred rows to a statement.
pub fn insert_statements(table: &str, columns: &Vec<String>, rows: &Vec<Vec<CellValue>>) -> (r: Result<
    Vec<String>,
    EluEtlError,
>)
    ensures
        match r {
            Ok(v) => {
                &&& quoted_table(Dialect::Db2, table@) is Ok
                &&& quoted_columns(Dialect::Db2, text::views(columns@)) is Ok
                &&& v@.len() == statement_count(rows@.len())
                &&& forall|k: int|
                    0 <= k < v@.len() ==> #[trigger] v@[k]@ == insert_statement(
                        quoted_table(Dialect::Db2, table@)->Ok_0,
                        quoted_columns(Dialect::Db2, text::views(columns@))->Ok_0,
                        chunk(rows_view(rows@), k),
                    )
            },
            Err(e) => match quoted_table(Dialect::Db2, table@) {
                Err(x) => e@ == x,
                Ok(_) => quoted_columns(Dialect::Db2, text::views(columns@)) == Err::<
                    Seq<char>,
                    ErrorView,
                >(e@),
            },
        },
{
    let t: String = quote_table(Dialect::Db2, table)?;
    let c: String = quote_columns(Dialect::Db2, columns)?;
    let mut out: Vec<String> = Vec::new();
    let mut from: usize = 0;
    let len: usize = rows.len();
    while from < len
        invariant
            len == rows@.len(),
            from <= len,
            from < len ==> from == out@.len() * 500,
            from == len ==> out@.len() == statement_count(len as nat),
            out@.len() * 500 < len + 500,
            quoted_table(Dialect::Db2, table@) == Ok::<Seq<char>, ErrorView>(t@),
            quoted_columns(Dialect::Db2, text::views(columns@)) == Ok::<Seq<char>, ErrorView>(c@),
            forall|k: int|
                0 <= k < out@.len() ==> #[trigger] out@[k]@ == insert_statement(
                    t@,
                    c@,
                    chunk(rows_view(rows@), k),
                ),
        decreases len - from,
    {
        let to: usize = if len - from > 500 { from + 500 } else { len };
        let s: String = insert_sql(t.as_str(), c.as_str(), rows, from, to);
        assert(rows_view(rows@).len() == len);
        out.push(s);
        from = to;
    }
    Ok(out)
}

/// What a database reads of a text behind its opening quote: the text up to the quote
/// that ends it, and what follows. A doubled quote stands for one.
pub open spec fn sql_text(s: Seq<char>) -> Option<(Seq<char>, Seq<char>)>
    decreases s.len(),
{
    if s.len() == 0 {
        None
    } else if s[0] == '\'' && s.len() > 1 && s[1] == '\'' {
        match sql_text(s.skip(2)) {
            Some((t, rest)) => Some((seq!['\''] + t, rest)),
            None => None,
        }
    } else if s[0] == '\'' {
        Some((seq![], s.skip(1)))
    } else {
        match sql_text(s.skip(1)) {
            Some((t, rest)) => Some((seq![s[0]] + t, rest)),
            None => None,
        }
    }
}

proof fn lemma_doubled(t: Seq<char>, rest: Seq<char>)
    requires
        rest.len() > 0 ==> rest[0] != '\'',
    ensures
        sql_text(double_quotes(t) + seq!['\''] + rest) == Some((t, rest)),
    decreases t.len(),
{
    let s = double_quotes(t) + seq!['\''] + rest;
    if t.len() == 0 {
        assert(double_quotes(t) =~= seq![]);
        assert(s =~= seq!['\''] + rest);
        assert(s.skip(1) =~= rest);
        assert(t =~= seq![]);
    } else {
        let tail = t.skip(1);
        lemma_doubled(tail, rest);
        let next = double_quotes(tail) + seq!['\''] + rest;
        if t[0] == '\'' {
            assert(s =~= seq!['\'', '\''] + next);
            assert(s.skip(2) =~= next);
        } else {
            assert(s =~= seq![t[0]] + next);
            assert(s.skip(1) =~= next);
        }
        assert(t =~= seq![t[0]] + tail);
    }
}

/// A text literal ends where it should and reads back as the text, whatever quotes the
/// text holds; only NUL characters are left out.
pub proof fn law_text_literals_read_back(s: Seq<char>, rest: Seq<char>)
    requires
        rest.len() > 0 ==> rest[0] != '\'',
    ensures
        text_literal(s)[0] == '\'',
        sql_text((text_literal(s) + rest).skip(1)) == Some((without_nul(s), rest)),
        !without_nul(s).contains('\0'),
        !s.contains('\0') ==> without_nul(s) == s,
{
    let t = without_nul(s);
    lemma_doubled(t, rest);
    assert((text_literal(s) + rest).skip(1) =~= double_quotes(t) + seq!['\''] + rest);
    lemma_without_nul(s);
}

proof fn lemma_without_nul(s: Seq<char>)
    ensures
        !without_nul(s).contains('\0'),
        !s.contains('\0') ==> without_nul(s) == s,
    decreases s.len(),
{
    if s.len() > 0 {
        let tail = s.skip(1);
        lemma_without_nul(tail);
        let kept = without_nul(tail);
        if s[0] != '\0' {
            let all = seq![s[0]] + kept;
            if all.contains('\0') {
                let k = choose|k: int| 0 <= k < all.len() && all[k] == '\0';
                assert(k > 0);
                assert(kept[k - 1] == '\0');
            }
        }
        if !s.contains('\0') {
            assert(s[0] != '\0');
            if tail.contains('\0') {
                let k = choose|k: int| 0 <= k < tail.len() && tail[k] == '\0';
                assert(s[k + 1] == '\0');
            }
            assert(s =~= seq![s[0]] + tail);
        }
    } else {
        assert(without_nul(s) =~= s);
    }
}

/// A value is written as what it is: an integer as its digits, a date and a time in their
/// text form, and NULL for what has no value.
pub proof fn law_literals_say_their_value(c: CellView)
    ensures
        c matches CellView::Int(v) ==> text::read_i64(literal(c)) == Some(v),
        c is Null ==> literal(c) == "NULL"@,
        c matches CellView::Float(f) && !is_finite(f.bits) ==> literal(c) == "NULL"@,
        c matches CellView::Float(f) && is_finite(f.bits) ==> literal(c) == cell_text(c),
        c matches CellView::Bool(b) ==> text::ascii_lower(literal(c)) == bool_text(b),
        c is Date ==> literal(c) == "DATE('"@ + cell_text(c) + "')"@,
        c is DateTime ==> literal(c) == "TIMESTAMP('"@ + cell_text(c) + "')"@,
{
    if let CellView::Int(v) = c {
        lemma_int_text(v);
    }
    reveal_strlit("TRUE");
    reveal_strlit("FALSE");
    reveal_strlit("true");
    reveal_strlit("false");
    assert(text::ascii_lower("TRUE"@) =~= "true"@);
    assert(text::ascii_lower("FALSE"@) =~= "false"@);
}

/// An INSERT of one row more goes on with a comma and the values of that row, in the order
/// of its cells.
pub proof fn law_rows_are_added_one_by_one(
    table: Seq<char>,
    columns: Seq<char>,
    rows: Seq<Seq<CellView>>,
    row: Seq<CellView>,
    c: CellView,
)
    ensures
        rows.len() > 0 ==> insert_statement(table, columns, rows.push(row)) == insert_statement(
            table,
            columns,
            rows,
        ) + ","@ + row_literal(row),
        row.len() > 0 ==> row_literal(row.push(c)) == row_literal(row).drop_last() + ","@ + literal(
            c,
        ) + ")"@,
        row_literal(seq![c]) == "("@ + literal(c) + ")"@,
{
    reveal_strlit(")");
    let more = rows.push(row);
    let lines = Seq::new(more.len(), |i: int| row_literal(more[i]));
    assert(lines.drop_last() =~= Seq::new(rows.len(), |i: int| row_literal(rows[i])));
    if rows.len() > 0 {
        let head = "INSERT INTO "@ + table + " ("@ + columns + ") VALUES "@;
        let body = text::join_seq(lines.drop_last(), ","@);
        assert(head + (body + ","@ + row_literal(row)) =~= head + body + ","@ + row_literal(row));
    }
    let wider = row.push(c);
    let parts = Seq::new(wider.len(), |i: int| literal(wider[i]));
    assert(parts.drop_last() =~= Seq::new(row.len(), |i: int| literal(row[i])));
    if row.len() > 0 {
        let body = text::join_seq(parts.drop_last(), ","@);
        assert(row_literal(row).drop_last() =~= "("@ + body);
        assert("("@ + (body + ","@ + literal(c)) + ")"@ =~= "("@ + body + ","@ + literal(c) + ")"@);
    }
    let one = Seq::new(seq![c].len(), |i: int| literal(seq![c][i]));
    assert(one[0] == literal(c));
}

/// The statements hold every row once, in order, and at most five hundred each.
pub proof fn law_statements_hold_every_row(rows: Seq<Seq<CellView>>)
    ensures
        statement_count(rows.len()) == batch_count(rows.len(), 500),
        forall|k: int|
            0 <= k < statement_count(rows.len()) ==> #[trigger] chunk(rows, k) == batch(
                rows,
                500,
                k as nat,
            ) && 0 < chunk(rows, k).len() <= 500,
        first_batches(rows, 500, statement_count(rows.len())) == rows,
{
    law_batches_cover_the_rows(rows, 500);
    assert forall|k: int| 0 <= k < statement_count(rows.len()) implies #[trigger] chunk(rows, k)
        == batch(rows, 500, k as nat) && 0 < chunk(rows, k).len() <= 500 by {
        law_batches_are_full(rows.len(), 500, k as nat);
    }
}

} // verus!
