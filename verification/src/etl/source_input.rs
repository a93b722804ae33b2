//! Rows as sources deliver them: names for the columns, and a fingerprint.
use crate::etl::mapping::{SourceSpec, SourceView};
use crate::etl::script::alias::lemma_nat_text;
use crate::etl::script::gen::{
    hex, hex_text, law_uuids_are_told_apart, sha256, sha256_of, show_uuid, uuid_text,
};
use crate::models::value::{row_view, rows_view, CellValue, CellView};
use crate::text;
use vstd::prelude::*;
use vstd::utf8::{encode_utf8, encode_utf8_decode_utf8};

verus! {

/// What a source delivered; the rows do not hold the header.
pub struct SourceData {
    pub header: Vec<String>,
    pub rows: Vec<Vec<CellValue>>,
    /// The number of the first row: 2 behind the header of a file, else 1.
    pub first_data_row: usize,
}

/// The name of a column that has none: `欄位` and its number, from 1 on.
pub open spec fn default_name(i: int) -> Seq<char> {
    "欄位"@ + text::nat_text((i + 1) as nat)
}

/// The name in a header cell, where it is a text that is not empty.
pub open spec fn header_name(c: CellView, i: int) -> Seq<char> {
    match c {
        CellView::Text(s) => if s.len() > 0 {
            s
        } else {
            default_name(i)
        },
        _ => default_name(i),
    }
}

/// The length of the longest row.
pub open spec fn width(rows: Seq<Seq<CellView>>) -> nat
    decreases rows.len(),
{
    if rows.len() == 0 {
        0
    } else {
        let w = width(rows.drop_last());
        if rows.last().len() > w {
            rows.last().len()
        } else {
            w
        }
    }
}

/// The names of the columns: from the first row where it is a header, else by number.
pub open spec fn header_of(rows: Seq<Seq<CellView>>, has_header: bool) -> Seq<Seq<char>> {
    if has_header && rows.len() > 0 {
        Seq::new(rows[0].len(), |i: int| header_name(rows[0][i], i))
    } else {
        Seq::new(width(rows), |i: int| default_name(i))
    }
}

/// The rows behind the header.
pub open spec fn data_rows(rows: Seq<Seq<CellView>>, has_header: bool) -> Seq<Seq<CellView>> {
    if has_header && rows.len() > 0 {
        rows.skip(1)
    } else {
        rows
    }
}

fn number_name(i: usize) -> (r: String)
    requires
        i < usize::MAX,
    ensures
        r@ == default_name(i as int),
{
    text::cat("欄位", text::usize_text(i + 1).as_str())
}

/// Takes the header off the rows.
pub fn header_from_rows(rows: &mut Vec<Vec<CellValue>>, has_header: bool) -> (r: Vec<String>)
    ensures
        text::views(r@) == header_of(rows_view(old(rows)@), has_header),
        rows_view(final(rows)@) == data_rows(rows_view(old(rows)@), has_header),
{
    let ghost all = rows_view(rows@);
    let mut names: Vec<String> = Vec::new();
    if has_header && rows.len() > 0 {
        let head: Vec<CellValue> = rows.remove(0);
        assert(row_view(head@) == all[0]);
        assert(rows_view(rows@) =~= all.skip(1));
        let len: usize = head.len();
        let mut i: usize = 0;
        while i < len
            invariant
                i <= len == head@.len(),
                names@.len() == i,
                forall|j: int| 0 <= j < i ==> #[trigger] names@[j]@ == header_name(head@[j]@, j),
            decreases len - i,
        {
            let name: String = match &head[i] {
                CellValue::Text(s) => if s.as_str().unicode_len() > 0 {
                    s.as_str().to_string()
                } else {
                    number_name(i)
                },
                _ => number_name(i),
            };
            names.push(name);
            i += 1;
        }
        assert(text::views(names@) =~= header_of(all, has_header));
    } else {
        let mut n: usize = 0;
        let mut k: usize = 0;
        assert(all.take(0) =~= seq![]);
        while k < rows.len()
            invariant
                k <= rows@.len(),
                all == rows_view(rows@),
                n == width(all.take(k as int)),
            decreases rows@.len() - k,
        {
            assert(all.take(k + 1).drop_last() =~= all.take(k as int));
            if rows[k].len() > n {
                n = rows[k].len();
            }
            k += 1;
        }
        assert(all.take(k as int) =~= all);
        let mut i: usize = 0;
        while i < n
            invariant
                i <= n,
                names@.len() == i,
                forall|j: int| 0 <= j < i ==> #[trigger] names@[j]@ == default_name(j),
            decreases n - i,
        {
            names.push(number_name(i));
            i += 1;
        }
        assert(text::views(names@) =~= header_of(all, has_header));
    }
    names
}

impl SourceData {
    /// The rows of a file; each has the number that it has in the file.
    pub fn from_file(rows: Vec<Vec<CellValue>>, has_header: bool) -> (r: SourceData)
        ensures
            text::views(r.header@) == header_of(rows_view(rows@), has_header),
            rows_view(r.rows@) == data_rows(rows_view(rows@), has_header),
            r.first_data_row == if has_header {
                2int
            } else {
                1
            },
            forall|i: int|
                0 <= i < r.rows@.len() ==> #[trigger] rows_view(r.rows@)[i] == rows_view(rows@)[
                    r.first_data_row - 1 + i],
    {
        let mut rest: Vec<Vec<CellValue>> = rows;
        let header: Vec<String> = header_from_rows(&mut rest, has_header);
        SourceData {
            header,
            rows: rest,
            first_data_row: if has_header {
                2
            } else {
                1
            },
        }
    }

    /// The result of a query.
    pub fn from_query(columns: Vec<String>, rows: Vec<Vec<CellValue>>) -> (r: SourceData)
        ensures
            r.header == columns,
            r.rows == rows,
            r.first_data_row == 1,
    {
        SourceData { header: columns, rows, first_data_row: 1 }
    }
}

/// No cell is lost with the header: it is the first row, if there is one, and
/// the rows behind it stay as they are.
pub proof fn law_header_is_the_first_row(rows: Seq<Seq<CellView>>, has_header: bool)
    ensures
        data_rows(rows, has_header).len() + (if has_header && rows.len() > 0 {
            1int
        } else {
            0
        }) == rows.len(),
        forall|i: int|
            0 <= i < header_of(rows, has_header).len() ==> (#[trigger] header_of(
                rows,
                has_header,
            )[i]).len() > 0,
{
    reveal_strlit("欄位");
}

/// What the fingerprint of a source is taken from: the content of a file, or
/// the connection, a line break and the text of a query.
pub open spec fn source_identity(s: SourceView, content: Seq<u8>) -> Seq<u8> {
    match s {
        SourceView::File { .. } => content,
        SourceView::Database { conn_id, query } => encode_utf8(
            uuid_text(conn_id) + "\n"@ + query,
        ),
    }
}

/// The fingerprint of a source: a SHA-256 digest. `content` is what the file
/// holds; for a query it does not matter.
pub fn fingerprint(spec: &SourceSpec, content: &Vec<u8>) -> (r: String)
    ensures
        r@ == hex_text(sha256_of(source_identity(spec@, content@))),
{
    match spec {
        SourceSpec::File { .. } => hex(&sha256(content.as_slice())),
        SourceSpec::Database { conn_id, query } => {
            let id: String = text::cat3(show_uuid(*conn_id).as_str(), "\n", query.as_str());
            hex(&sha256(id.as_str().as_bytes()))
        },
    }
}

/// A header cell with text names its column, any other cell leaves the column its
/// number; no two columns without a name of their own are named alike.
pub proof fn law_columns_are_named(c: CellView, i: int, j: int)
    requires
        0 <= i,
        0 <= j,
    ensures
        c matches CellView::Text(s) && s.len() > 0 ==> header_name(c, i) == c->Text_0,
        !(c matches CellView::Text(s) && s.len() > 0) ==> header_name(c, i) == default_name(i),
        default_name(i) == default_name(j) <==> i == j,
        default_name(i).skip("欄位"@.len() as int) == text::nat_text((i + 1) as nat),
{
    let a = default_name(i);
    let b = default_name(j);
    let n = "欄位"@.len() as int;
    assert(a.skip(n) =~= text::nat_text((i + 1) as nat));
    assert(b.skip(n) =~= text::nat_text((j + 1) as nat));
    if a == b {
        lemma_nat_text((i + 1) as nat);
        lemma_nat_text((j + 1) as nat);
    }
}

/// Without a header there is a name for every cell of the longest row.
pub proof fn law_width_is_that_of_the_longest_row(rows: Seq<Seq<CellView>>)
    ensures
        forall|i: int| 0 <= i < rows.len() ==> (#[trigger] rows[i]).len() <= width(rows),
        rows.len() > 0 ==> exists|i: int| 0 <= i < rows.len() && (#[trigger] rows[i]).len() == width(
            rows,
        ),
        rows.len() == 0 ==> width(rows) == 0,
        header_of(rows, false).len() == width(rows),
    decreases rows.len(),
{
    if rows.len() > 0 {
        let front = rows.drop_last();
        let last = rows.len() - 1;
        law_width_is_that_of_the_longest_row(front);
        assert(rows[last] == rows.last());
        assert forall|i: int| 0 <= i < rows.len() implies (#[trigger] rows[i]).len() <= width(
            rows,
        ) by {
            if i < last {
                assert(front[i] == rows[i]);
            }
        }
        if rows.last().len() > width(front) {
            assert(rows[last].len() == width(rows));
        } else if front.len() > 0 {
            let i = choose|i: int|
                0 <= i < front.len() && (#[trigger] front[i]).len() == width(front);
            assert(rows[i].len() == width(rows));
        } else {
            assert(rows[last].len() == width(rows));
        }
    }
}

/// The rows behind a header are the rows of the file from the second on, in order; the
/// header names the columns by the cells of the first.
pub proof fn law_rows_follow_the_header(rows: Seq<Seq<CellView>>, i: int)
    ensures
        0 <= i < rows.len() - 1 ==> data_rows(rows, true)[i] == rows[i + 1],
        0 <= i < rows.len() ==> data_rows(rows, false)[i] == rows[i],
        rows.len() > 0 ==> header_of(rows, true).len() == rows[0].len(),
        rows.len() > 0 && 0 <= i < rows[0].len() ==> header_of(rows, true)[i] == header_name(
            rows[0][i],
            i,
        ),
{
}

/// What stands for a database source in its fingerprint tells connection and query; a
/// file is told by its content alone.
pub proof fn law_sources_are_told_apart(
    a: u128,
    b: u128,
    p: Seq<char>,
    q: Seq<char>,
    f: SourceView,
    content: Seq<u8>,
)
    ensures
        source_identity(SourceView::Database { conn_id: a, query: p }, content) == source_identity(
            SourceView::Database { conn_id: b, query: q },
            content,
        ) <==> a == b && p == q,
        f is File ==> source_identity(f, content) == content,
{
    let x = uuid_text(a) + "\n"@ + p;
    let y = uuid_text(b) + "\n"@ + q;
    law_uuids_are_told_apart(a, b);
    law_uuids_are_told_apart(b, a);
    encode_utf8_decode_utf8(x);
    encode_utf8_decode_utf8(y);
    if encode_utf8(x) == encode_utf8(y) {
        assert(x == y);
        assert(x.take(36) =~= uuid_text(a));
        assert(y.take(36) =~= uuid_text(b));
        let n = 36 + "\n"@.len() as int;
        assert(x.skip(n) =~= p);
        assert(y.skip(n) =~= q);
    }
}

} // verus!
