//! What is shown of a source before a job is set up: the names and likely types
//! of its columns, and its first rows.
use crate::etl::script::alias::lemma_nat_text;
use crate::etl::source_input::{data_rows, default_name, header_of, width};
use crate::excel::schema_infer::{infer_types, inferred};
use crate::models::calendar::{day_ok, day_text, lemma_day_shape};
use crate::models::value::{
    bool_text, cell_json, row_view, rows_view, CellValue, CellView, DataType, Json, JsonView,
};
use crate::text;
use vstd::prelude::*;

verus! {

/// How many rows are shown.
pub const PREVIEW_ROWS: usize = 100;

/// How many rows vote on the types.
pub const INFER_SAMPLE: usize = 100;

/// A column of a preview.
#[derive(Debug, Clone, PartialEq)]
pub struct ColumnPreview {
    pub index: usize,
    pub name: String,
    /// None where the type is open and has to be chosen.
    pub inferred_type: Option<DataType>,
}

#[verifier::ext_equal]
pub struct ColumnPreviewView {
    pub index: usize,
    pub name: Seq<char>,
    pub inferred_type: Option<DataType>,
}

impl View for ColumnPreview {
    type V = ColumnPreviewView;

    open spec fn view(&self) -> ColumnPreviewView {
        ColumnPreviewView {
            index: self.index,
            name: self.name@,
            inferred_type: self.inferred_type,
        }
    }
}

pub open spec fn previews_view(v: Seq<ColumnPreview>) -> Seq<ColumnPreviewView> {
    Seq::new(v.len(), |i: int| v[i]@)
}

/// What is shown of a file.
#[derive(Debug, Clone, PartialEq)]
pub struct SourcePreview {
    pub columns: Vec<ColumnPreview>,
    pub rows: Vec<Vec<Json>>,
    pub total_rows: usize,
    /// The encoding of a CSV file; none for a workbook.
    pub encoding: Option<String>,
}

/// What is shown of a query.
#[derive(Debug, Clone, PartialEq)]
pub struct DbSourcePreview {
    pub columns: Vec<ColumnPreview>,
    pub rows: Vec<Vec<Json>>,
    pub query: String,
}

/// The text of a JSON value; only an empty text gets its quotes here.
pub open spec fn json_text(j: JsonView) -> Seq<char> {
    match j {
        JsonView::Null => "null"@,
        JsonView::Int(v) => text::int_text(v as int),
        JsonView::Float(v) => v.json,
        JsonView::Bool(b) => bool_text(b),
        JsonView::Text(s) => "\"\""@,
    }
}

/// The name in a header cell; NULL is named by its number.
pub open spec fn heading_name(c: CellView, i: int) -> Seq<char> {
    match cell_json(c) {
        JsonView::Null => default_name(i),
        JsonView::Text(s) => if s.len() > 0 {
            s
        } else {
            json_text(JsonView::Text(s))
        },
        j => json_text(j),
    }
}

/// The names of the columns: from the first row where it is a header, else by number.
pub open spec fn heading(rows: Seq<Seq<CellView>>, has_header: bool) -> Seq<Seq<char>> {
    if has_header && rows.len() > 0 {
        Seq::new(rows[0].len(), |i: int| heading_name(rows[0][i], i))
    } else {
        Seq::new(width(rows), |i: int| default_name(i))
    }
}

/// The columns with their likely types; a column without a type is open.
pub open spec fn typed_columns(
    names: Seq<Seq<char>>,
    types: Seq<Option<DataType>>,
) -> Seq<ColumnPreviewView> {
    Seq::new(
        names.len(),
        |i: int|
            ColumnPreviewView {
                index: i as usize,
                name: names[i],
                inferred_type: if i < types.len() {
                    types[i]
                } else {
                    None
                },
            },
    )
}

pub open spec fn json_row(row: Seq<CellView>) -> Seq<JsonView> {
    Seq::new(row.len(), |i: int| cell_json(row[i]))
}

/// The rows as JSON, as many as are shown.
pub open spec fn shown_rows(rows: Seq<Seq<CellView>>, limit: nat) -> Seq<Seq<JsonView>> {
    Seq::new(
        if rows.len() <= limit {
            rows.len()
        } else {
            limit
        },
        |i: int| json_row(rows[i]),
    )
}

pub open spec fn jsons_view(v: Seq<Json>) -> Seq<JsonView> {
    Seq::new(v.len(), |i: int| v[i]@)
}

pub open spec fn json_rows_view(v: Seq<Vec<Json>>) -> Seq<Seq<JsonView>> {
    Seq::new(v.len(), |i: int| jsons_view(v[i]@))
}

fn name_of(c: &CellValue, i: usize) -> (r: String)
    requires
        i < usize::MAX,
    ensures
        r@ == heading_name(c@, i as int),
{
    match c.to_json() {
        Json::Null => text::cat("欄位", text::usize_text(i + 1).as_str()),
        Json::Int(v) => text::i64_text(v),
        Json::Float(v) => v.json,
        Json::Bool(b) => if b {
            "true".to_string()
        } else {
            "false".to_string()
        },
        Json::Text(s) => if s.as_str().unicode_len() > 0 {
            s
        } else {
            "\"\"".to_string()
        },
    }
}

fn take_heading(rows: &mut Vec<Vec<CellValue>>, has_header: bool) -> (r: Vec<String>)
    ensures
        text::views(r@) == heading(rows_view(old(rows)@), has_header),
        rows_view(final(rows)@) == data_rows(rows_view(old(rows)@), has_header),
{
    let ghost all = rows_view(rows@);
    if has_header && rows.len() > 0 {
        let head: Vec<CellValue> = rows.remove(0);
        assert(row_view(head@) == all[0]);
        assert(rows_view(rows@) =~= all.skip(1));
        let len: usize = head.len();
        let mut names: Vec<String> = Vec::new();
        let mut i: usize = 0;
        while i < len
            invariant
                i <= len == head@.len(),
                names@.len() == i,
                forall|j: int| 0 <= j < i ==> #[trigger] names@[j]@ == heading_name(head@[j]@, j),
            decreases len - i,
        {
            names.push(name_of(&head[i], i));
            i += 1;
        }
        assert(text::views(names@) =~= heading(all, has_header));
        names
    } else {
        let names: Vec<String> = crate::etl::source_input::header_from_rows(rows, false);
        assert(text::views(names@) =~= heading(all, has_header));
        names
    }
}

fn column_previews(names: Vec<String>, types: &Vec<Option<DataType>>) -> (r: Vec<ColumnPreview>)
    ensures
        previews_view(r@) == typed_columns(text::views(names@), types@),
{
    let mut out: Vec<ColumnPreview> = Vec::new();
    let mut i: usize = 0;
    let len: usize = names.len();
    while i < len
        invariant
            i <= len == names@.len(),
            out@.len() == i,
            forall|j: int|
                0 <= j < i ==> #[trigger] out@[j]@ == typed_columns(
                    text::views(names@),
                    types@,
                )[j],
        decreases len - i,
    {
        let inferred_type: Option<DataType> = if i < types.len() {
            types[i]
        } else {
            None
        };
        out.push(
            ColumnPreview { index: i, name: names[i].as_str().to_string(), inferred_type },
        );
        i += 1;
    }
    assert(previews_view(out@) =~= typed_columns(text::views(names@), types@));
    out
}

/// The rows as JSON, at most `limit` of them.
pub fn show_rows(rows: &Vec<Vec<CellValue>>, limit: usize) -> (r: Vec<Vec<Json>>)
    ensures
        json_rows_view(r@) == shown_rows(rows_view(rows@), limit as nat),
{
    let ghost all = shown_rows(rows_view(rows@), limit as nat);
    let n: usize = if rows.len() <= limit {
        rows.len()
    } else {
        limit
    };
    let mut out: Vec<Vec<Json>> = Vec::new();
    let mut i: usize = 0;
    while i < n
        invariant
            i <= n <= rows@.len(),
            n == all.len(),
            all == shown_rows(rows_view(rows@), limit as nat),
            out@.len() == i,
            forall|k: int| 0 <= k < i ==> jsons_view(#[trigger] out@[k]@) == all[k],
        decreases n - i,
    {
        let row: &Vec<CellValue> = &rows[i];
        let mut cells: Vec<Json> = Vec::new();
        let mut j: usize = 0;
        while j < row.len()
            invariant
                j <= row@.len(),
                cells@.len() == j,
                forall|k: int| 0 <= k < j ==> #[trigger] cells@[k]@ == cell_json(row@[k]@),
            decreases row@.len() - j,
        {
            cells.push(row[j].to_json());
            j += 1;
        }
        assert(jsons_view(cells@) =~= all[i as int]);
        out.push(cells);
        i += 1;
    }
    assert(json_rows_view(out@) =~= all);
    out
}

/// What is shown of the rows of a file.
pub fn preview_file(rows: Vec<Vec<CellValue>>, has_header: bool, encoding: Option<String>) -> (r:
    SourcePreview)
    ensures
        ({
            let all = rows_view(rows@);
            let data = data_rows(all, has_header);
            &&& previews_view(r.columns@) == typed_columns(
                heading(all, has_header),
                inferred(data, INFER_SAMPLE as nat),
            )
            &&& json_rows_view(r.rows@) == shown_rows(data, PREVIEW_ROWS as nat)
            &&& r.total_rows == data.len()
            &&& r.encoding == encoding
        }),
{
    let mut data: Vec<Vec<CellValue>> = rows;
    let names: Vec<String> = take_heading(&mut data, has_header);
    let types: Vec<Option<DataType>> = infer_types(&data, INFER_SAMPLE);
    SourcePreview {
        columns: column_previews(names, &types),
        rows: show_rows(&data, PREVIEW_ROWS),
        total_rows: data.len(),
        encoding,
    }
}

/// What is shown of the result of a query.
pub fn preview_query(columns: Vec<String>, rows: &Vec<Vec<CellValue>>, query: String) -> (r:
    DbSourcePreview)
    ensures
        previews_view(r.columns@) == typed_columns(
            text::views(columns@),
            inferred(rows_view(rows@), INFER_SAMPLE as nat),
        ),
        json_rows_view(r.rows@) == shown_rows(rows_view(rows@), rows@.len()),
        r.query == query,
{
    let types: Vec<Option<DataType>> = infer_types(rows, INFER_SAMPLE);
    let shown: Vec<Vec<Json>> = show_rows(rows, rows.len());
    DbSourcePreview { columns: column_previews(columns, &types), rows: shown, query }
}

/// The preview shows the first rows as they are, as many as fit, and a shorter preview is
/// the beginning of a longer one.
pub proof fn law_previews_show_the_first_rows(
    rows: Seq<Seq<CellView>>,
    limit: nat,
    more: nat,
    i: int,
)
    requires
        limit <= more,
    ensures
        shown_rows(rows, limit).len() <= limit,
        rows.len() <= limit ==> shown_rows(rows, limit).len() == rows.len(),
        rows.len() >= limit ==> shown_rows(rows, limit).len() == limit,
        shown_rows(rows, limit) == shown_rows(rows, more).take(shown_rows(rows, limit).len() as int),
        0 <= i < shown_rows(rows, limit).len() ==> shown_rows(rows, limit)[i].len()
            == rows[i].len() && forall|j: int|
            0 <= j < rows[i].len() ==> #[trigger] shown_rows(rows, limit)[i][j] == cell_json(
                rows[i][j],
            ),
{
    assert(shown_rows(rows, limit) =~= shown_rows(rows, more).take(
        shown_rows(rows, limit).len() as int,
    ));
}

/// The preview names columns as a job does: by the text in the header, or by number where
/// there is none.
pub proof fn law_previews_name_columns_as_jobs_do(
    rows: Seq<Seq<CellView>>,
    has_header: bool,
    i: int,
)
    requires
        has_header && rows.len() > 0 ==> 0 <= i < rows[0].len() && ((rows[0][i] matches
            CellView::Text(s) && s.len() > 0) || rows[0][i] is Null),
        !(has_header && rows.len() > 0) ==> 0 <= i < width(rows),
    ensures
        heading(rows, has_header).len() == header_of(rows, has_header).len(),
        heading(rows, has_header)[i] == header_of(rows, has_header)[i],
{
}

/// A header cell that holds a number, a truth value or a time is named by its text; no
/// column of a preview is without a name.
pub proof fn law_headings_are_never_empty(c: CellView, i: int)
    requires
        0 <= i,
        c matches CellView::Float(f) ==> f.json.len() > 0,
    ensures
        heading_name(c, i).len() > 0,
        c matches CellView::Int(v) ==> heading_name(c, i) == text::int_text(v as int),
        c matches CellView::Bool(b) ==> heading_name(c, i) == bool_text(b),
        c matches CellView::Date(d) && day_ok(d) ==> heading_name(c, i) == day_text(c->Date_0),
        c is Null ==> heading_name(c, i) == default_name(i),
{
    reveal_strlit("欄位");
    reveal_strlit("\"\"");
    reveal_strlit("true");
    reveal_strlit("false");
    if let CellView::Int(v) = c {
        if v >= 0 {
            lemma_nat_text(v as nat);
        }
    }
    if let CellView::Date(d) = c {
        if day_ok(d) {
            lemma_day_shape(d);
        }
    }
}

/// Each column of a preview has its place, its name, and the type of that place; it is
/// open where there is none.
pub proof fn law_columns_get_their_types(
    names: Seq<Seq<char>>,
    types: Seq<Option<DataType>>,
    i: int,
)
    requires
        0 <= i < names.len() <= usize::MAX,
    ensures
        typed_columns(names, types).len() == names.len(),
        typed_columns(names, types)[i].index == i,
        typed_columns(names, types)[i].name == names[i],
        i < types.len() ==> typed_columns(names, types)[i].inferred_type == types[i],
        i >= types.len() ==> typed_columns(names, types)[i].inferred_type is None,
{
}

} // verus!
