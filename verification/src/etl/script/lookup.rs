//! Lookups and merge keys: the statements that fetch them, and what is kept of
//! the rows that come back.
use crate::db::dialect::{
    equalities_text, equality, equality_clause, is_name, law_equalities_stand_one_by_one,
    law_names_are_quoted_one_by_one, placeholder, quote_columns, quote_table, quoted_columns,
    quoted_name, quoted_table, written, Dialect,
};
use crate::etl::script::ast::{
    comparison_views, equalities, Comparison, ComparisonView, Expr, ExprView,
};
use crate::etl::script::bind::{bind, build_valbind, BindCtx, BindCtxView};
use crate::etl::script::clauses::{Merge, MergeView};
use crate::etl::script::eval::{binds_view, lemma_binds_push, BindView, ValBind};
use crate::etl::script::keys::{compose_key, key_of_cells};
use crate::etl::script::plan::{equality_sides, etl_error, has_name, split_equality};
use crate::models::errors::{at_line, EluEtlError, ErrorView};
use crate::models::value::{row_view, rows_view, CellValue, CellView, DataType};
use crate::text;
use vstd::hash_map::StringHashMap;
use vstd::hash_set::StringHashSet;
use vstd::prelude::*;

verus! {

/// `SELECT columns FROM table`.
pub open spec fn select_text(d: Dialect, head: Seq<char>, columns: Seq<Seq<char>>, table: Seq<char>) -> Result<
    Seq<char>,
    ErrorView,
> {
    match quoted_columns(d, columns) {
        Err(e) => Err(e),
        Ok(c) => match quoted_table(d, table) {
            Err(e) => Err(e),
            Ok(t) => Ok(head + c + " FROM "@ + t),
        },
    }
}

/// The statement that selects columns of a table.
pub fn select_sql(d: Dialect, head: &str, columns: &Vec<String>, table: &str) -> (r: Result<
    String,
    EluEtlError,
>)
    ensures
        written(r, select_text(d, head@, text::views(columns@), table@)),
{
    let c: String = quote_columns(d, columns)?;
    let t: String = quote_table(d, table)?;
    Ok(text::cat4(head, c.as_str(), " FROM ", t.as_str()))
}

pub open spec fn at_most(n: nat, len: nat) -> int {
    if n <= len {
        n as int
    } else {
        len as int
    }
}

/// The key of a row that was fetched: that of its first `n` cells.
pub open spec fn fetched_key(row: Seq<CellView>, n: nat) -> Option<Seq<char>> {
    compose_key(row.take(at_most(n, row.len())))
}

/// The rows that were fetched by their keys; of rows with the same key the last
/// one counts, rows without a key are left out.
pub open spec fn by_key(rows: Seq<Seq<CellView>>, n: nat) -> Map<Seq<char>, Seq<CellView>>
    decreases rows.len(),
{
    if rows.len() == 0 {
        Map::empty()
    } else {
        let before = by_key(rows.drop_last(), n);
        match fetched_key(rows.last(), n) {
            Some(k) => before.insert(k, rows.last()),
            None => before,
        }
    }
}

/// The keys of the rows that were fetched.
pub open spec fn key_set(rows: Seq<Seq<CellView>>, n: nat) -> Set<Seq<char>>
    decreases rows.len(),
{
    if rows.len() == 0 {
        Set::empty()
    } else {
        let before = key_set(rows.drop_last(), n);
        match fetched_key(rows.last(), n) {
            Some(k) => before.insert(k),
            None => before,
        }
    }
}

/// What a map of rows holds.
pub open spec fn map_view(m: Map<Seq<char>, Vec<CellValue>>) -> Map<Seq<char>, Seq<CellView>> {
    m.map_values(|v: Vec<CellValue>| row_view(v@))
}

fn row_key(row: &Vec<CellValue>, n: usize) -> (r: Option<String>)
    ensures
        text::opt_view(r) == fetched_key(row_view(row@), n as nat),
{
    let k: usize = if n <= row.len() { n } else { row.len() };
    key_of_cells(row, k)
}

/// Keeps the rows that were fetched by their keys.
pub fn index_rows(rows: Vec<Vec<CellValue>>, n: usize) -> (r: StringHashMap<Vec<CellValue>>)
    ensures
        map_view(r@) == by_key(rows_view(rows@), n as nat),
{
    let ghost all = rows_view(rows@);
    let mut m: StringHashMap<Vec<CellValue>> = StringHashMap::new();
    let mut rest: Vec<Vec<CellValue>> = rows;
    let mut i: usize = 0;
    let len: usize = rest.len();
    assert(map_view(m@) =~= by_key(all.take(0), n as nat));
    while i < len
        invariant
            i <= len == all.len(),
            rest@.len() == len,
            forall|j: int| i <= j < len ==> row_view(#[trigger] rest@[j]@) == all[j],
            map_view(m@) == by_key(all.take(i as int), n as nat),
        decreases len - i,
    {
        let mut row: Vec<CellValue> = Vec::new();
        std::mem::swap(&mut row, &mut rest[i]);
        proof {
            assert(all.take(i + 1).drop_last() =~= all.take(i as int));
            assert(row_view(row@) == all[i as int]);
        }
        if let Some(k) = row_key(&row, n) {
            proof {
                assert(map_view(m@.insert(k@, row)) =~= map_view(m@).insert(k@, row_view(row@)));
            }
            m.insert(k, row);
        }
        i += 1;
    }
    assert(all.take(i as int) =~= all);
    m
}

/// Keeps the keys of the rows that were fetched.
pub fn collect_keys(rows: &Vec<Vec<CellValue>>, n: usize) -> (r: StringHashSet)
    ensures
        r@ == key_set(rows_view(rows@), n as nat),
{
    let ghost all = rows_view(rows@);
    let mut s: StringHashSet = StringHashSet::new();
    let mut i: usize = 0;
    assert(s@ =~= key_set(all.take(0), n as nat));
    while i < rows.len()
        invariant
            i <= rows@.len(),
            all == rows_view(rows@),
            s@ == key_set(all.take(i as int), n as nat),
        decreases rows@.len() - i,
    {
        proof {
            assert(all.take(i + 1).drop_last() =~= all.take(i as int));
        }
        if let Some(k) = row_key(&rows[i], n) {
            let _ = s.insert(k);
        }
        i += 1;
    }
    assert(all.take(i as int) =~= all);
    s
}

/// The first place of a name among names, in any case.
pub open spec fn name_place(names: Seq<Seq<char>>, name: Seq<char>) -> int
    decreases names.len(),
{
    if names.len() == 0 {
        0
    } else if text::same_ignoring_case(names[0], name) {
        0
    } else {
        1 + name_place(names.skip(1), name)
    }
}

/// Where each column of a lookup is in its rows, by its name in lower case.
pub open spec fn value_places(values: Seq<Seq<char>>, selected: Seq<Seq<char>>) -> Map<
    Seq<char>,
    usize,
>
    decreases values.len(),
{
    if values.len() == 0 {
        Map::empty()
    } else {
        value_places(values.drop_last(), selected).insert(
            text::lower(values.last()),
            name_place(selected, values.last()) as usize,
        )
    }
}

fn place_of(names: &Vec<String>, name: &str) -> (r: usize)
    ensures
        r == name_place(text::views(names@), name@),
{
    let ghost all = text::views(names@);
    let mut i: usize = 0;
    assert(all.skip(0) =~= all);
    while i < names.len()
        invariant
            i <= names@.len(),
            all == text::views(names@),
            name_place(all, name@) == i + name_place(all.skip(i as int), name@),
        decreases names@.len() - i,
    {
        assert(all.skip(i as int)[0] == names@[i as int]@);
        if text::eq_ignore_case(names[i].as_str(), name) {
            return i;
        }
        assert(all.skip(i as int).skip(1) =~= all.skip(i + 1));
        i += 1;
    }
    i
}

/// Where each column of a lookup is in its rows.
pub fn place_values(values: &Vec<String>, selected: &Vec<String>) -> (r: StringHashMap<usize>)
    ensures
        r@ == value_places(text::views(values@), text::views(selected@)),
{
    let ghost all = text::views(values@);
    let mut m: StringHashMap<usize> = StringHashMap::new();
    let mut i: usize = 0;
    assert(m@ =~= value_places(all.take(0), text::views(selected@)));
    while i < values.len()
        invariant
            i <= values@.len(),
            all == text::views(values@),
            m@ == value_places(all.take(i as int), text::views(selected@)),
        decreases values@.len() - i,
    {
        assert(all.take(i + 1).drop_last() =~= all.take(i as int));
        let p: usize = place_of(selected, values[i].as_str());
        m.insert(text::to_lower(values[i].as_str()), p);
        i += 1;
    }
    assert(all.take(i as int) =~= all);
    m
}

/// Every column that a lookup is asked for is one that it selects, so that the
/// value found for it is the value of that very column.
pub proof fn law_lookup_columns_are_selected(
    keys: Seq<Seq<char>>,
    values: Seq<Seq<char>>,
    i: int,
)
    requires
        0 <= i < values.len(),
    ensures
        ({
            let selected = crate::etl::script::plan::select_columns(keys, values);
            let p = name_place(selected, values[i]);
            0 <= p < selected.len() && text::same_ignoring_case(selected[p], values[i])
        }),
{
    let selected = crate::etl::script::plan::select_columns(keys, values);
    lemma_selected(keys, values, i);
    lemma_place(selected, values[i]);
}

proof fn lemma_selected(keys: Seq<Seq<char>>, values: Seq<Seq<char>>, i: int)
    requires
        0 <= i < values.len(),
    ensures
        has_name(crate::etl::script::plan::select_columns(keys, values), values[i]),
    decreases values.len(),
{
    let before = crate::etl::script::plan::select_columns(keys, values.drop_last());
    let all = crate::etl::script::plan::select_columns(keys, values);
    if i < values.len() - 1 {
        lemma_selected(keys, values.drop_last(), i);
        let k = choose|k: int|
            0 <= k < before.len() && text::same_ignoring_case(#[trigger] before[k], values[i]);
        assert(all[k] == before[k]);
    } else if !has_name(before, values.last()) {
        assert(all[before.len() as int] == values.last());
        assert(text::same_ignoring_case(all[before.len() as int], values.last()));
    }
}

proof fn lemma_place(names: Seq<Seq<char>>, name: Seq<char>)
    requires
        has_name(names, name),
    ensures
        0 <= name_place(names, name) < names.len(),
        text::same_ignoring_case(names[name_place(names, name)], name),
    decreases names.len(),
{
    if !text::same_ignoring_case(names[0], name) {
        let k = choose|k: int|
            0 <= k < names.len() && text::same_ignoring_case(#[trigger] names[k], name);
        assert(names.skip(1)[k - 1] == names[k]);
        lemma_place(names.skip(1), name);
        assert(names.skip(1)[name_place(names.skip(1), name)] == names[name_place(names, name)]);
    }
}

/// The alias belongs to the main source or to a lookup.
pub open spec fn is_source_alias(alias: Seq<char>, ctx: BindCtxView) -> bool {
    text::lower(alias) == ctx.from_alias || exists|i: int|
        0 <= i < ctx.joins.len() && (#[trigger] ctx.joins[i]).alias_lower == text::lower(alias)
}

/// The alias of a column that belongs neither to the main source nor to a lookup.
pub open spec fn foreign_alias(e: ExprView, ctx: BindCtxView) -> Option<Seq<char>> {
    match e {
        ExprView::Col(r) => if is_source_alias(r.alias, ctx) {
            None
        } else {
            Some(r.alias)
        },
        _ => None,
    }
}

/// The alias of the target in the equalities of a merge: the first that
/// belongs to nothing that is read from.
pub open spec fn target_alias(v: Seq<ComparisonView>, ctx: BindCtxView) -> Option<Seq<char>>
    decreases v.len(),
{
    if v.len() == 0 {
        None
    } else if let Some(a) = foreign_alias(v[0].left, ctx) {
        Some(a)
    } else if let Some(a) = foreign_alias(v[0].right, ctx) {
        Some(a)
    } else {
        target_alias(v.skip(1), ctx)
    }
}

fn foreign<'a>(e: &'a Expr, ctx: &BindCtx) -> (r: Option<&'a String>)
    ensures
        match r {
            Some(a) => foreign_alias(e@, ctx@) == Some(a@),
            None => foreign_alias(e@, ctx@) is None,
        },
{
    match e {
        Expr::Col(c) => {
            let low: String = text::to_lower(c.alias.as_str());
            if text::same(low.as_str(), ctx.from_alias) {
                return None;
            }
            let ghost joins = ctx@.joins;
            let mut i: usize = 0;
            while i < ctx.joins.len()
                invariant
                    i <= ctx.joins@.len(),
                    joins == ctx@.joins,
                    e@ == ExprView::Col(c@),
                    low@ == text::lower(c.alias@),
                    low@ != ctx@.from_alias,
                    forall|j: int| 0 <= j < i ==> (#[trigger] joins[j]).alias_lower != low@,
                decreases ctx.joins@.len() - i,
            {
                if text::same(ctx.joins[i].alias_lower.as_str(), low.as_str()) {
                    assert(joins[i as int].alias_lower == low@);
                    return None;
                }
                i += 1;
            }
            Some(&c.alias)
        },
        _ => None,
    }
}

/// The alias of the target in the equalities of a merge.
pub fn into_alias_from_eqs(eqs: &Vec<&Comparison>, ctx: &BindCtx) -> (r: Result<
    String,
    EluEtlError,
>)
    ensures
        match r {
            Ok(a) => target_alias(comparison_views(eqs@), ctx@) == Some(a@),
            Err(e) => target_alias(comparison_views(eqs@), ctx@) is None && e@ == ErrorView::Etl(
                "merge ON 找不到目標欄位（INTO 別名）；請以 別名.[欄位] 比對目標"@,
            ),
        },
{
    let ghost all = comparison_views(eqs@);
    let mut i: usize = 0;
    assert(all.skip(0) =~= all);
    while i < eqs.len()
        invariant
            i <= eqs@.len(),
            all == comparison_views(eqs@),
            target_alias(all, ctx@) == target_alias(all.skip(i as int), ctx@),
        decreases eqs@.len() - i,
    {
        let c: &Comparison = eqs[i];
        assert(all.skip(i as int)[0] == c@);
        if let Some(a) = foreign(&c.left, ctx) {
            return Ok(a.clone());
        }
        if let Some(a) = foreign(&c.right, ctx) {
            return Ok(a.clone());
        }
        assert(all.skip(i as int).skip(1) =~= all.skip(i + 1));
        i += 1;
    }
    Err(
        EluEtlError::Etl(
            "merge ON 找不到目標欄位（INTO 別名）；請以 別名.[欄位] 比對目標".to_string(),
        ),
    )
}

/// The target columns of a merge key, and where their values come from.
pub open spec fn key_sides(v: Seq<ComparisonView>, alias: Seq<char>, ctx: BindCtxView) -> Result<
    (Seq<Seq<char>>, Seq<BindView>),
    ErrorView,
>
    decreases v.len(),
{
    if v.len() == 0 {
        Ok((seq![], seq![]))
    } else {
        match key_sides(v.drop_last(), alias, ctx) {
            Err(e) => Err(e),
            Ok((cols, srcs)) => match equality_sides(v.last(), alias) {
                None => Err(
                    etl_error(
                        v.last().line,
                        "merge ON 每個等式需一邊是目標欄位（INTO 別名）、另一邊是來源值"@,
                    ),
                ),
                Some((col, other)) => match bind(other, ctx) {
                    Err(e) => Err(e),
                    Ok(b) => Ok((cols.push(col), srcs.push(b))),
                },
            },
        }
    }
}

/// The key of a merge.
pub open spec fn merge_key(m: MergeView, ctx: BindCtxView, line: usize) -> Result<
    (Seq<Seq<char>>, Seq<BindView>),
    ErrorView,
> {
    match equalities(m.on) {
        None => Err(
            etl_error(
                line,
                "merge ON 僅支援等值比較（&& 串接的 ==），不支援 OR / NOT / IN / LIKE / BETWEEN / IS EMPTY"@,
            ),
        ),
        Some(eqs) => match target_alias(eqs, ctx) {
            None => Err(
                ErrorView::Etl(
                    "merge ON 找不到目標欄位（INTO 別名）；請以 別名.[欄位] 比對目標"@,
                ),
            ),
            Some(alias) => match key_sides(eqs, alias, ctx) {
                Err(e) => Err(e),
                Ok((cols, srcs)) => if cols.len() == 0 {
                    Err(etl_error(line, "merge ON 缺少比對鍵"@))
                } else {
                    Ok((cols, srcs))
                },
            },
        },
    }
}

proof fn lemma_key_sides_error(v: Seq<ComparisonView>, k: int, alias: Seq<char>, ctx: BindCtxView)
    requires
        0 <= k <= v.len(),
        key_sides(v.take(k), alias, ctx) is Err,
    ensures
        key_sides(v, alias, ctx) == key_sides(v.take(k), alias, ctx),
    decreases v.len() - k,
{
    if k < v.len() {
        assert(v.take(k + 1).drop_last() =~= v.take(k));
        lemma_key_sides_error(v, k + 1, alias, ctx);
    } else {
        assert(v.take(k) =~= v);
    }
}

/// The target columns of a merge key, and where their values come from.
pub fn split_merge_key(merge: &Merge, ctx: &BindCtx, line: usize) -> (r: Result<
    (Vec<String>, Vec<ValBind>),
    EluEtlError,
>)
    ensures
        match r {
            Ok((cols, srcs)) => merge_key(merge@, ctx@, line) == Ok::<
                (Seq<Seq<char>>, Seq<BindView>),
                ErrorView,
            >((text::views(cols@), binds_view(srcs@))) && cols@.len() == srcs@.len(),
            Err(e) => merge_key(merge@, ctx@, line) == Err::<
                (Seq<Seq<char>>, Seq<BindView>),
                ErrorView,
            >(e@),
        },
{
    match merge.on.as_eq_conjunction() {
        None => Err(
            at_line(
                line,
                "merge ON 僅支援等值比較（&& 串接的 ==），不支援 OR / NOT / IN / LIKE / BETWEEN / IS EMPTY",
            ),
        ),
        Some(eqs) => {
            let alias: String = into_alias_from_eqs(&eqs, ctx)?;
            let ghost all = comparison_views(eqs@);
            let mut cols: Vec<String> = Vec::new();
            let mut srcs: Vec<ValBind> = Vec::new();
            let mut i: usize = 0;
            proof {
                assert(text::views(cols@) =~= seq![]);
                assert(binds_view(srcs@) =~= seq![]);
            }
            while i < eqs.len()
                invariant
                    i <= eqs@.len(),
                    cols@.len() == i,
                    srcs@.len() == i,
                    all == comparison_views(eqs@),
                    equalities(merge@.on) == Some(all),
                    target_alias(all, ctx@) == Some(alias@),
                    key_sides(all.take(i as int), alias@, ctx@) == Ok::<
                        (Seq<Seq<char>>, Seq<BindView>),
                        ErrorView,
                    >((text::views(cols@), binds_view(srcs@))),
                decreases eqs@.len() - i,
            {
                let c: &Comparison = eqs[i];
                proof {
                    assert(all.take(i + 1).drop_last() =~= all.take(i as int));
                    assert(all.take(i + 1).last() == c@);
                }
                match split_equality(c, alias.as_str()) {
                    None => {
                        proof {
                            lemma_key_sides_error(all, i + 1, alias@, ctx@);
                        }
                        return Err(
                            at_line(
                                c.line,
                                "merge ON 每個等式需一邊是目標欄位（INTO 別名）、另一邊是來源值",
                            ),
                        );
                    },
                    Some((col, other)) => match build_valbind(other, ctx) {
                        Err(e) => {
                            proof {
                                lemma_key_sides_error(all, i + 1, alias@, ctx@);
                            }
                            return Err(e);
                        },
                        Ok(b) => {
                            let name: String = col.column.clone();
                            proof {
                                text::lemma_views_push(cols@, name);
                                lemma_binds_push(srcs@, b);
                            }
                            cols.push(name);
                            srcs.push(b);
                        },
                    },
                }
                i += 1;
            }
            assert(all.take(i as int) =~= all);
            assert(text::views(cols@).len() == cols@.len());
            if cols.len() == 0 {
                return Err(at_line(line, "merge ON 缺少比對鍵"));
            }
            Ok((cols, srcs))
        },
    }
}

/// The types of the key columns of a target.
pub open spec fn key_types(
    cols: Seq<Seq<char>>,
    types: Map<Seq<char>, DataType>,
    target: Seq<char>,
    line: usize,
) -> Result<Seq<DataType>, ErrorView>
    decreases cols.len(),
{
    if cols.len() == 0 {
        Ok(seq![])
    } else {
        match key_types(cols.drop_last(), types, target, line) {
            Err(e) => Err(e),
            Ok(v) => if types.contains_key(text::lower(cols.last())) {
                Ok(v.push(types[text::lower(cols.last())]))
            } else {
                Err(
                    etl_error(
                        line,
                        "目標表 "@ + target + " 沒有比對鍵欄位 "@ + cols.last(),
                    ),
                )
            },
        }
    }
}

proof fn lemma_key_types_error(
    cols: Seq<Seq<char>>,
    k: int,
    types: Map<Seq<char>, DataType>,
    target: Seq<char>,
    line: usize,
)
    requires
        0 <= k <= cols.len(),
        key_types(cols.take(k), types, target, line) is Err,
    ensures
        key_types(cols, types, target, line) == key_types(cols.take(k), types, target, line),
    decreases cols.len() - k,
{
    if k < cols.len() {
        assert(cols.take(k + 1).drop_last() =~= cols.take(k));
        lemma_key_types_error(cols, k + 1, types, target, line);
    } else {
        assert(cols.take(k) =~= cols);
    }
}

/// The types of the key columns of a target.
pub fn type_keys(
    cols: &Vec<String>,
    types: &StringHashMap<DataType>,
    target: &str,
    line: usize,
) -> (r: Result<Vec<DataType>, EluEtlError>)
    ensures
        match r {
            Ok(v) => key_types(text::views(cols@), types@, target@, line) == Ok::<
                Seq<DataType>,
                ErrorView,
            >(v@) && v@.len() == cols@.len(),
            Err(e) => key_types(text::views(cols@), types@, target@, line) == Err::<
                Seq<DataType>,
                ErrorView,
            >(e@),
        },
{
    let ghost all = text::views(cols@);
    let mut out: Vec<DataType> = Vec::new();
    let mut i: usize = 0;
    assert(out@ =~= seq![]);
    while i < cols.len()
        invariant
            i <= cols@.len(),
            out@.len() == i,
            all == text::views(cols@),
            key_types(all.take(i as int), types@, target@, line) == Ok::<
                Seq<DataType>,
                ErrorView,
            >(out@),
        decreases cols@.len() - i,
    {
        assert(all.take(i + 1).drop_last() =~= all.take(i as int));
        match types.get(text::to_lower(cols[i].as_str()).as_str()) {
            Some(t) => {
                out.push(*t);
            },
            None => {
                proof {
                    lemma_key_types_error(all, i + 1, types@, target@, line);
                }
                return Err(
                    at_line(
                        line,
                        text::cat4(
                            "目標表 ",
                            target,
                            " 沒有比對鍵欄位 ",
                            cols[i].as_str(),
                        ).as_str(),
                    ),
                );
            },
        }
        i += 1;
    }
    assert(all.take(i as int) =~= all);
    Ok(out)
}

/// `UPDATE table SET … WHERE …`.
pub open spec fn update_text(
    d: Dialect,
    table: Seq<char>,
    columns: Seq<Seq<char>>,
    keys: Seq<Seq<char>>,
) -> Result<Seq<char>, ErrorView> {
    match equalities_text(d, columns, 1, ", "@) {
        Err(e) => Err(e),
        Ok(set) => match equalities_text(d, keys, 1 + columns.len(), " AND "@) {
            Err(e) => Err(e),
            Ok(cond) => match quoted_table(d, table) {
                Err(e) => Err(e),
                Ok(t) => Ok("UPDATE "@ + t + " SET "@ + set + " WHERE "@ + cond),
            },
        },
    }
}

/// `DELETE FROM table WHERE …`.
pub open spec fn delete_text(d: Dialect, table: Seq<char>, keys: Seq<Seq<char>>) -> Result<
    Seq<char>,
    ErrorView,
> {
    match equalities_text(d, keys, 1, " AND "@) {
        Err(e) => Err(e),
        Ok(cond) => match quoted_table(d, table) {
            Err(e) => Err(e),
            Ok(t) => Ok("DELETE FROM "@ + t + " WHERE "@ + cond),
        },
    }
}

/// The statement that updates the rows of a key.
pub fn update_sql(d: Dialect, table: &str, columns: &Vec<String>, keys: &Vec<String>) -> (r: Result<
    String,
    EluEtlError,
>)
    ensures
        written(r, update_text(d, table@, text::views(columns@), text::views(keys@))),
{
    assert(columns.len() <= usize::MAX && keys.len() <= usize::MAX);
    let (set, next): (String, u128) = equality_clause(d, columns, 1, ", ")?;
    assert(text::views(columns@).len() == columns@.len());
    let (cond, _): (String, u128) = equality_clause(d, keys, next, " AND ")?;
    let t: String = quote_table(d, table)?;
    let head: String = text::cat4("UPDATE ", t.as_str(), " SET ", set.as_str());
    Ok(text::cat3(head.as_str(), " WHERE ", cond.as_str()))
}

/// The statement that deletes the rows of a key.
pub fn delete_sql(d: Dialect, table: &str, keys: &Vec<String>) -> (r: Result<String, EluEtlError>)
    ensures
        written(r, delete_text(d, table@, text::views(keys@))),
{
    assert(keys.len() <= usize::MAX);
    let (cond, _): (String, u128) = equality_clause(d, keys, 1, " AND ")?;
    let t: String = quote_table(d, table)?;
    Ok(text::cat4("DELETE FROM ", t.as_str(), " WHERE ", cond.as_str()))
}

/// A statement on the rows of a key picks exactly the rows that agree with it in
/// every column of the key: its condition is `k1 = p1 AND k2 = p2 AND …`, one
/// equality for each column. The parameters of an UPDATE are numbered through the
/// columns that it sets and then through those of the key, as the values are
/// handed over; those of a DELETE through the key.
pub proof fn law_rows_agree_in_every_key_column(
    d: Dialect,
    table: Seq<char>,
    columns: Seq<Seq<char>>,
    keys: Seq<Seq<char>>,
)
    ensures
        update_text(d, table, columns, keys) matches Ok(u) ==> u == "UPDATE "@ + (quoted_table(
            d,
            table,
        )->Ok_0) + " SET "@ + text::join_seq(
            Seq::new(columns.len(), |i: int| equality(d, columns[i], (1 + i) as nat)),
            ", "@,
        ) + " WHERE "@ + text::join_seq(
            Seq::new(
                keys.len(),
                |i: int| equality(d, keys[i], (1 + columns.len() + i) as nat),
            ),
            " AND "@,
        ),
        delete_text(d, table, keys) matches Ok(s) ==> s == "DELETE FROM "@ + (quoted_table(
            d,
            table,
        )->Ok_0) + " WHERE "@ + text::join_seq(
            Seq::new(keys.len(), |i: int| equality(d, keys[i], (1 + i) as nat)),
            " AND "@,
        ),
        update_text(d, table, columns, keys) is Ok <==> quoted_table(d, table) is Ok && (forall|
            i: int,
        |
            0 <= i < columns.len() ==> is_name(#[trigger] columns[i])) && (forall|i: int|
            0 <= i < keys.len() ==> is_name(#[trigger] keys[i])),
        delete_text(d, table, keys) is Ok <==> quoted_table(d, table) is Ok && (forall|i: int|
            0 <= i < keys.len() ==> is_name(#[trigger] keys[i])),
{
    law_equalities_stand_one_by_one(d, columns, 1, ", "@);
    law_equalities_stand_one_by_one(d, keys, 1 + columns.len(), " AND "@);
    law_equalities_stand_one_by_one(d, keys, 1, " AND "@);
    assert(Seq::new(columns.len(), |i: int| equality(d, columns[i], (1 + i) as nat)) =~= Seq::new(
        columns.len(),
        |i: int| equality(d, columns[i], (1nat + i) as nat),
    ));
    assert(Seq::new(
        keys.len(),
        |i: int| equality(d, keys[i], (1 + columns.len() + i) as nat),
    ) =~= Seq::new(
        keys.len(),
        |i: int| equality(d, keys[i], ((1 + columns.len()) as nat + i) as nat),
    ));
    assert(Seq::new(keys.len(), |i: int| equality(d, keys[i], (1 + i) as nat)) =~= Seq::new(
        keys.len(),
        |i: int| equality(d, keys[i], (1nat + i) as nat),
    ));
}

/// One more key column narrows the rows: the condition goes on with AND and the
/// equality of that column. The condition of a DELETE is that of an UPDATE that
/// sets nothing.
pub proof fn law_each_key_column_narrows(
    d: Dialect,
    table: Seq<char>,
    columns: Seq<Seq<char>>,
    keys: Seq<Seq<char>>,
    k: Seq<char>,
)
    requires
        keys.len() > 0,
        is_name(k),
    ensures
        update_text(d, table, columns, keys) matches Ok(u) ==> update_text(
            d,
            table,
            columns,
            keys.push(k),
        ) == Ok::<Seq<char>, ErrorView>(
            u + " AND "@ + equality(d, k, 1 + columns.len() + keys.len()),
        ),
        delete_text(d, table, keys) matches Ok(s) ==> delete_text(d, table, keys.push(k)) == Ok::<
            Seq<char>,
            ErrorView,
        >(s + " AND "@ + equality(d, k, 1 + keys.len())),
{
    assert(keys.push(k).drop_last() =~= keys);
    if let Ok(u) = update_text(d, table, columns, keys) {
        let t = quoted_table(d, table)->Ok_0;
        let set = equalities_text(d, columns, 1, ", "@)->Ok_0;
        let cond = equalities_text(d, keys, 1 + columns.len(), " AND "@)->Ok_0;
        let n = 1 + columns.len() + keys.len();
        let longer = cond + " AND "@ + quoted_name(d, k) + " = "@ + placeholder(d, n);
        assert(equalities_text(d, keys.push(k), 1 + columns.len(), " AND "@) == Ok::<
            Seq<char>,
            ErrorView,
        >(longer));
        assert("UPDATE "@ + t + " SET "@ + set + " WHERE "@ + longer =~= u + " AND "@ + equality(
            d,
            k,
            n,
        ));
    }
    if let Ok(s) = delete_text(d, table, keys) {
        let t = quoted_table(d, table)->Ok_0;
        let cond = equalities_text(d, keys, 1, " AND "@)->Ok_0;
        let n = 1 + keys.len();
        let longer = cond + " AND "@ + quoted_name(d, k) + " = "@ + placeholder(d, n);
        assert(equalities_text(d, keys.push(k), 1, " AND "@) == Ok::<Seq<char>, ErrorView>(longer));
        assert("DELETE FROM "@ + t + " WHERE "@ + longer =~= s + " AND "@ + equality(d, k, n));
    }
}

/// A lookup asks for its columns in the order in which it reads them back: the
/// quoted columns, separated by commas.
pub proof fn law_columns_are_selected_in_order(
    d: Dialect,
    head: Seq<char>,
    columns: Seq<Seq<char>>,
    table: Seq<char>,
)
    ensures
        select_text(d, head, columns, table) matches Ok(s) ==> s == head + text::join_seq(
            Seq::new(columns.len(), |i: int| quoted_name(d, columns[i])),
            ", "@,
        ) + " FROM "@ + (quoted_table(d, table)->Ok_0),
        select_text(d, head, columns, table) is Ok <==> quoted_table(d, table) is Ok && (forall|
            i: int,
        |
            0 <= i < columns.len() ==> is_name(#[trigger] columns[i])),
{
    law_names_are_quoted_one_by_one(d, columns, ", "@);
}

/// A lookup table holds a row under a key exactly where one of the fetched rows has
/// that key, and of several such rows it holds the last.
pub proof fn law_last_row_of_a_key_is_kept(rows: Seq<Seq<CellView>>, n: nat, key: Seq<char>)
    ensures
        by_key(rows, n).contains_key(key) <==> exists|i: int|
            0 <= i < rows.len() && fetched_key(#[trigger] rows[i], n) == Some(key),
        by_key(rows, n).contains_key(key) ==> exists|i: int|
            0 <= i < rows.len() && fetched_key(#[trigger] rows[i], n) == Some(key) && by_key(
                rows,
                n,
            )[key] == rows[i] && forall|j: int|
                i < j < rows.len() ==> fetched_key(#[trigger] rows[j], n) != Some(key),
    decreases rows.len(),
{
    if rows.len() > 0 {
        let front = rows.drop_last();
        let last = rows.len() - 1;
        law_last_row_of_a_key_is_kept(front, n, key);
        assert(rows[last] == rows.last());
        assert forall|i: int| 0 <= i < last implies #[trigger] front[i] == rows[i] by {}
        if fetched_key(rows.last(), n) != Some(key) {
            if exists|i: int| 0 <= i < rows.len() && fetched_key(#[trigger] rows[i], n) == Some(key) {
                let i = choose|i: int|
                    0 <= i < rows.len() && fetched_key(#[trigger] rows[i], n) == Some(key);
                assert(front[i] == rows[i]);
            }
            if by_key(front, n).contains_key(key) {
                let i = choose|i: int|
                    0 <= i < front.len() && fetched_key(#[trigger] front[i], n) == Some(key)
                        && by_key(front, n)[key] == front[i] && forall|j: int|
                        i < j < front.len() ==> fetched_key(#[trigger] front[j], n) != Some(key);
                assert(rows[i] == front[i]);
                assert forall|j: int| i < j < rows.len() implies fetched_key(
                    #[trigger] rows[j],
                    n,
                ) != Some(key) by {
                    if j < last {
                        assert(front[j] == rows[j]);
                    }
                }
            }
        }
    }
}

/// The keys that a target has are those of its rows, and no others.
pub proof fn law_keys_are_those_of_the_rows(rows: Seq<Seq<CellView>>, n: nat, key: Seq<char>)
    ensures
        key_set(rows, n).contains(key) <==> exists|i: int|
            0 <= i < rows.len() && fetched_key(#[trigger] rows[i], n) == Some(key),
        key_set(rows, n).contains(key) <==> by_key(rows, n).contains_key(key),
    decreases rows.len(),
{
    if rows.len() > 0 {
        let front = rows.drop_last();
        let last = rows.len() - 1;
        law_keys_are_those_of_the_rows(front, n, key);
        assert(rows[last] == rows.last());
        if exists|i: int| 0 <= i < front.len() && fetched_key(#[trigger] front[i], n) == Some(key) {
            let i = choose|i: int|
                0 <= i < front.len() && fetched_key(#[trigger] front[i], n) == Some(key);
            assert(rows[i] == front[i]);
        }
        if exists|i: int| 0 <= i < rows.len() && fetched_key(#[trigger] rows[i], n) == Some(key) {
            let i = choose|i: int|
                0 <= i < rows.len() && fetched_key(#[trigger] rows[i], n) == Some(key);
            if i < last {
                assert(front[i] == rows[i]);
            }
        }
    }
}

/// A key column has the type that the target has for the column of that name in any
/// case, each in its place; an error comes exactly where the target has no such column.
pub proof fn law_key_columns_get_their_types(
    cols: Seq<Seq<char>>,
    types: Map<Seq<char>, DataType>,
    target: Seq<char>,
    line: usize,
)
    ensures
        key_types(cols, types, target, line) matches Ok(v) ==> v.len() == cols.len() && forall|i: int|
            0 <= i < cols.len() ==> types[text::lower(#[trigger] cols[i])] == v[i],
        key_types(cols, types, target, line) is Ok <==> forall|i: int|
            0 <= i < cols.len() ==> types.contains_key(text::lower(#[trigger] cols[i])),
    decreases cols.len(),
{
    if cols.len() > 0 {
        let front = cols.drop_last();
        let last = cols.len() - 1;
        law_key_columns_get_their_types(front, types, target, line);
        assert(cols[last] == cols.last());
        assert forall|i: int| 0 <= i < last implies front[i] == #[trigger] cols[i] by {}
        if let Ok(v) = key_types(cols, types, target, line) {
            let before = key_types(front, types, target, line)->Ok_0;
            assert forall|i: int| 0 <= i < cols.len() implies types[text::lower(
                #[trigger] cols[i],
            )] == v[i] by {
                if i < last {
                    assert(front[i] == cols[i]);
                    assert(v[i] == before[i]);
                }
            }
            assert forall|i: int| 0 <= i < cols.len() implies types.contains_key(
                text::lower(#[trigger] cols[i]),
            ) by {
                if i < last {
                    assert(front[i] == cols[i]);
                }
            }
        } else if key_types(front, types, target, line) is Err {
            let i = choose|i: int|
                0 <= i < front.len() && !types.contains_key(text::lower(#[trigger] front[i]));
            assert(front[i] == cols[i]);
        } else {
            assert(!types.contains_key(text::lower(cols[last])));
        }
    }
}

/// A merge key has one column of the target and one value for each equality of its ON,
/// in their order: the column is on the target's side of the equality, and the value
/// is the other side.
pub proof fn law_merge_keys_stand_beside_their_values(
    v: Seq<ComparisonView>,
    alias: Seq<char>,
    ctx: BindCtxView,
)
    ensures
        key_sides(v, alias, ctx) matches Ok((cols, srcs)) ==> cols.len() == v.len() && srcs.len()
            == v.len() && forall|i: int|
            0 <= i < v.len() ==> (equality_sides(#[trigger] v[i], alias) matches Some((c, e)) && c
                == cols[i] && bind(e, ctx) == Ok::<BindView, ErrorView>(srcs[i])),
    decreases v.len(),
{
    if v.len() > 0 {
        let front = v.drop_last();
        let last = v.len() - 1;
        law_merge_keys_stand_beside_their_values(front, alias, ctx);
        if let Ok((cols, srcs)) = key_sides(v, alias, ctx) {
            let (c, s) = key_sides(front, alias, ctx)->Ok_0;
            assert forall|i: int| 0 <= i < v.len() implies (equality_sides(
                #[trigger] v[i],
                alias,
            ) matches Some((x, e)) && x == cols[i] && bind(e, ctx) == Ok::<BindView, ErrorView>(
                srcs[i],
            )) by {
                if i < last {
                    assert(front[i] == v[i]);
                    assert(cols[i] == c[i] && srcs[i] == s[i]);
                }
            }
        }
    }
}

/// The target of a merge goes by the first alias in its ON that is neither the main
/// source nor a lookup.
pub proof fn law_target_alias_is_foreign(v: Seq<ComparisonView>, ctx: BindCtxView)
    ensures
        target_alias(v, ctx) matches Some(a) ==> !is_source_alias(a, ctx),
        target_alias(v, ctx) is None <==> forall|i: int|
            0 <= i < v.len() ==> foreign_alias((#[trigger] v[i]).left, ctx) is None
                && foreign_alias(v[i].right, ctx) is None,
        v.len() > 0 && foreign_alias(v[0].left, ctx) is Some ==> target_alias(v, ctx)
            == foreign_alias(v[0].left, ctx),
    decreases v.len(),
{
    if v.len() > 0 {
        law_target_alias_is_foreign(v.skip(1), ctx);
        assert forall|i: int| 1 <= i < v.len() implies v.skip(1)[i - 1] == #[trigger] v[i] by {}
        if foreign_alias(v[0].left, ctx) is None && foreign_alias(v[0].right, ctx) is None {
            if target_alias(v.skip(1), ctx) is None {
                assert forall|i: int| 0 <= i < v.len() implies foreign_alias(
                    (#[trigger] v[i]).left,
                    ctx,
                ) is None && foreign_alias(v[i].right, ctx) is None by {
                    if i > 0 {
                        assert(v.skip(1)[i - 1] == v[i]);
                    }
                }
            } else {
                let i = choose|i: int|
                    0 <= i < v.skip(1).len() && !(foreign_alias(
                        (#[trigger] v.skip(1)[i]).left,
                        ctx,
                    ) is None && foreign_alias(v.skip(1)[i].right, ctx) is None);
                assert(v[i + 1] == v.skip(1)[i]);
            }
        }
    }
}

/// Each value that is needed of a lookup is found where its column was fetched.
pub proof fn law_values_are_read_where_they_were_fetched(
    values: Seq<Seq<char>>,
    selected: Seq<Seq<char>>,
    i: int,
)
    requires
        0 <= i < values.len(),
        selected.len() <= usize::MAX,
        forall|k: int| 0 <= k < values.len() ==> has_name(selected, #[trigger] values[k]),
    ensures
        value_places(values, selected).contains_key(text::lower(values[i])),
        ({
            let p = value_places(values, selected)[text::lower(values[i])];
            p < selected.len() && exists|k: int|
                0 <= k < values.len() && text::lower(#[trigger] values[k]) == text::lower(values[i])
                    && text::same_ignoring_case(selected[p as int], values[k])
        }),
    decreases values.len(),
{
    let front = values.drop_last();
    let last = values.len() - 1;
    assert(values[last] == values.last());
    lemma_place(selected, values[last]);
    if text::lower(values[i]) == text::lower(values[last]) {
        let p = value_places(values, selected)[text::lower(values[i])];
        assert(p == name_place(selected, values[last]));
        assert(text::same_ignoring_case(selected[p as int], values[last]));
    } else {
        assert forall|k: int| 0 <= k < front.len() implies has_name(
            selected,
            #[trigger] front[k],
        ) by {
            assert(front[k] == values[k]);
        }
        assert(front[i] == values[i]);
        law_values_are_read_where_they_were_fetched(front, selected, i);
        let p = value_places(front, selected)[text::lower(values[i])];
        let k = choose|k: int|
            0 <= k < front.len() && text::lower(#[trigger] front[k]) == text::lower(values[i])
                && text::same_ignoring_case(selected[p as int], front[k]);
        assert(values[k] == front[k]);
    }
}

/// A merge has a key exactly where its ON is made of equalities that name the target and can
/// be bound: each gives one key column and one value, and there is at least one.
pub proof fn law_merges_have_a_key(m: MergeView, ctx: BindCtxView, line: usize)
    ensures
        merge_key(m, ctx, line) is Ok <==> (equalities(m.on) matches Some(eqs) && (target_alias(
            eqs,
            ctx,
        ) matches Some(alias) && key_sides(eqs, alias, ctx) is Ok && eqs.len() > 0)),
        merge_key(m, ctx, line) matches Ok((cols, srcs)) ==> cols.len() > 0 && cols.len()
            == srcs.len() && (equalities(m.on) matches Some(eqs) && cols.len() == eqs.len()),
        merge_key(m, ctx, line) matches Ok(k) ==> (equalities(m.on) matches Some(eqs) && (target_alias(
            eqs,
            ctx,
        ) matches Some(alias) && key_sides(eqs, alias, ctx) == Ok::<_, ErrorView>(k))),
{
    if let Some(eqs) = equalities(m.on) {
        if let Some(alias) = target_alias(eqs, ctx) {
            law_merge_keys_stand_beside_their_values(eqs, alias, ctx);
        }
    }
}

} // verus!
