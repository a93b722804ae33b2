//! Tables and columns as databases describe them.
use crate::models::value::{db_data_type, DataType};
use crate::text;
use vstd::hash_map::StringHashMap;
use vstd::prelude::*;

verus! {

/// A table; SQLite has no schemas.
#[derive(Debug, Clone, PartialEq)]
pub struct TableInfo {
    pub schema: Option<String>,
    pub name: String,
}

/// A column with its type as the database names it.
#[derive(Debug, Clone, PartialEq)]
pub struct ColumnInfo {
    pub name: String,
    pub db_type: String,
    pub nullable: bool,
    pub ordinal: u32,
}

#[verifier::ext_equal]
pub struct ColumnView {
    pub name: Seq<char>,
    pub db_type: Seq<char>,
}

impl View for ColumnInfo {
    type V = ColumnView;

    open spec fn view(&self) -> ColumnView {
        ColumnView { name: self.name@, db_type: self.db_type@ }
    }
}

pub open spec fn columns_view(v: Seq<ColumnInfo>) -> Seq<ColumnView> {
    Seq::new(v.len(), |i: int| v[i]@)
}

/// The common type of each column by its name in lower case; of equal names
/// the last one counts.
pub open spec fn column_types(v: Seq<ColumnView>) -> Map<Seq<char>, DataType>
    decreases v.len(),
{
    if v.len() == 0 {
        Map::empty()
    } else {
        column_types(v.drop_last()).insert(
            text::lower(v.last().name),
            db_data_type(text::lower(v.last().db_type)),
        )
    }
}

/// The common type of each column by its name in lower case.
pub fn index_types(columns: &Vec<ColumnInfo>) -> (r: StringHashMap<DataType>)
    ensures
        r@ == column_types(columns_view(columns@)),
{
    let mut m: StringHashMap<DataType> = StringHashMap::new();
    let ghost all = columns_view(columns@);
    let mut i: usize = 0;
    assert(m@ =~= column_types(all.take(0)));
    while i < columns.len()
        invariant
            i <= columns@.len(),
            all == columns_view(columns@),
            m@ == column_types(all.take(i as int)),
        decreases columns@.len() - i,
    {
        assert(all.take(i + 1).drop_last() =~= all.take(i as int));
        let c: &ColumnInfo = &columns[i];
        m.insert(
            text::to_lower(c.name.as_str()),
            DataType::from_db_type(c.db_type.as_str()),
        );
        i += 1;
    }
    assert(all.take(i as int) =~= all);
    m
}

/// A column is known by its name in lower case, and of several such columns the last
/// one gives the type.
pub proof fn law_last_column_of_a_name_counts(v: Seq<ColumnView>, name: Seq<char>)
    ensures
        column_types(v).contains_key(name) <==> exists|i: int|
            0 <= i < v.len() && text::lower((#[trigger] v[i]).name) == name,
        column_types(v).contains_key(name) ==> exists|i: int|
            0 <= i < v.len() && text::lower((#[trigger] v[i]).name) == name && column_types(v)[name]
                == db_data_type(text::lower(v[i].db_type)) && forall|j: int|
                i < j < v.len() ==> text::lower((#[trigger] v[j]).name) != name,
    decreases v.len(),
{
    if v.len() > 0 {
        let front = v.drop_last();
        let last = v.len() - 1;
        law_last_column_of_a_name_counts(front, name);
        assert(v[last] == v.last());
        if text::lower(v.last().name) != name {
            if exists|i: int| 0 <= i < v.len() && text::lower((#[trigger] v[i]).name) == name {
                let i = choose|i: int|
                    0 <= i < v.len() && text::lower((#[trigger] v[i]).name) == name;
                assert(front[i] == v[i]);
            }
            if column_types(front).contains_key(name) {
                let i = choose|i: int|
                    0 <= i < front.len() && text::lower((#[trigger] front[i]).name) == name
                        && column_types(front)[name] == db_data_type(
                        text::lower(front[i].db_type),
                    ) && forall|j: int|
                        i < j < front.len() ==> text::lower((#[trigger] front[j]).name) != name;
                assert(v[i] == front[i]);
                assert forall|j: int| i < j < v.len() implies text::lower((#[trigger] v[j]).name)
                    != name by {
                    if j < last {
                        assert(front[j] == v[j]);
                    }
                }
            }
        }
    }
}

} // verus!
