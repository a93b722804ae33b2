//! Aliases in force while a job is parsed, and how a column path becomes a reference.
use crate::etl::script::ast::{ColRef, ColRefView};
use crate::etl::script::clauses::{err, issue, IssueView, ScriptIssue};
use crate::text;
use vstd::prelude::*;

verus! {

/// One alias in force.
pub struct BindingInfo {
    pub alias: String,
    pub alias_lower: String,
    pub table_lower: Vec<String>,
}

#[verifier::ext_equal]
pub struct BindingInfoView {
    pub alias: Seq<char>,
    pub alias_lower: Seq<char>,
    pub table_lower: Seq<Seq<char>>,
}

impl View for BindingInfo {
    type V = BindingInfoView;

    open spec fn view(&self) -> BindingInfoView {
        BindingInfoView {
            alias: self.alias@,
            alias_lower: self.alias_lower@,
            table_lower: text::views(self.table_lower@),
        }
    }
}

pub open spec fn infos_view(v: Seq<BindingInfo>) -> Seq<BindingInfoView> {
    Seq::new(v.len(), |i: int| v[i]@)
}

/// The aliases in force, and whose columns an unqualified name means.
pub struct Scope {
    pub from_alias: String,
    pub bindings: Vec<BindingInfo>,
    /// Statements without FROM qualify columns by table path.
    pub legacy: bool,
}

#[verifier::ext_equal]
pub struct ScopeView {
    pub from_alias: Seq<char>,
    pub bindings: Seq<BindingInfoView>,
    pub legacy: bool,
}

impl View for Scope {
    type V = ScopeView;

    open spec fn view(&self) -> ScopeView {
        ScopeView {
            from_alias: self.from_alias@,
            bindings: infos_view(self.bindings@),
            legacy: self.legacy,
        }
    }
}

/// The scope with no alias.
pub open spec fn no_scope(legacy: bool) -> ScopeView {
    ScopeView { from_alias: seq![], bindings: seq![], legacy }
}

/// Each text in lower case.
pub open spec fn lowers(v: Seq<Seq<char>>) -> Seq<Seq<char>> {
    Seq::new(v.len(), |i: int| text::lower(v[i]))
}

/// The scope with one more alias.
pub open spec fn with_alias(s: ScopeView, alias: Seq<char>, table: Seq<Seq<char>>) -> ScopeView {
    ScopeView {
        bindings: s.bindings.push(
            BindingInfoView {
                alias,
                alias_lower: text::lower(alias),
                table_lower: lowers(table),
            },
        ),
        ..s
    }
}

/// The first alias of that lower-case name, as it was declared.
pub open spec fn alias_named(v: Seq<BindingInfoView>, low: Seq<char>) -> Option<Seq<char>>
    decreases v.len(),
{
    if v.len() == 0 {
        None
    } else if v[0].alias_lower == low {
        Some(v[0].alias)
    } else {
        alias_named(v.skip(1), low)
    }
}

/// The first alias of that lower-case table path.
pub open spec fn alias_of_table(v: Seq<BindingInfoView>, table: Seq<Seq<char>>) -> Option<Seq<char>>
    decreases v.len(),
{
    if v.len() == 0 {
        None
    } else if v[0].table_lower == table {
        Some(v[0].alias)
    } else {
        alias_of_table(v.skip(1), table)
    }
}

pub open spec fn col_ref(alias: Seq<char>, column: Seq<char>, line: usize) -> Result<
    ColRefView,
    IssueView,
> {
    Ok(ColRefView { alias, column, line })
}

/// The column that a path means.
pub open spec fn resolve(s: ScopeView, parts: Seq<Seq<char>>, line: usize) -> Result<
    ColRefView,
    IssueView,
> {
    if parts.len() == 0 {
        Err(issue(line, "空的欄位參照"@))
    } else if !s.legacy {
        if parts.len() == 1 {
            col_ref(s.from_alias, parts[0], line)
        } else if parts.len() == 2 {
            match alias_named(s.bindings, text::lower(parts[0])) {
                Some(alias) => col_ref(alias, parts[1], line),
                None => Err(
                    issue(
                        line,
                        "未知別名 ["@ + parts[0]
                            + "]——欄位需寫成 別名.[欄位]，別名須由 FROM / JOIN / INTO 宣告"@,
                    ),
                ),
            }
        } else {
            Err(
                issue(
                    line,
                    "欄位參照應為 別名.[欄位]，但收到 "@ + text::join_seq(parts, "."@),
                ),
            )
        }
    } else {
        let table = lowers(parts.drop_last());
        if table.len() == 0 || (table.len() == 1 && table[0] == "source"@) {
            col_ref(s.from_alias, parts.last(), line)
        } else {
            match alias_of_table(s.bindings, table) {
                Some(alias) => col_ref(alias, parts.last(), line),
                None => col_ref(s.from_alias, parts.last(), line),
            }
        }
    }
}

/// The first `to` texts in lower case.
fn lower_all(v: &Vec<String>, to: usize) -> (r: Vec<String>)
    requires
        to <= v@.len(),
    ensures
        text::views(r@) == lowers(text::views(v@).take(to as int)),
{
    let mut out: Vec<String> = Vec::new();
    let mut i: usize = 0;
    while i < to
        invariant
            i <= to <= v@.len(),
            out@.len() == i,
            forall|j: int| 0 <= j < i ==> #[trigger] out@[j]@ == text::lower(v@[j]@),
        decreases to - i,
    {
        out.push(text::to_lower(v[i].as_str()));
        i += 1;
    }
    assert(text::views(out@) =~= lowers(text::views(v@).take(to as int)));
    out
}

/// Whether two lists hold the same texts in the same order.
pub(crate) fn same_texts(a: &Vec<String>, b: &Vec<String>) -> (r: bool)
    ensures
        r == (text::views(a@) == text::views(b@)),
{
    if a.len() != b.len() {
        assert(text::views(a@).len() != text::views(b@).len());
        return false;
    }
    let mut i: usize = 0;
    while i < a.len()
        invariant
            i <= a@.len() == b@.len(),
            forall|j: int| 0 <= j < i ==> #[trigger] text::views(a@)[j] == text::views(b@)[j],
        decreases a@.len() - i,
    {
        if !text::same(a[i].as_str(), b[i].as_str()) {
            assert(text::views(a@)[i as int] != text::views(b@)[i as int]);
            return false;
        }
        i += 1;
    }
    assert(text::views(a@) =~= text::views(b@));
    true
}

/// A copy of each text.
pub fn copy_texts(v: &Vec<String>) -> (r: Vec<String>)
    ensures
        r@ == v@,
{
    let mut out: Vec<String> = Vec::new();
    let mut i: usize = 0;
    while i < v.len()
        invariant
            i <= v@.len(),
            out@ == v@.take(i as int),
        decreases v@.len() - i,
    {
        out.push(v[i].clone());
        i += 1;
        assert(out@ =~= v@.take(i as int));
    }
    assert(out@ =~= v@);
    out
}

impl Scope {
    /// The scope with no alias.
    pub fn empty(legacy: bool) -> (r: Scope)
        ensures
            r@ == no_scope(legacy),
    {
        let s: Scope = Scope { from_alias: String::new(), bindings: Vec::new(), legacy };
        assert(s@ =~= no_scope(legacy));
        s
    }

    /// A copy of the scope.
    pub fn copy(&self) -> (r: Scope)
        ensures
            r@ == self@,
    {
        let mut bindings: Vec<BindingInfo> = Vec::new();
        let mut i: usize = 0;
        while i < self.bindings.len()
            invariant
                i <= self.bindings@.len(),
                bindings@.len() == i,
                forall|j: int| 0 <= j < i ==> #[trigger] bindings@[j]@ == self.bindings@[j]@,
            decreases self.bindings@.len() - i,
        {
            let b: &BindingInfo = &self.bindings[i];
            bindings.push(
                BindingInfo {
                    alias: b.alias.clone(),
                    alias_lower: b.alias_lower.clone(),
                    table_lower: copy_texts(&b.table_lower),
                },
            );
            i += 1;
        }
        assert(infos_view(bindings@) =~= infos_view(self.bindings@));
        Scope { from_alias: self.from_alias.clone(), bindings, legacy: self.legacy }
    }

    /// Adds an alias.
    pub fn register(&mut self, alias: &str, table: &Vec<String>)
        ensures
            final(self)@ == with_alias(old(self)@, alias@, text::views(table@)),
    {
        let b: BindingInfo = BindingInfo {
            alias: alias.to_string(),
            alias_lower: text::to_lower(alias),
            table_lower: lower_all(table, table.len()),
        };
        proof {
            assert(text::views(table@).take(table@.len() as int) =~= text::views(table@));
            assert(infos_view(self.bindings@.push(b)) =~= infos_view(self.bindings@).push(b@));
        }
        self.bindings.push(b);
    }

    fn canonical(&self, low: &str) -> (r: Option<String>)
        ensures
            text::opt_view(r) == alias_named(self@.bindings, low@),
    {
        let mut i: usize = 0;
        let ghost all = infos_view(self.bindings@);
        assert(all.skip(0) =~= all);
        while i < self.bindings.len()
            invariant
                i <= self.bindings@.len(),
                all == infos_view(self.bindings@),
                alias_named(all, low@) == alias_named(all.skip(i as int), low@),
            decreases self.bindings@.len() - i,
        {
            assert(all.skip(i as int)[0] == self.bindings@[i as int]@);
            if text::same(self.bindings[i].alias_lower.as_str(), low) {
                return Some(self.bindings[i].alias.clone());
            }
            assert(all.skip(i as int).skip(1) =~= all.skip(i + 1));
            i += 1;
        }
        None
    }

    fn of_table(&self, table: &Vec<String>) -> (r: Option<String>)
        ensures
            text::opt_view(r) == alias_of_table(self@.bindings, text::views(table@)),
    {
        let mut i: usize = 0;
        let ghost all = infos_view(self.bindings@);
        let ghost want = text::views(table@);
        assert(all.skip(0) =~= all);
        while i < self.bindings.len()
            invariant
                i <= self.bindings@.len(),
                all == infos_view(self.bindings@),
                want == text::views(table@),
                alias_of_table(all, want) == alias_of_table(all.skip(i as int), want),
            decreases self.bindings@.len() - i,
        {
            assert(all.skip(i as int)[0] == self.bindings@[i as int]@);
            if same_texts(&self.bindings[i].table_lower, table) {
                return Some(self.bindings[i].alias.clone());
            }
            assert(all.skip(i as int).skip(1) =~= all.skip(i + 1));
            i += 1;
        }
        None
    }

    /// The column that a path means, or why it means none.
    pub fn resolve(&self, parts: &Vec<String>, line: usize) -> (r: Result<ColRef, ScriptIssue>)
        ensures
            match r {
                Ok(c) => resolve(self@, text::views(parts@), line) == Ok::<ColRefView, IssueView>(
                    c@,
                ),
                Err(e) => resolve(self@, text::views(parts@), line) == Err::<ColRefView, IssueView>(
                    e@,
                ),
            },
    {
        if parts.len() == 0 {
            return Err(err(line, "空的欄位參照"));
        }
        if !self.legacy {
            if parts.len() == 1 {
                return Ok(
                    ColRef { alias: self.from_alias.clone(), column: parts[0].clone(), line },
                );
            }
            if parts.len() == 2 {
                let head: String = text::to_lower(parts[0].as_str());
                return match self.canonical(head.as_str()) {
                    Some(alias) => Ok(ColRef { alias, column: parts[1].clone(), line }),
                    None => Err(
                        err(
                            line,
                            text::cat3(
                                "未知別名 [",
                                parts[0].as_str(),
                                "]——欄位需寫成 別名.[欄位]，別名須由 FROM / JOIN / INTO 宣告",
                            ).as_str(),
                        ),
                    ),
                };
            }
            return Err(
                err(
                    line,
                    text::cat(
                        "欄位參照應為 別名.[欄位]，但收到 ",
                        text::join(parts, ".").as_str(),
                    ).as_str(),
                ),
            );
        }
        let column: String = parts[parts.len() - 1].clone();
        let table: Vec<String> = lower_all(parts, parts.len() - 1);
        proof {
            assert(text::views(parts@).drop_last() =~= text::views(parts@).take(parts@.len() - 1));
            assert(text::views(table@).len() == table@.len());
        }
        if table.len() == 0 || (table.len() == 1 && text::same(table[0].as_str(), "source")) {
            assert(table@.len() == 1 ==> text::views(table@)[0] == table@[0]@);
            return Ok(ColRef { alias: self.from_alias.clone(), column, line });
        }
        assert(table@.len() == 1 ==> text::views(table@)[0] == table@[0]@);
        match self.of_table(&table) {
            Some(alias) => Ok(ColRef { alias, column, line }),
            None => Ok(ColRef { alias: self.from_alias.clone(), column, line }),
        }
    }
}

/// An alias is found by its name in any case; of several the first counts.
pub proof fn law_first_alias_of_a_name_counts(v: Seq<BindingInfoView>, low: Seq<char>) -> (i: int)
    ensures
        0 <= i <= v.len(),
        alias_named(v, low) matches Some(a) ==> i < v.len() && v[i].alias == a,
        alias_named(v, low) is None ==> i == v.len(),
        i < v.len() ==> v[i].alias_lower == low,
        forall|j: int| 0 <= j < i ==> (#[trigger] v[j]).alias_lower != low,
    decreases v.len(),
{
    if v.len() == 0 || v[0].alias_lower == low {
        0
    } else {
        let i = law_first_alias_of_a_name_counts(v.skip(1), low);
        assert forall|j: int| 0 <= j < i + 1 implies (#[trigger] v[j]).alias_lower != low by {
            if j > 0 {
                assert(v.skip(1)[j - 1] == v[j]);
            }
        }
        i + 1
    }
}

/// A table path stands for the first alias of that table.
pub proof fn law_first_alias_of_a_table_counts(
    v: Seq<BindingInfoView>,
    table: Seq<Seq<char>>,
) -> (i: int)
    ensures
        0 <= i <= v.len(),
        alias_of_table(v, table) matches Some(a) ==> i < v.len() && v[i].alias == a,
        alias_of_table(v, table) is None ==> i == v.len(),
        i < v.len() ==> v[i].table_lower == table,
        forall|j: int| 0 <= j < i ==> (#[trigger] v[j]).table_lower != table,
    decreases v.len(),
{
    if v.len() == 0 || v[0].table_lower == table {
        0
    } else {
        let i = law_first_alias_of_a_table_counts(v.skip(1), table);
        assert forall|j: int| 0 <= j < i + 1 implies (#[trigger] v[j]).table_lower != table by {
            if j > 0 {
                assert(v.skip(1)[j - 1] == v[j]);
            }
        }
        i + 1
    }
}

/// A column path names its column last. A column without an alias is one of the main
/// source. Where aliases are declared, an unknown one or a longer path is refused;
/// where they are not, a path that is no known table means the main source.
pub proof fn law_paths_name_their_column_last(s: ScopeView, parts: Seq<Seq<char>>, line: usize)
    requires
        parts.len() > 0,
    ensures
        resolve(s, parts, line) matches Ok(r) ==> r.column == parts.last() && r.line == line,
        parts.len() == 1 ==> (resolve(s, parts, line) matches Ok(r) && r.alias == s.from_alias),
        resolve(s, parts, line) matches Err(e) ==> e.line == line,
        s.legacy ==> resolve(s, parts, line) is Ok,
        !s.legacy ==> (resolve(s, parts, line) is Err <==> parts.len() > 2 || (parts.len() == 2
            && alias_named(s.bindings, text::lower(parts[0])) is None)),
        !s.legacy && parts.len() == 2 ==> (resolve(s, parts, line) matches Ok(r) ==> alias_named(
            s.bindings,
            text::lower(parts[0]),
        ) == Some(r.alias)),
{
}

/// A new alias is found by its name in any case unless an earlier one has it, and the
/// aliases before it mean what they meant.
pub proof fn law_new_alias_is_found(
    s: ScopeView,
    alias: Seq<char>,
    table: Seq<Seq<char>>,
    low: Seq<char>,
)
    ensures
        alias_named(s.bindings, low) is Some ==> alias_named(
            with_alias(s, alias, table).bindings,
            low,
        ) == alias_named(s.bindings, low),
        alias_named(s.bindings, low) is None && text::lower(alias) == low ==> alias_named(
            with_alias(s, alias, table).bindings,
            low,
        ) == Some(alias),
        with_alias(s, alias, table).from_alias == s.from_alias,
        with_alias(s, alias, table).legacy == s.legacy,
{
    let t = with_alias(s, alias, table).bindings;
    let i = law_first_alias_of_a_name_counts(s.bindings, low);
    let k = law_first_alias_of_a_name_counts(t, low);
    assert forall|j: int| 0 <= j < s.bindings.len() implies #[trigger] t[j] == s.bindings[j] by {}
    if i < s.bindings.len() {
        assert(t[i].alias_lower == low);
        if k < i {
            assert(s.bindings[k].alias_lower != low);
        }
        assert(k == i);
    } else if text::lower(alias) == low {
        let n = s.bindings.len() as int;
        assert(t[n].alias_lower == low);
        if k < n {
            assert(s.bindings[k].alias_lower != low);
        }
        assert(k == n);
    }
}

} // verus!
