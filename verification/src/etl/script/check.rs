//! The check of a script in the editor: its syntax, and whether the columns
//! that it reads exist.
use crate::double::{is_reader, reading, Real};
use crate::etl::script::ast::{ref_views, ColRef, ColRefView};
use crate::etl::script::clauses::{
    borrowed_actions, issue, work_actions, works_view, Action, ActionView, IssueView, Script,
    ScriptIssue, ScriptView, Work, WorkView,
};
use crate::etl::script::job_parser::parse;
use crate::etl::script::jobs::parse_spec;
use crate::etl::script::plan::{refs_of_work, work_refs};
use crate::etl::script::prepare::shown_name;
use crate::text;
use vstd::prelude::*;

verus! {

/// What the check found.
#[derive(Debug, Clone, PartialEq)]
pub struct ScriptCheck {
    pub ok: bool,
    pub statement_count: usize,
    pub issues: Vec<ScriptIssue>,
}

pub open spec fn issues_view(v: Seq<ScriptIssue>) -> Seq<IssueView> {
    Seq::new(v.len(), |i: int| v[i]@)
}

/// An ADD or UPDATE that assigns nothing.
pub open spec fn assigns_nothing(a: ActionView) -> bool {
    match a {
        ActionView::Add(v) => v.len() == 0,
        ActionView::Update(v) => v.len() == 0,
        _ => false,
    }
}

/// One of the actions of a job assigns nothing.
pub open spec fn has_empty_action(w: WorkView) -> bool {
    exists|i: int| 0 <= i < work_actions(w).len() && assigns_nothing(#[trigger] work_actions(w)[i])
}

/// The issues of jobs that assign nothing, one for each.
pub open spec fn empty_issues(works: Seq<WorkView>) -> Seq<IssueView>
    decreases works.len(),
{
    if works.len() == 0 {
        seq![]
    } else {
        let before = empty_issues(works.drop_last());
        let w = works.last();
        if has_empty_action(w) {
            before.push(
                issue(
                    w.line,
                    "作業「"@ + shown_name(w) + "」沒有任何欄位指派，至少需要一個"@,
                ),
            )
        } else {
            before
        }
    }
}

/// The name is one of the columns, in any case.
pub open spec fn known_column(columns: Seq<Seq<char>>, name: Seq<char>) -> bool {
    exists|i: int|
        0 <= i < columns.len() && text::lower(#[trigger] columns[i]) == text::lower(name)
}

/// The issues of columns that the source does not have; `alias` stands for the
/// source, in lower case.
pub open spec fn column_issues(
    refs: Seq<ColRefView>,
    alias: Seq<char>,
    columns: Seq<Seq<char>>,
) -> Seq<IssueView>
    decreases refs.len(),
{
    if refs.len() == 0 {
        seq![]
    } else {
        let before = column_issues(refs.drop_last(), alias, columns);
        let r = refs.last();
        if text::lower(r.alias) == alias && !known_column(columns, r.column) {
            before.push(
                issue(
                    r.line,
                    "來源沒有欄位 "@ + r.column + "（可用："@ + text::join_seq(columns, ", "@)
                        + "）"@,
                ),
            )
        } else {
            before
        }
    }
}

/// The column issues of all jobs.
pub open spec fn all_column_issues(works: Seq<WorkView>, columns: Seq<Seq<char>>) -> Seq<IssueView>
    decreases works.len(),
{
    if works.len() == 0 {
        seq![]
    } else {
        let w = works.last();
        all_column_issues(works.drop_last(), columns) + column_issues(
            work_refs(w),
            text::lower(w.from.alias),
            columns,
        )
    }
}

/// All issues of a script that can be parsed.
pub open spec fn script_issues(s: ScriptView, columns: Option<Seq<Seq<char>>>) -> Seq<IssueView> {
    empty_issues(s.works) + (match columns {
        Some(c) => all_column_issues(s.works, c),
        None => seq![],
    })
}

fn push_issue(issues: &mut Vec<ScriptIssue>, line: usize, message: String)
    ensures
        issues_view(final(issues)@) == issues_view(old(issues)@).push(issue(line, message@)),
{
    let x = ScriptIssue { line, message };
    assert(issues_view(issues@.push(x)) =~= issues_view(issues@).push(x@));
    issues.push(x);
}

fn empty_action(work: &Work) -> (r: bool)
    ensures
        r == has_empty_action(work@),
{
    let actions: Vec<&Action> = work.actions();
    let ghost all = work_actions(work@);
    let mut i: usize = 0;
    while i < actions.len()
        invariant
            i <= actions@.len(),
            all == work_actions(work@),
            all == borrowed_actions(actions@),
            forall|k: int| 0 <= k < i ==> !assigns_nothing(#[trigger] all[k]),
        decreases actions@.len() - i,
    {
        assert(all[i as int] == actions@[i as int]@);
        let empty: bool = match actions[i] {
            Action::Add(v) => v.len() == 0,
            Action::Update(v) => v.len() == 0,
            _ => false,
        };
        if empty {
            return true;
        }
        i += 1;
    }
    false
}

fn check_actions(works: &Vec<Work>) -> (r: Vec<ScriptIssue>)
    ensures
        issues_view(r@) == empty_issues(works_view(works@)),
{
    let ghost all = works_view(works@);
    let mut issues: Vec<ScriptIssue> = Vec::new();
    let mut i: usize = 0;
    assert(issues_view(issues@) =~= empty_issues(all.take(0)));
    while i < works.len()
        invariant
            i <= works@.len(),
            all == works_view(works@),
            issues_view(issues@) == empty_issues(all.take(i as int)),
        decreases works@.len() - i,
    {
        assert(all.take(i + 1).drop_last() =~= all.take(i as int));
        let w: &Work = &works[i];
        if empty_action(w) {
            let name: &str = match &w.name {
                Some(n) => n.as_str(),
                None => "-",
            };
            push_issue(
                &mut issues,
                w.line,
                text::cat3("作業「", name, "」沒有任何欄位指派，至少需要一個"),
            );
        }
        i += 1;
    }
    assert(all.take(i as int) =~= all);
    issues
}

fn column_known(columns: &Vec<String>, name: &str) -> (r: bool)
    ensures
        r == known_column(text::views(columns@), name@),
{
    let low: String = text::to_lower(name);
    let ghost all = text::views(columns@);
    let mut i: usize = 0;
    while i < columns.len()
        invariant
            i <= columns@.len(),
            all == text::views(columns@),
            low@ == text::lower(name@),
            forall|k: int| 0 <= k < i ==> text::lower(#[trigger] all[k]) != low@,
        decreases columns@.len() - i,
    {
        assert(all[i as int] == columns@[i as int]@);
        if text::same(text::to_lower(columns[i].as_str()).as_str(), low.as_str()) {
            return true;
        }
        i += 1;
    }
    false
}

fn check_columns(issues: &mut Vec<ScriptIssue>, work: &Work, columns: &Vec<String>)
    ensures
        issues_view(final(issues)@) == issues_view(old(issues)@) + column_issues(
            work_refs(work@),
            text::lower(work@.from.alias),
            text::views(columns@),
        ),
{
    let refs: Vec<&ColRef> = refs_of_work(work);
    let alias: String = text::to_lower(work.from.alias.as_str());
    let ghost all = work_refs(work@);
    let ghost cols = text::views(columns@);
    let ghost start = issues_view(issues@);
    let mut i: usize = 0;
    assert(start + column_issues(all.take(0), alias@, cols) =~= start);
    while i < refs.len()
        invariant
            i <= refs@.len(),
            all == ref_views(refs@),
            cols == text::views(columns@),
            issues_view(issues@) == start + column_issues(all.take(i as int), alias@, cols),
        decreases refs@.len() - i,
    {
        proof {
            assert(all.take(i + 1).drop_last() =~= all.take(i as int));
            assert(all.take(i + 1).last() == refs@[i as int]@);
        }
        let r: &ColRef = refs[i];
        if text::same(text::to_lower(r.alias.as_str()).as_str(), alias.as_str()) && !column_known(
            columns,
            r.column.as_str(),
        ) {
            let shown: String = text::join(columns, ", ");
            let message: String = text::cat5(
                "來源沒有欄位 ",
                r.column.as_str(),
                "（可用：",
                shown.as_str(),
                "）",
            );
            proof {
                let before = column_issues(all.take(i as int), alias@, cols);
                let x = issue(r.line, message@);
                assert((start + before).push(x) =~= start + before.push(x));
            }
            push_issue(issues, r.line, message);
        }
        i += 1;
    }
    assert(all.take(i as int) =~= all);
}

/// Checks a script; the columns of the source are checked where they are known.
pub fn validate_etl_script<F: Fn(String) -> Option<Real>>(
    script: &str,
    source_columns: Option<Vec<String>>,
    read: &F,
) -> (r: ScriptCheck)
    requires
        is_reader(*read),
    ensures
        match parse_spec(script@, reading(*read)) {
            Err(e) => !r.ok && r.statement_count == 0 && issues_view(r.issues@) == seq![e],
            Ok(s) => {
                &&& r.statement_count == s.works.len()
                &&& issues_view(r.issues@) == script_issues(
                    s,
                    match source_columns {
                        Some(c) => Some(text::views(c@)),
                        None => None,
                    },
                )
                &&& r.ok == (r.issues@.len() == 0)
            },
        },
{
    let parsed: Script = match parse(script, read) {
        Ok(s) => s,
        Err(e) => {
            let mut issues: Vec<ScriptIssue> = Vec::new();
            issues.push(e);
            assert(issues_view(issues@) =~= seq![e@]);
            return ScriptCheck { ok: false, statement_count: 0, issues };
        },
    };
    let mut issues: Vec<ScriptIssue> = check_actions(&parsed.works);
    let ghost all = works_view(parsed.works@);
    let ghost start = issues_view(issues@);
    match &source_columns {
        None => {
            assert(start + Seq::<IssueView>::empty() =~= start);
        },
        Some(columns) => {
            let ghost cols = text::views(columns@);
            let mut i: usize = 0;
            assert(start + all_column_issues(all.take(0), cols) =~= start);
            while i < parsed.works.len()
                invariant
                    i <= parsed.works@.len(),
                    all == works_view(parsed.works@),
                    cols == text::views(columns@),
                    issues_view(issues@) == start + all_column_issues(all.take(i as int), cols),
                decreases parsed.works@.len() - i,
            {
                proof {
                    assert(all.take(i + 1).drop_last() =~= all.take(i as int));
                    let w = all[i as int];
                    let more = column_issues(work_refs(w), text::lower(w.from.alias), cols);
                    let before = all_column_issues(all.take(i as int), cols);
                    assert((start + before) + more =~= start + (before + more));
                }
                check_columns(&mut issues, &parsed.works[i], columns);
                i += 1;
            }
            assert(all.take(i as int) =~= all);
        },
    }
    ScriptCheck { ok: issues.len() == 0, statement_count: parsed.works.len(), issues }
}

/// A job is an issue exactly where one of its ADD or UPDATE branches assigns nothing,
/// and the issue stands on the line of the job.
pub proof fn law_empty_jobs_are_issues(works: Seq<WorkView>)
    ensures
        empty_issues(works).len() == 0 <==> forall|i: int|
            0 <= i < works.len() ==> !has_empty_action(#[trigger] works[i]),
        forall|k: int|
            0 <= k < empty_issues(works).len() ==> stands_on_a_job(
                works,
                #[trigger] empty_issues(works)[k],
            ),
    decreases works.len(),
{
    if works.len() > 0 {
        let front = works.drop_last();
        let last = works.len() - 1;
        law_empty_jobs_are_issues(front);
        assert(works[last] == works.last());
        let before = empty_issues(front);
        let all = empty_issues(works);
        if all.len() == 0 {
            assert forall|i: int| 0 <= i < works.len() implies !has_empty_action(
                #[trigger] works[i],
            ) by {
                if i < last {
                    assert(front[i] == works[i]);
                }
            }
        } else if before.len() > 0 {
            let i = choose|i: int| 0 <= i < front.len() && has_empty_action(#[trigger] front[i]);
            assert(has_empty_action(works[i]));
        } else {
            assert(has_empty_action(works[last]));
        }
        assert forall|k: int| 0 <= k < all.len() implies stands_on_a_job(
            works,
            #[trigger] all[k],
        ) by {
            if k < before.len() {
                assert(all[k] == before[k]);
                assert(stands_on_a_job(front, before[k]));
                let i = choose|i: int|
                    0 <= i < front.len() && (#[trigger] front[i]).line == before[k].line
                        && has_empty_action(front[i]);
                assert(works[i] == front[i]);
            } else {
                assert(works[last].line == all[k].line);
            }
        }
    }
}

/// The issue stands on the line of a job that has an empty branch.
pub open spec fn stands_on_a_job(works: Seq<WorkView>, x: IssueView) -> bool {
    exists|i: int|
        0 <= i < works.len() && (#[trigger] works[i]).line == x.line && has_empty_action(works[i])
}

/// A reference to a column of the main source is an issue exactly where the source has
/// no such column, and the issue stands on its line.
pub proof fn law_unknown_columns_are_issues(
    refs: Seq<ColRefView>,
    alias: Seq<char>,
    columns: Seq<Seq<char>>,
)
    ensures
        column_issues(refs, alias, columns).len() == 0 <==> forall|i: int|
            0 <= i < refs.len() && text::lower((#[trigger] refs[i]).alias) == alias ==> known_column(
                columns,
                refs[i].column,
            ),
        forall|k: int|
            0 <= k < column_issues(refs, alias, columns).len() ==> stands_on_a_reference(
                refs,
                alias,
                columns,
                #[trigger] column_issues(refs, alias, columns)[k],
            ),
    decreases refs.len(),
{
    if refs.len() > 0 {
        let front = refs.drop_last();
        let last = refs.len() - 1;
        law_unknown_columns_are_issues(front, alias, columns);
        assert(refs[last] == refs.last());
        let before = column_issues(front, alias, columns);
        let all = column_issues(refs, alias, columns);
        if all.len() == 0 {
            assert forall|i: int|
                0 <= i < refs.len() && text::lower(
                    (#[trigger] refs[i]).alias,
                ) == alias implies known_column(columns, refs[i].column) by {
                if i < last {
                    assert(front[i] == refs[i]);
                }
            }
        } else if before.len() > 0 {
            let i = choose|i: int|
                0 <= i < front.len() && text::lower((#[trigger] front[i]).alias) == alias
                    && !known_column(columns, front[i].column);
            assert(refs[i] == front[i]);
        } else {
            assert(!known_column(columns, refs[last].column));
        }
        assert forall|k: int| 0 <= k < all.len() implies stands_on_a_reference(
            refs,
            alias,
            columns,
            #[trigger] all[k],
        ) by {
            if k < before.len() {
                assert(all[k] == before[k]);
                assert(stands_on_a_reference(front, alias, columns, before[k]));
                let i = choose|i: int|
                    0 <= i < front.len() && (#[trigger] front[i]).line == before[k].line
                        && text::lower(front[i].alias) == alias && !known_column(
                        columns,
                        front[i].column,
                    );
                assert(refs[i] == front[i]);
            } else {
                assert(refs[last].line == all[k].line);
            }
        }
    }
}

/// The issue stands on the line of a reference to a column that the source lacks.
pub open spec fn stands_on_a_reference(
    refs: Seq<ColRefView>,
    alias: Seq<char>,
    columns: Seq<Seq<char>>,
    x: IssueView,
) -> bool {
    exists|i: int|
        0 <= i < refs.len() && (#[trigger] refs[i]).line == x.line && text::lower(refs[i].alias)
            == alias && !known_column(columns, refs[i].column)
}

/// A script that parses has no issue exactly where no job has an empty branch and, where
/// the columns of the source are known, every job reads only those.
pub proof fn law_scripts_without_issues(s: ScriptView, columns: Option<Seq<Seq<char>>>)
    ensures
        script_issues(s, columns).len() == 0 <==> (forall|i: int|
            0 <= i < s.works.len() ==> !has_empty_action(#[trigger] s.works[i])) && (
        columns matches Some(c) ==> forall|i: int|
            0 <= i < s.works.len() ==> column_issues(
                work_refs(#[trigger] s.works[i]),
                text::lower(s.works[i].from.alias),
                c,
            ).len() == 0),
{
    law_empty_jobs_are_issues(s.works);
    if let Some(c) = columns {
        lemma_all_columns(s.works, c);
    }
}

proof fn lemma_all_columns(works: Seq<WorkView>, columns: Seq<Seq<char>>)
    ensures
        all_column_issues(works, columns).len() == 0 <==> forall|i: int|
            0 <= i < works.len() ==> column_issues(
                work_refs(#[trigger] works[i]),
                text::lower(works[i].from.alias),
                columns,
            ).len() == 0,
    decreases works.len(),
{
    if works.len() > 0 {
        let front = works.drop_last();
        let last = works.len() - 1;
        lemma_all_columns(front, columns);
        assert(works[last] == works.last());
        if all_column_issues(works, columns).len() == 0 {
            assert forall|i: int| 0 <= i < works.len() implies column_issues(
                work_refs(#[trigger] works[i]),
                text::lower(works[i].from.alias),
                columns,
            ).len() == 0 by {
                if i < last {
                    assert(front[i] == works[i]);
                }
            }
        } else if all_column_issues(front, columns).len() > 0 {
            let i = choose|i: int|
                0 <= i < front.len() && column_issues(
                    work_refs(#[trigger] front[i]),
                    text::lower(front[i].from.alias),
                    columns,
                ).len() != 0;
            assert(works[i] == front[i]);
        } else {
            assert(column_issues(
                work_refs(works[last]),
                text::lower(works[last].from.alias),
                columns,
            ).len() > 0);
        }
    }
}

} // verus!
