//! Clauses, jobs, the script header and whole scripts.
use crate::etl::script::ast::{
    CondView, Condition, Expr, ExprView,
};
use crate::text;
use vstd::prelude::*;

verus! {

/// `column = value` of a write action.
#[derive(Debug, Clone, PartialEq)]
pub struct Assignment {
    pub target_column: String,
    pub value: Expr,
    pub line: usize,
}

#[verifier::ext_equal]
pub struct AssignmentView {
    pub target_column: Seq<char>,
    pub value: ExprView,
    pub line: usize,
}

impl View for Assignment {
    type V = AssignmentView;

    open spec fn view(&self) -> AssignmentView {
        AssignmentView { target_column: self.target_column@, value: self.value@, line: self.line }
    }
}

pub open spec fn assignments_view(v: Seq<Assignment>) -> Seq<AssignmentView> {
    Seq::new(v.len(), |i: int| v[i]@)
}

/// Which side a FROM, JOIN or INTO names.
#[derive(Debug, Clone, Copy, PartialEq, Eq, Structural)]
pub enum ConnRef {
    Source,
    Target,
}

impl ConnRef {
    /// The keyword of the side.
    pub fn label(&self) -> (r: &'static str)
        ensures
            r@ == (match *self {
                ConnRef::Source => "SOURCE"@,
                ConnRef::Target => "TARGET"@,
            }),
    {
        match self {
            ConnRef::Source => "SOURCE",
            ConnRef::Target => "TARGET",
        }
    }
}

/// An alias binding: `<alias> = <conn>.[…]` of FROM or JOIN.
#[derive(Debug, Clone, PartialEq)]
pub struct Binding {
    pub alias: String,
    pub conn: ConnRef,
    /// The segments of the table path; a file source may have none.
    pub table: Vec<String>,
    pub line: usize,
}

#[verifier::ext_equal]
pub struct BindingView {
    pub alias: Seq<char>,
    pub conn: ConnRef,
    pub table: Seq<Seq<char>>,
    pub line: usize,
}

impl View for Binding {
    type V = BindingView;

    open spec fn view(&self) -> BindingView {
        BindingView {
            alias: self.alias@,
            conn: self.conn,
            table: text::views(self.table@),
            line: self.line,
        }
    }
}

/// What happens to a row whose lookup finds nothing.
#[derive(Debug, Clone, Copy, PartialEq, Eq, Structural)]
pub enum JoinPolicy {
    /// The row goes to the error report.
    Inner,
    /// The looked-up columns are NULL.
    Left,
}

/// A lookup: `JOIN <alias> = <conn>.[…] ON (<condition>)`.
#[derive(Debug, Clone, PartialEq)]
pub struct Join {
    pub binding: Binding,
    pub on: Condition,
    pub policy: JoinPolicy,
}

#[verifier::ext_equal]
pub struct JoinView {
    pub binding: BindingView,
    pub on: CondView,
    pub policy: JoinPolicy,
}

impl View for Join {
    type V = JoinView;

    open spec fn view(&self) -> JoinView {
        JoinView { binding: self.binding@, on: self.on@, policy: self.policy }
    }
}

pub open spec fn joins_view(v: Seq<Join>) -> Seq<JoinView> {
    Seq::new(v.len(), |i: int| v[i]@)
}

/// The write target: `INTO [<alias> =] <conn>.[…]`.
#[derive(Debug, Clone, PartialEq)]
pub struct IntoClause {
    pub conn: ConnRef,
    pub table: Vec<String>,
    pub alias: Option<String>,
    pub line: usize,
}

#[verifier::ext_equal]
pub struct IntoView {
    pub conn: ConnRef,
    pub table: Seq<Seq<char>>,
    pub alias: Option<Seq<char>>,
    pub line: usize,
}

impl View for IntoClause {
    type V = IntoView;

    open spec fn view(&self) -> IntoView {
        IntoView {
            conn: self.conn,
            table: text::views(self.table@),
            alias: text::opt_view(self.alias),
            line: self.line,
        }
    }
}

/// A write action.
#[derive(Debug, Clone, PartialEq)]
pub enum Action {
    Add(Vec<Assignment>),
    Update(Vec<Assignment>),
    Skip,
    Delete,
}

#[verifier::ext_equal]
pub enum ActionView {
    Add(Seq<AssignmentView>),
    Update(Seq<AssignmentView>),
    Skip,
    Delete,
}

impl View for Action {
    type V = ActionView;

    open spec fn view(&self) -> ActionView {
        match self {
            Action::Add(v) => ActionView::Add(assignments_view(v@)),
            Action::Update(v) => ActionView::Update(assignments_view(v@)),
            Action::Skip => ActionView::Skip,
            Action::Delete => ActionView::Delete,
        }
    }
}

pub open spec fn opt_action(a: Option<Action>) -> Option<ActionView> {
    match a {
        Some(x) => Some(x@),
        None => None,
    }
}

/// The assignments of an action; SKIP and DELETE have none.
pub open spec fn action_assignments(a: ActionView) -> Seq<AssignmentView> {
    match a {
        ActionView::Add(v) => v,
        ActionView::Update(v) => v,
        ActionView::Skip => seq![],
        ActionView::Delete => seq![],
    }
}

impl Action {
    /// The keyword of the action.
    pub fn keyword(&self) -> (r: &'static str)
        ensures
            r@ == (match self@ {
                ActionView::Add(_) => "ADD"@,
                ActionView::Update(_) => "UPDATE"@,
                ActionView::Skip => "SKIP"@,
                ActionView::Delete => "DELETE"@,
            }),
    {
        match self {
            Action::Add(_) => "ADD",
            Action::Update(_) => "UPDATE",
            Action::Skip => "SKIP",
            Action::Delete => "DELETE",
        }
    }

    /// The assignments of the action; SKIP and DELETE have none.
    pub fn assignments(&self) -> (r: &[Assignment])
        ensures
            assignments_view(r@) == action_assignments(self@),
    {
        match self {
            Action::Add(a) => a.as_slice(),
            Action::Update(a) => a.as_slice(),
            _ => {
                let none: &[Assignment] = &[];
                assert(assignments_view(none@) =~= seq![]);
                none
            },
        }
    }
}

/// A merge: the top-level `ON (<condition>)` and its branches.
#[derive(Debug, Clone, PartialEq)]
pub struct Merge {
    pub on: Condition,
    pub matched: Option<Action>,
    pub not_matched: Option<Action>,
}

#[verifier::ext_equal]
pub struct MergeView {
    pub on: CondView,
    pub matched: Option<ActionView>,
    pub not_matched: Option<ActionView>,
}

impl View for Merge {
    type V = MergeView;

    open spec fn view(&self) -> MergeView {
        MergeView {
            on: self.on@,
            matched: opt_action(self.matched),
            not_matched: opt_action(self.not_matched),
        }
    }
}

pub open spec fn opt_merge(m: Option<Merge>) -> Option<MergeView> {
    match m {
        Some(x) => Some(x@),
        None => None,
    }
}

pub open spec fn opt_cond(c: Option<Condition>) -> Option<CondView> {
    match c {
        Some(x) => Some(x@),
        None => None,
    }
}

/// One job: a `WORK '<name>' { … }` block, or a bare statement brought into the same form.
#[derive(Debug, Clone, PartialEq)]
pub struct Work {
    pub name: Option<String>,
    /// The main source, one row after the other.
    pub from: Binding,
    pub joins: Vec<Join>,
    pub where_: Option<Condition>,
    pub into: IntoClause,
    /// The merge; without one `action` is a plain append.
    pub merge: Option<Merge>,
    pub action: Option<Action>,
    pub line: usize,
}

#[verifier::ext_equal]
pub struct WorkView {
    pub name: Option<Seq<char>>,
    pub from: BindingView,
    pub joins: Seq<JoinView>,
    pub where_: Option<CondView>,
    pub into: IntoView,
    pub merge: Option<MergeView>,
    pub action: Option<ActionView>,
    pub line: usize,
}

impl View for Work {
    type V = WorkView;

    open spec fn view(&self) -> WorkView {
        WorkView {
            name: text::opt_view(self.name),
            from: self.from@,
            joins: joins_view(self.joins@),
            where_: opt_cond(self.where_),
            into: self.into@,
            merge: opt_merge(self.merge),
            action: opt_action(self.action),
            line: self.line,
        }
    }
}

pub open spec fn works_view(v: Seq<Work>) -> Seq<WorkView> {
    Seq::new(v.len(), |i: int| v[i]@)
}

pub open spec fn borrowed_bindings(v: Seq<&Binding>) -> Seq<BindingView> {
    Seq::new(v.len(), |i: int| v[i]@)
}

pub open spec fn borrowed_actions(v: Seq<&Action>) -> Seq<ActionView> {
    Seq::new(v.len(), |i: int| v[i]@)
}

/// The bindings that rows are read from: FROM, then each JOIN.
pub open spec fn source_bindings(w: WorkView) -> Seq<BindingView> {
    seq![w.from] + Seq::new(w.joins.len(), |i: int| w.joins[i].binding)
}

pub open spec fn opt_seq<A>(x: Option<A>) -> Seq<A> {
    match x {
        Some(a) => seq![a],
        None => seq![],
    }
}

/// The write actions of a job: the plain one, then the merge branches.
pub open spec fn work_actions(w: WorkView) -> Seq<ActionView> {
    opt_seq(w.action) + (match w.merge {
        Some(m) => opt_seq(m.matched) + opt_seq(m.not_matched),
        None => seq![],
    })
}

impl Work {
    /// The bindings that rows are read from: FROM, then each JOIN.
    pub fn source_bindings(&self) -> (r: Vec<&Binding>)
        ensures
            borrowed_bindings(r@) == source_bindings(self@),
    {
        let mut v: Vec<&Binding> = Vec::new();
        v.push(&self.from);
        let mut i: usize = 0;
        while i < self.joins.len()
            invariant
                i <= self.joins@.len(),
                v@.len() == i + 1,
                v@[0]@ == self.from@,
                forall|j: int| 0 <= j < i ==> #[trigger] v@[j + 1]@ == self.joins@[j].binding@,
            decreases self.joins@.len() - i,
        {
            v.push(&self.joins[i].binding);
            i += 1;
        }
        proof {
            assert forall|j: int| 0 <= j < v@.len() implies #[trigger] borrowed_bindings(v@)[j]
                == source_bindings(self@)[j] by {
                if j > 0 {
                    assert(v@[(j - 1) + 1]@ == self.joins@[j - 1].binding@);
                }
            }
            assert(borrowed_bindings(v@) =~= source_bindings(self@));
        }
        v
    }

    /// The write actions of the job: the plain one, then the merge branches.
    pub fn actions(&self) -> (r: Vec<&Action>)
        ensures
            borrowed_actions(r@) == work_actions(self@),
    {
        let mut v: Vec<&Action> = Vec::new();
        if let Some(a) = &self.action {
            v.push(a);
        }
        if let Some(m) = &self.merge {
            if let Some(a) = &m.matched {
                v.push(a);
            }
            if let Some(a) = &m.not_matched {
                v.push(a);
            }
        }
        assert(borrowed_actions(v@) =~= work_actions(self@));
        v
    }
}

/// The SOURCE declaration: file parameters, or a stored connection by name.
#[derive(Debug, Clone, PartialEq)]
pub enum SourceDecl {
    File(FileSource),
    Connection(ConnectionSource),
}

/// A stored connection as source; a database one reads a table or a query.
#[derive(Debug, Clone, PartialEq)]
pub struct ConnectionSource {
    pub name: String,
    pub table: Option<String>,
    pub query: Option<String>,
}

#[derive(Debug, Clone, PartialEq)]
pub struct FileSource {
    pub path: String,
    pub sheet: Option<String>,
    pub encoding: Option<String>,
    pub has_header: Option<bool>,
}

#[verifier::ext_equal]
pub struct ConnectionSourceView {
    pub name: Seq<char>,
    pub table: Option<Seq<char>>,
    pub query: Option<Seq<char>>,
}

#[verifier::ext_equal]
pub struct FileSourceView {
    pub path: Seq<char>,
    pub sheet: Option<Seq<char>>,
    pub encoding: Option<Seq<char>>,
    pub has_header: Option<bool>,
}

#[verifier::ext_equal]
pub enum SourceDeclView {
    File(FileSourceView),
    Connection(ConnectionSourceView),
}

impl View for ConnectionSource {
    type V = ConnectionSourceView;

    open spec fn view(&self) -> ConnectionSourceView {
        ConnectionSourceView {
            name: self.name@,
            table: text::opt_view(self.table),
            query: text::opt_view(self.query),
        }
    }
}

impl View for FileSource {
    type V = FileSourceView;

    open spec fn view(&self) -> FileSourceView {
        FileSourceView {
            path: self.path@,
            sheet: text::opt_view(self.sheet),
            encoding: text::opt_view(self.encoding),
            has_header: self.has_header,
        }
    }
}

impl View for SourceDecl {
    type V = SourceDeclView;

    open spec fn view(&self) -> SourceDeclView {
        match self {
            SourceDecl::File(f) => SourceDeclView::File(f@),
            SourceDecl::Connection(c) => SourceDeclView::Connection(c@),
        }
    }
}

/// The script header. A target is only ever the name of a stored connection,
/// so that no script file holds a password.
#[derive(Debug, Clone, PartialEq)]
pub struct ScriptHeader {
    pub source: Option<SourceDecl>,
    pub target_connection: Option<String>,
}

#[verifier::ext_equal]
pub struct HeaderView {
    pub source: Option<SourceDeclView>,
    pub target_connection: Option<Seq<char>>,
}

impl View for ScriptHeader {
    type V = HeaderView;

    open spec fn view(&self) -> HeaderView {
        HeaderView {
            source: match self.source {
                Some(s) => Some(s@),
                None => None,
            },
            target_connection: text::opt_view(self.target_connection),
        }
    }
}

/// A whole script.
#[derive(Debug, Clone, PartialEq)]
pub struct Script {
    pub header: ScriptHeader,
    pub works: Vec<Work>,
}

#[verifier::ext_equal]
pub struct ScriptView {
    pub header: HeaderView,
    pub works: Seq<WorkView>,
}

impl View for Script {
    type V = ScriptView;

    open spec fn view(&self) -> ScriptView {
        ScriptView { header: self.header@, works: works_view(self.works@) }
    }
}

/// A parse or validation error at a line of the script.
#[derive(Debug, Clone, PartialEq)]
pub struct ScriptIssue {
    pub line: usize,
    pub message: String,
}

#[verifier::ext_equal]
pub struct IssueView {
    pub line: usize,
    pub message: Seq<char>,
}

impl View for ScriptIssue {
    type V = IssueView;

    open spec fn view(&self) -> IssueView {
        IssueView { line: self.line, message: self.message@ }
    }
}

/// An error at a line.
pub open spec fn issue(line: usize, message: Seq<char>) -> IssueView {
    IssueView { line, message }
}

/// An error at a line.
pub(crate) fn err(line: usize, message: &str) -> (r: ScriptIssue)
    ensures
        r@ == issue(line, message@),
{
    ScriptIssue { line, message: message.to_string() }
}

/// A job reads from its main source first, behind it from its lookups, in their order.
pub proof fn law_sources_stand_in_order(w: WorkView, i: int)
    ensures
        source_bindings(w).len() == w.joins.len() + 1,
        source_bindings(w)[0] == w.from,
        0 <= i < w.joins.len() ==> source_bindings(w)[i + 1] == w.joins[i].binding,
{
}

/// The actions of a job are its plain one or those of its merge branches, MATCHED first;
/// only ADD and UPDATE assign anything.
pub proof fn law_actions_of_a_job(w: WorkView)
    ensures
        w.action matches Some(a) ==> work_actions(w).len() > 0 && work_actions(w)[0] == a,
        w.action is None && w.merge is None ==> work_actions(w).len() == 0,
        w.merge matches Some(m) ==> (m.matched matches Some(a) ==> work_actions(w).contains(a)),
        w.merge matches Some(m) ==> (m.not_matched matches Some(a) ==> work_actions(w).contains(a)),
        action_assignments(ActionView::Skip).len() == 0,
        action_assignments(ActionView::Delete).len() == 0,
{
    if let Some(m) = w.merge {
        let n = opt_seq(w.action).len() as int;
        if let Some(a) = m.matched {
            assert(work_actions(w)[n] == a);
        }
        if let Some(a) = m.not_matched {
            let k = n + opt_seq(m.matched).len();
            assert(work_actions(w)[k] == a);
        }
    }
}

} // verus!
