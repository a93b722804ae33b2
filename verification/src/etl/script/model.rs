//! Scripts as the visual editor shows them.
//!
//! Expressions come apart into kinds, conditions into their tests where these
//! are joined by AND alone; whatever is left is shown as script text.
use crate::double::{is_reader, reading, Real, RealView};
use crate::etl::script::ast::{
    cond_dsl, expr_dsl, flat_tests, gen_label, is_leaf, CondView, Condition, Expr, ExprView,
};
use crate::etl::script::clauses::{
    action_assignments, assignments_view, opt_action, Action, ActionView, Assignment,
    AssignmentView, Binding, BindingView, ConnectionSourceView, FileSourceView, IntoClause,
    IntoView, Join, JoinPolicy, JoinView, MergeView, Script, ScriptView, SourceDecl,
    SourceDeclView, Work, WorkView,
};
use crate::etl::script::jobs::parse_spec;
use crate::etl::script::plan::{etl_error, run_blocking_parse};
use crate::models::errors::EluEtlError;
use crate::text;
use vstd::prelude::*;

verus! {

/// A column: the path before its name, and the name.
#[derive(Debug, Clone, PartialEq)]
pub struct ColRefModel {
    pub prefix: Vec<String>,
    pub column: String,
}

/// An expression by its kind; a template is shown as script text.
#[derive(Debug, Clone, PartialEq)]
pub enum ExprModel {
    Col(ColRefModel),
    Text(String),
    Int(i64),
    Float(Real),
    Bool(bool),
    Null,
    /// The canonical name of a generator.
    Gen(String),
    Concat(String),
}

#[verifier::ext_equal]
pub enum ExprModelView {
    Col { prefix: Seq<Seq<char>>, column: Seq<char> },
    Text(Seq<char>),
    Int(i64),
    Float(RealView),
    Bool(bool),
    Null,
    Gen(Seq<char>),
    Concat(Seq<char>),
}

impl View for ExprModel {
    type V = ExprModelView;

    open spec fn view(&self) -> ExprModelView {
        match self {
            ExprModel::Col(r) => ExprModelView::Col {
                prefix: text::views(r.prefix@),
                column: r.column@,
            },
            ExprModel::Text(s) => ExprModelView::Text(s@),
            ExprModel::Int(v) => ExprModelView::Int(*v),
            ExprModel::Float(v) => ExprModelView::Float(v@),
            ExprModel::Bool(v) => ExprModelView::Bool(*v),
            ExprModel::Null => ExprModelView::Null,
            ExprModel::Gen(s) => ExprModelView::Gen(s@),
            ExprModel::Concat(s) => ExprModelView::Concat(s@),
        }
    }
}

/// How an expression is shown.
pub open spec fn expr_model(e: ExprView) -> ExprModelView {
    match e {
        ExprView::Col(r) => ExprModelView::Col { prefix: seq![r.alias], column: r.column },
        ExprView::Text(s) => ExprModelView::Text(s),
        ExprView::Int(v) => ExprModelView::Int(v),
        ExprView::Float(v) => ExprModelView::Float(v),
        ExprView::Bool(v) => ExprModelView::Bool(v),
        ExprView::Null => ExprModelView::Null,
        ExprView::Gen(k) => ExprModelView::Gen(gen_label(k)),
        ExprView::Concat(_) => ExprModelView::Concat(expr_dsl(e)),
    }
}

/// Shows an expression.
pub fn model_of_expr(e: Expr) -> (r: ExprModel)
    ensures
        r@ == expr_model(e@),
{
    match e {
        Expr::Col(c) => {
            let mut prefix: Vec<String> = Vec::new();
            prefix.push(c.alias);
            assert(text::views(prefix@) =~= seq![c.alias@]);
            ExprModel::Col(ColRefModel { prefix, column: c.column })
        },
        Expr::Text(s) => ExprModel::Text(s),
        Expr::Int(v) => ExprModel::Int(v),
        Expr::Float(v) => ExprModel::Float(v),
        Expr::Bool(v) => ExprModel::Bool(v),
        Expr::Null => ExprModel::Null,
        Expr::Gen(k) => ExprModel::Gen(k.label().to_string()),
        Expr::Concat(v) => {
            let whole: Expr = Expr::Concat(v);
            ExprModel::Concat(whole.to_dsl())
        },
    }
}

/// A condition: the script text of the whole, and of each test where it is one
/// test or tests joined by AND.
#[derive(Debug, Clone, PartialEq)]
pub struct ConditionModel {
    pub rows: Option<Vec<String>>,
    pub text: String,
}

#[verifier::ext_equal]
pub struct ConditionModelView {
    pub rows: Option<Seq<Seq<char>>>,
    pub text: Seq<char>,
}

impl View for ConditionModel {
    type V = ConditionModelView;

    open spec fn view(&self) -> ConditionModelView {
        ConditionModelView {
            rows: match self.rows {
                Some(v) => Some(text::views(v@)),
                None => None,
            },
            text: self.text@,
        }
    }
}

/// How a condition is shown.
pub open spec fn condition_model(c: CondView) -> ConditionModelView {
    ConditionModelView {
        rows: match flat_tests(c) {
            Some(v) => Some(Seq::new(v.len(), |i: int| cond_dsl(v[i], 0))),
            None => None,
        },
        text: cond_dsl(c, 0),
    }
}

/// Shows a condition.
pub fn model_of_condition(c: &Condition) -> (r: ConditionModel)
    ensures
        r@ == condition_model(c@),
{
    let rows: Option<Vec<String>> = match c.flat_rows() {
        Some(tests) => {
            let mut out: Vec<String> = Vec::new();
            let mut i: usize = 0;
            while i < tests.len()
                invariant
                    i <= tests@.len(),
                    out@.len() == i,
                    forall|j: int|
                        0 <= j < i ==> #[trigger] out@[j]@ == cond_dsl(tests@[j]@, 0),
                decreases tests@.len() - i,
            {
                out.push(tests[i].to_dsl());
                i += 1;
            }
            proof {
                let v = flat_tests(c@)->0;
                assert(text::views(out@) =~= Seq::new(v.len(), |j: int| cond_dsl(v[j], 0)));
            }
            Some(out)
        },
        None => None,
    };
    ConditionModel { rows, text: c.to_dsl() }
}

/// `column = value`.
#[derive(Debug, Clone, PartialEq)]
pub struct AssignmentModel {
    pub target_column: String,
    pub value: ExprModel,
}

#[verifier::ext_equal]
pub struct AssignmentModelView {
    pub target_column: Seq<char>,
    pub value: ExprModelView,
}

impl View for AssignmentModel {
    type V = AssignmentModelView;

    open spec fn view(&self) -> AssignmentModelView {
        AssignmentModelView { target_column: self.target_column@, value: self.value@ }
    }
}

pub open spec fn assignment_models(v: Seq<AssignmentModel>) -> Seq<AssignmentModelView> {
    Seq::new(v.len(), |i: int| v[i]@)
}

/// How an assignment is shown.
pub open spec fn assignment_model(a: AssignmentView) -> AssignmentModelView {
    AssignmentModelView { target_column: a.target_column, value: expr_model(a.value) }
}

/// A write action: its keyword and its assignments.
#[derive(Debug, Clone, PartialEq)]
pub struct ActionModel {
    pub keyword: &'static str,
    pub assignments: Vec<AssignmentModel>,
}

#[verifier::ext_equal]
pub struct ActionModelView {
    pub keyword: Seq<char>,
    pub assignments: Seq<AssignmentModelView>,
}

impl View for ActionModel {
    type V = ActionModelView;

    open spec fn view(&self) -> ActionModelView {
        ActionModelView {
            keyword: self.keyword@,
            assignments: assignment_models(self.assignments@),
        }
    }
}

/// How an action is shown.
pub open spec fn action_model(a: ActionView) -> ActionModelView {
    let v = action_assignments(a);
    ActionModelView {
        keyword: match a {
            ActionView::Add(_) => "ADD"@,
            ActionView::Update(_) => "UPDATE"@,
            ActionView::Skip => "SKIP"@,
            ActionView::Delete => "DELETE"@,
        },
        assignments: Seq::new(v.len(), |i: int| assignment_model(v[i])),
    }
}

/// Shows an action.
pub fn model_of_action(a: &Action) -> (r: ActionModel)
    ensures
        r@ == action_model(a@),
{
    let from: &[Assignment] = a.assignments();
    let mut out: Vec<AssignmentModel> = Vec::new();
    let mut i: usize = 0;
    while i < from.len()
        invariant
            i <= from@.len(),
            out@.len() == i,
            forall|j: int| 0 <= j < i ==> #[trigger] out@[j]@ == assignment_model(from@[j]@),
        decreases from@.len() - i,
    {
        out.push(
            AssignmentModel {
                target_column: from[i].target_column.clone(),
                value: model_of_expr(from[i].value.copy()),
            },
        );
        i += 1;
    }
    proof {
        let v = action_assignments(a@);
        assert forall|j: int| 0 <= j < v.len() implies v[j] == #[trigger] from@[j]@ by {
            assert(assignments_view(from@)[j] == from@[j]@);
        }
        assert(assignment_models(out@) =~= Seq::new(v.len(), |j: int| assignment_model(v[j])));
    }
    ActionModel { keyword: a.keyword(), assignments: out }
}

pub open spec fn opt_action_model(a: Option<ActionView>) -> Option<ActionModelView> {
    match a {
        Some(x) => Some(action_model(x)),
        None => None,
    }
}

pub open spec fn opt_action_view(a: Option<ActionModel>) -> Option<ActionModelView> {
    match a {
        Some(x) => Some(x@),
        None => None,
    }
}

fn model_of_opt_action(a: &Option<Action>) -> (r: Option<ActionModel>)
    ensures
        opt_action_view(r) == opt_action_model(opt_action(*a)),
{
    match a {
        Some(x) => Some(model_of_action(x)),
        None => None,
    }
}

/// A lookup: what it reads, on which key, and what a miss does.
#[derive(Debug, Clone, PartialEq)]
pub struct JoinModel {
    pub binding: Binding,
    pub on: ConditionModel,
    pub policy: JoinPolicy,
}

#[verifier::ext_equal]
pub struct JoinModelView {
    pub binding: BindingView,
    pub on: ConditionModelView,
    pub policy: JoinPolicy,
}

impl View for JoinModel {
    type V = JoinModelView;

    open spec fn view(&self) -> JoinModelView {
        JoinModelView { binding: self.binding@, on: self.on@, policy: self.policy }
    }
}

pub open spec fn join_models(v: Seq<JoinModel>) -> Seq<JoinModelView> {
    Seq::new(v.len(), |i: int| v[i]@)
}

/// How a lookup is shown.
pub open spec fn join_model(j: JoinView) -> JoinModelView {
    JoinModelView { binding: j.binding, on: condition_model(j.on), policy: j.policy }
}

/// A merge: its key and its branches.
#[derive(Debug, Clone, PartialEq)]
pub struct MergeModel {
    pub on: ConditionModel,
    pub matched: Option<ActionModel>,
    pub not_matched: Option<ActionModel>,
}

#[verifier::ext_equal]
pub struct MergeModelView {
    pub on: ConditionModelView,
    pub matched: Option<ActionModelView>,
    pub not_matched: Option<ActionModelView>,
}

impl View for MergeModel {
    type V = MergeModelView;

    open spec fn view(&self) -> MergeModelView {
        MergeModelView {
            on: self.on@,
            matched: opt_action_view(self.matched),
            not_matched: opt_action_view(self.not_matched),
        }
    }
}

/// How a merge is shown.
pub open spec fn merge_model(m: MergeView) -> MergeModelView {
    MergeModelView {
        on: condition_model(m.on),
        matched: opt_action_model(m.matched),
        not_matched: opt_action_model(m.not_matched),
    }
}

/// One job.
#[derive(Debug, Clone, PartialEq)]
pub struct WorkModel {
    pub name: Option<String>,
    pub from: Binding,
    pub joins: Vec<JoinModel>,
    pub where_: Option<ConditionModel>,
    pub into: IntoClause,
    pub merge: Option<MergeModel>,
    pub action: Option<ActionModel>,
}

#[verifier::ext_equal]
pub struct WorkModelView {
    pub name: Option<Seq<char>>,
    pub from: BindingView,
    pub joins: Seq<JoinModelView>,
    pub where_: Option<ConditionModelView>,
    pub into: IntoView,
    pub merge: Option<MergeModelView>,
    pub action: Option<ActionModelView>,
}

impl View for WorkModel {
    type V = WorkModelView;

    open spec fn view(&self) -> WorkModelView {
        WorkModelView {
            name: text::opt_view(self.name),
            from: self.from@,
            joins: join_models(self.joins@),
            where_: match self.where_ {
                Some(c) => Some(c@),
                None => None,
            },
            into: self.into@,
            merge: match self.merge {
                Some(m) => Some(m@),
                None => None,
            },
            action: opt_action_view(self.action),
        }
    }
}

/// How a job is shown.
pub open spec fn work_model(w: WorkView) -> WorkModelView {
    WorkModelView {
        name: w.name,
        from: w.from,
        joins: Seq::new(w.joins.len(), |i: int| join_model(w.joins[i])),
        where_: match w.where_ {
            Some(c) => Some(condition_model(c)),
            None => None,
        },
        into: w.into,
        merge: match w.merge {
            Some(m) => Some(merge_model(m)),
            None => None,
        },
        action: opt_action_model(w.action),
    }
}

fn model_of_joins(joins: Vec<Join>) -> (r: Vec<JoinModel>)
    ensures
        r@.len() == joins@.len(),
        forall|i: int| 0 <= i < joins@.len() ==> #[trigger] r@[i]@ == join_model(joins@[i]@),
{
    let mut out: Vec<JoinModel> = Vec::new();
    for j in it: joins
        invariant
            it.seq() == joins@,
            out@.len() == it.index(),
            forall|i: int| 0 <= i < it.index() ==> #[trigger] out@[i]@ == join_model(joins@[i]@),
    {
        let on: ConditionModel = model_of_condition(&j.on);
        out.push(JoinModel { binding: j.binding, on, policy: j.policy });
    }
    out
}

/// Shows a job.
pub fn model_of_work(w: Work) -> (r: WorkModel)
    ensures
        r@ == work_model(w@),
{
    let where_: Option<ConditionModel> = match &w.where_ {
        Some(c) => Some(model_of_condition(c)),
        None => None,
    };
    let merge: Option<MergeModel> = match &w.merge {
        Some(m) => Some(
            MergeModel {
                on: model_of_condition(&m.on),
                matched: model_of_opt_action(&m.matched),
                not_matched: model_of_opt_action(&m.not_matched),
            },
        ),
        None => None,
    };
    let action: Option<ActionModel> = model_of_opt_action(&w.action);
    let joins: Vec<JoinModel> = model_of_joins(w.joins);
    let r: WorkModel = WorkModel {
        name: w.name,
        from: w.from,
        joins,
        where_,
        into: w.into,
        merge,
        action,
    };
    assert(r@.joins =~= work_model(w@).joins);
    r
}

/// The declared source.
#[derive(Debug, Clone, PartialEq)]
pub enum SourceModel {
    File {
        path: String,
        sheet: Option<String>,
        encoding: Option<String>,
        has_header: Option<bool>,
    },
    Connection { name: String, table: Option<String>, query: Option<String> },
}

impl View for SourceModel {
    type V = SourceDeclView;

    open spec fn view(&self) -> SourceDeclView {
        match self {
            SourceModel::File { path, sheet, encoding, has_header } => SourceDeclView::File(
                FileSourceView {
                    path: path@,
                    sheet: text::opt_view(*sheet),
                    encoding: text::opt_view(*encoding),
                    has_header: *has_header,
                },
            ),
            SourceModel::Connection { name, table, query } => SourceDeclView::Connection(
                ConnectionSourceView {
                    name: name@,
                    table: text::opt_view(*table),
                    query: text::opt_view(*query),
                },
            ),
        }
    }
}

/// Shows the declared source.
pub fn model_of_source(s: SourceDecl) -> (r: SourceModel)
    ensures
        r@ == s@,
{
    match s {
        SourceDecl::File(f) => SourceModel::File {
            path: f.path,
            sheet: f.sheet,
            encoding: f.encoding,
            has_header: f.has_header,
        },
        SourceDecl::Connection(c) => SourceModel::Connection {
            name: c.name,
            table: c.table,
            query: c.query,
        },
    }
}

/// A whole script.
#[derive(Debug, Clone, PartialEq)]
pub struct ScriptModel {
    pub source: Option<SourceModel>,
    pub target_connection: Option<String>,
    pub works: Vec<WorkModel>,
}

#[verifier::ext_equal]
pub struct ScriptModelView {
    pub source: Option<SourceDeclView>,
    pub target_connection: Option<Seq<char>>,
    pub works: Seq<WorkModelView>,
}

impl View for ScriptModel {
    type V = ScriptModelView;

    open spec fn view(&self) -> ScriptModelView {
        ScriptModelView {
            source: match self.source {
                Some(s) => Some(s@),
                None => None,
            },
            target_connection: text::opt_view(self.target_connection),
            works: Seq::new(self.works@.len(), |i: int| self.works@[i]@),
        }
    }
}

/// How a script is shown: its header as it stands, and every job.
pub open spec fn script_model(s: ScriptView) -> ScriptModelView {
    ScriptModelView {
        source: s.header.source,
        target_connection: s.header.target_connection,
        works: Seq::new(s.works.len(), |i: int| work_model(s.works[i])),
    }
}

/// Shows a script.
pub fn model_of_script(s: Script) -> (r: ScriptModel)
    ensures
        r@ == script_model(s@),
{
    let all = s.works;
    let mut works: Vec<WorkModel> = Vec::new();
    for w in it: all
        invariant
            it.seq() == all@,
            works@.len() == it.index(),
            forall|i: int| 0 <= i < it.index() ==> #[trigger] works@[i]@ == work_model(all@[i]@),
    {
        works.push(model_of_work(w));
    }
    let source: Option<SourceModel> = match s.header.source {
        Some(d) => Some(model_of_source(d)),
        None => None,
    };
    let r: ScriptModel = ScriptModel {
        source,
        target_connection: s.header.target_connection,
        works,
    };
    assert(r@.works =~= script_model(s@).works);
    r
}

/// Parses a script for the visual editor.
pub fn parse_etl_script<F: Fn(String) -> Option<Real>>(script: &str, read: &F) -> (r: Result<
    ScriptModel,
    EluEtlError,
>)
    requires
        is_reader(*read),
    ensures
        match (r, parse_spec(script@, reading(*read))) {
            (Ok(m), Ok(s)) => m@ == script_model(s),
            (Err(e), Err(x)) => e@ == etl_error(x.line, x.message),
            _ => false,
        },
{
    let parsed: Script = run_blocking_parse(script, read)?;
    Ok(model_of_script(parsed))
}

/// The model of a script shows each job at its place, with its name, its tables, its
/// lookups in their order and how each deals with a miss, and its conditions as text.
pub proof fn law_models_show_the_jobs(s: ScriptView, i: int, j: int)
    requires
        0 <= i < s.works.len(),
        0 <= j < s.works[i].joins.len(),
    ensures
        script_model(s).works.len() == s.works.len(),
        script_model(s).source == s.header.source,
        script_model(s).target_connection == s.header.target_connection,
        ({
            let w = s.works[i];
            let m = script_model(s).works[i];
            &&& m.name == w.name
            &&& m.from == w.from
            &&& m.into == w.into
            &&& m.joins.len() == w.joins.len()
            &&& m.joins[j].binding == w.joins[j].binding
            &&& m.joins[j].policy == w.joins[j].policy
            &&& m.joins[j].on.text == cond_dsl(w.joins[j].on, 0)
            &&& m.where_ is Some <==> w.where_ is Some
            &&& m.where_ matches Some(c) ==> c.text == cond_dsl(w.where_->0, 0)
            &&& m.merge is Some <==> w.merge is Some
            &&& m.action is Some <==> w.action is Some
        }),
{
}

/// The branches of a merge stand on their side, and each action shows its word and one
/// line for each assignment, in order.
pub proof fn law_models_show_the_actions(m: MergeView, a: ActionView, i: int)
    ensures
        merge_model(m).matched is Some <==> m.matched is Some,
        merge_model(m).not_matched is Some <==> m.not_matched is Some,
        m.matched matches Some(x) ==> merge_model(m).matched == Some(action_model(x)),
        m.not_matched matches Some(x) ==> merge_model(m).not_matched == Some(action_model(x)),
        action_model(a).assignments.len() == action_assignments(a).len(),
        0 <= i < action_assignments(a).len() ==> action_model(a).assignments[i].target_column
            == action_assignments(a)[i].target_column,
        a is Add ==> action_model(a).keyword == "ADD"@,
        a is Update ==> action_model(a).keyword == "UPDATE"@,
        a is Skip ==> action_model(a).keyword == "SKIP"@,
        a is Delete ==> action_model(a).keyword == "DELETE"@,
{
}

/// A condition is shown line by line exactly where it is one test or several joined by
/// AND; each line is the text of its test.
pub proof fn law_flat_conditions_are_shown_by_line(c: CondView, i: int)
    ensures
        condition_model(c).text == cond_dsl(c, 0),
        c is Or || c is Not ==> condition_model(c).rows is None,
        is_leaf(c) ==> condition_model(c).rows == Some(seq![cond_dsl(c, 0)]),
        c matches CondView::And(v) ==> (condition_model(c).rows is Some <==> forall|k: int|
            0 <= k < v.len() ==> is_leaf(#[trigger] v[k])),
        c matches CondView::And(v) ==> (condition_model(c).rows matches Some(rows) ==> rows.len()
            == v.len() && (0 <= i < v.len() ==> rows[i] == cond_dsl(v[i], 0))),
{
    if is_leaf(c) {
        let v = seq![c];
        assert(Seq::new(v.len(), |k: int| cond_dsl(v[k], 0)) =~= seq![cond_dsl(c, 0)]);
    }
}

/// A shown expression keeps its value: different literals are shown differently, a column is
/// shown under its alias, and only what is put together is shown as text of the script.
pub proof fn law_models_show_the_values(a: ExprView, b: ExprView)
    ensures
        a is Text || a is Int || a is Float || a is Bool || a is Null ==> (expr_model(a)
            == expr_model(b) <==> a == b),
        a matches ExprView::Col(r) ==> (expr_model(a) matches ExprModelView::Col { prefix, column }
            && prefix == seq![r.alias] && column == r.column),
        a is Concat <==> expr_model(a) is Concat,
        a is Gen <==> expr_model(a) is Gen,
{
}

} // verus!
