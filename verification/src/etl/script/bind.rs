//! Binding of expressions and conditions to the columns of a run.
use crate::double::RealView;
use crate::etl::script::ast::{
    conds_view, exprs_view, lemma_conds_index, lemma_exprs_index, ColRef, ColRefView,
    CondView, Condition, Expr, ExprView,
};
use crate::etl::script::eval::{
    binds_view, lemma_binds_push, lemma_plans_push, plans_view, BindView, CondPlan, PlanView,
    ValBind,
};
use crate::models::errors::{at_line, line_message, EluEtlError, ErrorView};
use crate::models::value::{CellValue, CellView};
use crate::text;
use vstd::hash_map::StringHashMap;
use vstd::prelude::*;

verus! {

/// The place of each name, in lower case; of equal names the last one counts.
pub open spec fn places(names: Seq<Seq<char>>) -> Map<Seq<char>, usize>
    decreases names.len(),
{
    if names.len() == 0 {
        Map::empty()
    } else {
        places(names.drop_last()).insert(
            text::lower(names.last()),
            (names.len() - 1) as usize,
        )
    }
}

/// The place of each name.
pub fn index_names(names: &Vec<String>) -> (r: StringHashMap<usize>)
    ensures
        r@ == places(text::views(names@)),
{
    let mut m: StringHashMap<usize> = StringHashMap::new();
    let ghost all = text::views(names@);
    let mut i: usize = 0;
    assert(m@ =~= places(all.take(0)));
    while i < names.len()
        invariant
            i <= names@.len(),
            all == text::views(names@),
            m@ == places(all.take(i as int)),
        decreases names@.len() - i,
    {
        assert(all.take(i + 1).drop_last() =~= all.take(i as int));
        m.insert(text::to_lower(names[i].as_str()), i);
        i += 1;
    }
    assert(all.take(i as int) =~= all);
    m
}

/// A lookup as expressions see it: its alias, and where its columns are.
pub struct JoinMeta {
    pub alias_lower: String,
    pub col_pos: StringHashMap<usize>,
}

#[verifier::ext_equal]
pub struct JoinMetaView {
    pub alias_lower: Seq<char>,
    pub col_pos: Map<Seq<char>, usize>,
}

impl View for JoinMeta {
    type V = JoinMetaView;

    open spec fn view(&self) -> JoinMetaView {
        JoinMetaView { alias_lower: self.alias_lower@, col_pos: self.col_pos@ }
    }
}

pub open spec fn metas_view(v: Seq<JoinMeta>) -> Seq<JoinMetaView> {
    Seq::new(v.len(), |i: int| v[i]@)
}

/// What aliases and columns mean: the main source, and the lookups so far.
pub struct BindCtx<'a> {
    pub from_alias: &'a str,
    pub col_index: &'a StringHashMap<usize>,
    pub header: &'a Vec<String>,
    pub joins: &'a Vec<JoinMeta>,
}

#[verifier::ext_equal]
pub struct BindCtxView {
    pub from_alias: Seq<char>,
    pub col_index: Map<Seq<char>, usize>,
    pub header: Seq<Seq<char>>,
    pub joins: Seq<JoinMetaView>,
}

impl<'a> View for BindCtx<'a> {
    type V = BindCtxView;

    open spec fn view(&self) -> BindCtxView {
        BindCtxView {
            from_alias: self.from_alias@,
            col_index: self.col_index@,
            header: text::views(self.header@),
            joins: metas_view(self.joins@),
        }
    }
}

/// The first lookup of that alias.
pub open spec fn join_named(v: Seq<JoinMetaView>, alias: Seq<char>, from: int) -> Option<int>
    decreases v.len() - from,
{
    if from >= v.len() || from < 0 {
        None
    } else if v[from].alias_lower == alias {
        Some(from)
    } else {
        join_named(v, alias, from + 1)
    }
}

/// Where a column is found.
pub open spec fn bind_col(r: ColRefView, ctx: BindCtxView) -> Result<BindView, ErrorView> {
    let alias = text::lower(r.alias);
    let column = text::lower(r.column);
    if alias == ctx.from_alias {
        if ctx.col_index.contains_key(column) {
            Ok(BindView::Source(ctx.col_index[column]))
        } else {
            Err(
                ErrorView::Etl(
                    line_message(
                        r.line,
                        "來源沒有欄位 "@ + r.column + "（可用欄位："@ + text::join_seq(
                            ctx.header,
                            ", "@,
                        ) + "）"@,
                    ),
                ),
            )
        }
    } else {
        match join_named(ctx.joins, alias, 0) {
            Some(j) => if ctx.joins[j].col_pos.contains_key(column) {
                Ok(BindView::Join(j as usize, ctx.joins[j].col_pos[column]))
            } else {
                Err(
                    ErrorView::Etl(
                        line_message(
                            r.line,
                            "查表 ["@ + r.alias + "] 沒有欄位 "@ + r.column,
                        ),
                    ),
                )
            },
            None => Err(
                ErrorView::Etl(
                    line_message(
                        r.line,
                        "別名 ["@ + r.alias + "] 未對應到主來源或任何查表"@,
                    ),
                ),
            ),
        }
    }
}

/// Where the value of an expression comes from.
pub open spec fn bind(e: ExprView, ctx: BindCtxView) -> Result<BindView, ErrorView>
    decreases e,
{
    match e {
        ExprView::Text(s) => Ok(BindView::Const(CellView::Text(s))),
        ExprView::Int(v) => Ok(BindView::Const(CellView::Int(v))),
        ExprView::Float(v) => Ok(BindView::Const(CellView::Float(v))),
        ExprView::Bool(v) => Ok(BindView::Const(CellView::Bool(v))),
        ExprView::Null => Ok(BindView::Const(CellView::Null)),
        ExprView::Gen(k) => Ok(BindView::Gen(k)),
        ExprView::Concat(parts) => match bind_exprs(parts, ctx) {
            Ok(v) => Ok(BindView::Concat(v)),
            Err(x) => Err(x),
        },
        ExprView::Col(r) => bind_col(r, ctx),
    }
}

/// Where the values of some expressions come from, or the first error.
pub open spec fn bind_exprs(v: Seq<ExprView>, ctx: BindCtxView) -> Result<Seq<BindView>, ErrorView>
    decreases v,
{
    if v.len() == 0 {
        Ok(seq![])
    } else {
        match bind_exprs(v.drop_last(), ctx) {
            Err(x) => Err(x),
            Ok(rest) => match bind(v.last(), ctx) {
                Ok(b) => Ok(rest.push(b)),
                Err(x) => Err(x),
            },
        }
    }
}

/// The plan of a condition.
pub open spec fn bind_cond(c: CondView, ctx: BindCtxView) -> Result<PlanView, ErrorView>
    decreases c,
{
    match c {
        CondView::And(v) => match bind_conds(v, ctx) {
            Ok(p) => Ok(PlanView::And(p)),
            Err(x) => Err(x),
        },
        CondView::Or(v) => match bind_conds(v, ctx) {
            Ok(p) => Ok(PlanView::Or(p)),
            Err(x) => Err(x),
        },
        CondView::Not(b) => match bind_cond(*b, ctx) {
            Ok(p) => Ok(PlanView::Not(Box::new(p))),
            Err(x) => Err(x),
        },
        CondView::Compare(x) => match bind(x.left, ctx) {
            Err(e) => Err(e),
            Ok(l) => match bind(x.right, ctx) {
                Err(e) => Err(e),
                Ok(r) => Ok(PlanView::Compare(l, x.op, r)),
            },
        },
        CondView::IsEmpty(x) => match bind(x.expr, ctx) {
            Err(e) => Err(e),
            Ok(b) => Ok(PlanView::IsEmpty(b, x.negated)),
        },
        CondView::In { expr, list, negated, .. } => match bind(expr, ctx) {
            Err(e) => Err(e),
            Ok(b) => match bind_exprs(list, ctx) {
                Err(e) => Err(e),
                Ok(v) => Ok(PlanView::In(b, v, negated)),
            },
        },
        CondView::Like { expr, pattern, negated, .. } => match bind(expr, ctx) {
            Err(e) => Err(e),
            Ok(b) => match bind(pattern, ctx) {
                Err(e) => Err(e),
                Ok(p) => Ok(PlanView::Like(b, p, negated)),
            },
        },
        CondView::Between { expr, low, high, negated, .. } => match bind(expr, ctx) {
            Err(e) => Err(e),
            Ok(b) => match bind(low, ctx) {
                Err(e) => Err(e),
                Ok(lo) => match bind(high, ctx) {
                    Err(e) => Err(e),
                    Ok(hi) => Ok(PlanView::Between(b, lo, hi, negated)),
                },
            },
        },
    }
}

pub open spec fn bind_conds(v: Seq<CondView>, ctx: BindCtxView) -> Result<Seq<PlanView>, ErrorView>
    decreases v,
{
    if v.len() == 0 {
        Ok(seq![])
    } else {
        match bind_conds(v.drop_last(), ctx) {
            Err(x) => Err(x),
            Ok(rest) => match bind_cond(v.last(), ctx) {
                Ok(p) => Ok(rest.push(p)),
                Err(x) => Err(x),
            },
        }
    }
}

/// The first error stays the error of a longer list.
pub proof fn lemma_exprs_error(v: Seq<ExprView>, k: int, ctx: BindCtxView)
    requires
        0 <= k <= v.len(),
        bind_exprs(v.take(k), ctx) is Err,
    ensures
        bind_exprs(v, ctx) == bind_exprs(v.take(k), ctx),
    decreases v.len() - k,
{
    if k < v.len() {
        assert(v.take(k + 1).drop_last() =~= v.take(k));
        lemma_exprs_error(v, k + 1, ctx);
    } else {
        assert(v.take(k) =~= v);
    }
}

proof fn lemma_conds_error(v: Seq<CondView>, k: int, ctx: BindCtxView)
    requires
        0 <= k <= v.len(),
        bind_conds(v.take(k), ctx) is Err,
    ensures
        bind_conds(v, ctx) == bind_conds(v.take(k), ctx),
    decreases v.len() - k,
{
    if k < v.len() {
        assert(v.take(k + 1).drop_last() =~= v.take(k));
        lemma_conds_error(v, k + 1, ctx);
    } else {
        assert(v.take(k) =~= v);
    }
}

/// A binding, or an error, as the column rules say.
pub open spec fn bound(r: Result<ValBind, EluEtlError>, s: Result<BindView, ErrorView>) -> bool {
    match r {
        Ok(b) => s == Ok::<BindView, ErrorView>(b@),
        Err(e) => s == Err::<BindView, ErrorView>(e@),
    }
}

fn bind_column(r: &ColRef, ctx: &BindCtx) -> (b: Result<ValBind, EluEtlError>)
    ensures
        bound(b, bind_col(r@, ctx@)),
{
    let alias: String = text::to_lower(r.alias.as_str());
    let column: String = text::to_lower(r.column.as_str());
    if text::same(alias.as_str(), ctx.from_alias) {
        return match ctx.col_index.get(column.as_str()) {
            Some(i) => Ok(ValBind::Source(*i)),
            None => {
                let names: String = text::join(ctx.header, ", ");
                Err(
                    at_line(
                        r.line,
                        text::cat5(
                            "來源沒有欄位 ",
                            r.column.as_str(),
                            "（可用欄位：",
                            names.as_str(),
                            "）",
                        ).as_str(),
                    ),
                )
            },
        };
    }
    let ghost joins = metas_view(ctx.joins@);
    let mut j: usize = 0;
    while j < ctx.joins.len()
        invariant
            j <= ctx.joins@.len(),
            joins == metas_view(ctx.joins@),
            alias@ == text::lower(r.alias@),
            column@ == text::lower(r.column@),
            alias@ != ctx.from_alias@,
            join_named(joins, alias@, 0) == join_named(joins, alias@, j as int),
        decreases ctx.joins@.len() - j,
    {
        let meta: &JoinMeta = &ctx.joins[j];
        if text::same(meta.alias_lower.as_str(), alias.as_str()) {
            return match meta.col_pos.get(column.as_str()) {
                Some(p) => Ok(ValBind::Join(j, *p)),
                None => Err(
                    at_line(
                        r.line,
                        text::cat4(
                            "查表 [",
                            r.alias.as_str(),
                            "] 沒有欄位 ",
                            r.column.as_str(),
                        ).as_str(),
                    ),
                ),
            };
        }
        j += 1;
    }
    Err(
        at_line(
            r.line,
            text::cat3("別名 [", r.alias.as_str(), "] 未對應到主來源或任何查表").as_str(),
        ),
    )
}

/// Binds an expression.
pub fn build_valbind(expr: &Expr, ctx: &BindCtx) -> (r: Result<ValBind, EluEtlError>)
    ensures
        bound(r, bind(expr@, ctx@)),
    decreases expr,
{
    match expr {
        Expr::Text(s) => Ok(ValBind::Const(CellValue::Text(s.clone()))),
        Expr::Int(v) => Ok(ValBind::Const(CellValue::Int(*v))),
        Expr::Float(v) => Ok(ValBind::Const(CellValue::Float(v.copy()))),
        Expr::Bool(v) => Ok(ValBind::Const(CellValue::Bool(*v))),
        Expr::Null => Ok(ValBind::Const(CellValue::Null)),
        Expr::Gen(k) => Ok(ValBind::Gen(*k)),
        Expr::Concat(parts) => {
            let v: Vec<ValBind> = build_valbinds(parts, ctx)?;
            Ok(ValBind::Concat(v))
        },
        Expr::Col(r) => bind_column(r, ctx),
    }
}

/// Binds some expressions in order.
pub fn build_valbinds(exprs: &Vec<Expr>, ctx: &BindCtx) -> (r: Result<Vec<ValBind>, EluEtlError>)
    ensures
        match r {
            Ok(v) => bind_exprs(exprs_view(exprs@), ctx@) == Ok::<Seq<BindView>, ErrorView>(
                binds_view(v@),
            ),
            Err(e) => bind_exprs(exprs_view(exprs@), ctx@) == Err::<Seq<BindView>, ErrorView>(e@),
        },
    decreases exprs,
{
    let ghost all = exprs_view(exprs@);
    let mut out: Vec<ValBind> = Vec::new();
    let mut i: usize = 0;
    proof {
        lemma_exprs_index(exprs@);
        assert(binds_view(out@) =~= seq![]);
    }
    while i < exprs.len()
        invariant
            i <= exprs@.len(),
            all == exprs_view(exprs@),
            all.len() == exprs@.len(),
            forall|j: int| 0 <= j < exprs@.len() ==> #[trigger] all[j] == exprs@[j]@,
            bind_exprs(all.take(i as int), ctx@) == Ok::<Seq<BindView>, ErrorView>(
                binds_view(out@),
            ),
        decreases exprs@.len() - i,
    {
        proof {
            assert(all.take(i + 1).drop_last() =~= all.take(i as int));
            assert(all.take(i + 1).last() == exprs@[i as int]@);
        }
        assert(decreases_to!(exprs => exprs@[i as int]));
        match build_valbind(&exprs[i], ctx) {
            Ok(b) => {
                proof {
                    lemma_binds_push(out@, b);
                }
                out.push(b);
            },
            Err(e) => {
                proof {
                    lemma_exprs_error(all, i + 1, ctx@);
                }
                return Err(e);
            },
        }
        i += 1;
    }
    assert(all.take(i as int) =~= all);
    Ok(out)
}

pub open spec fn planned(r: Result<CondPlan, EluEtlError>, s: Result<PlanView, ErrorView>) -> bool {
    match r {
        Ok(b) => s == Ok::<PlanView, ErrorView>(b@),
        Err(e) => s == Err::<PlanView, ErrorView>(e@),
    }
}

/// Binds a condition.
pub fn build_cond_plan(cond: &Condition, ctx: &BindCtx) -> (r: Result<CondPlan, EluEtlError>)
    ensures
        planned(r, bind_cond(cond@, ctx@)),
    decreases cond,
{
    match cond {
        Condition::And(v) => {
            let p: Vec<CondPlan> = build_cond_plans(v, ctx)?;
            Ok(CondPlan::And(p))
        },
        Condition::Or(v) => {
            let p: Vec<CondPlan> = build_cond_plans(v, ctx)?;
            Ok(CondPlan::Or(p))
        },
        Condition::Not(b) => {
            let p: CondPlan = build_cond_plan(&**b, ctx)?;
            Ok(CondPlan::Not(Box::new(p)))
        },
        Condition::Compare(x) => {
            let l: ValBind = build_valbind(&x.left, ctx)?;
            let r: ValBind = build_valbind(&x.right, ctx)?;
            Ok(CondPlan::Compare(l, x.op, r))
        },
        Condition::IsEmpty(x) => {
            let b: ValBind = build_valbind(&x.expr, ctx)?;
            Ok(CondPlan::IsEmpty(b, x.negated))
        },
        Condition::In { expr, list, negated, .. } => {
            let b: ValBind = build_valbind(expr, ctx)?;
            let v: Vec<ValBind> = build_valbinds(list, ctx)?;
            Ok(CondPlan::In(b, v, *negated))
        },
        Condition::Like { expr, pattern, negated, .. } => {
            let b: ValBind = build_valbind(expr, ctx)?;
            let p: ValBind = build_valbind(pattern, ctx)?;
            Ok(CondPlan::Like(b, p, *negated))
        },
        Condition::Between { expr, low, high, negated, .. } => {
            let b: ValBind = build_valbind(expr, ctx)?;
            let lo: ValBind = build_valbind(low, ctx)?;
            let hi: ValBind = build_valbind(high, ctx)?;
            Ok(CondPlan::Between(b, lo, hi, *negated))
        },
    }
}

fn build_cond_plans(conds: &Vec<Condition>, ctx: &BindCtx) -> (r: Result<Vec<CondPlan>, EluEtlError>)
    ensures
        match r {
            Ok(v) => bind_conds(conds_view(conds@), ctx@) == Ok::<Seq<PlanView>, ErrorView>(
                plans_view(v@),
            ),
            Err(e) => bind_conds(conds_view(conds@), ctx@) == Err::<Seq<PlanView>, ErrorView>(e@),
        },
    decreases conds,
{
    let ghost all = conds_view(conds@);
    let mut out: Vec<CondPlan> = Vec::new();
    let mut i: usize = 0;
    proof {
        lemma_conds_index(conds@);
        assert(plans_view(out@) =~= seq![]);
    }
    while i < conds.len()
        invariant
            i <= conds@.len(),
            all == conds_view(conds@),
            all.len() == conds@.len(),
            forall|j: int| 0 <= j < conds@.len() ==> #[trigger] all[j] == conds@[j]@,
            bind_conds(all.take(i as int), ctx@) == Ok::<Seq<PlanView>, ErrorView>(
                plans_view(out@),
            ),
        decreases conds@.len() - i,
    {
        proof {
            assert(all.take(i + 1).drop_last() =~= all.take(i as int));
            assert(all.take(i + 1).last() == conds@[i as int]@);
        }
        assert(decreases_to!(conds => conds@[i as int]));
        match build_cond_plan(&conds[i], ctx) {
            Ok(p) => {
                proof {
                    lemma_plans_push(out@, p);
                }
                out.push(p);
            },
            Err(e) => {
                proof {
                    lemma_conds_error(all, i + 1, ctx@);
                }
                return Err(e);
            },
        }
        i += 1;
    }
    assert(all.take(i as int) =~= all);
    Ok(out)
}

/// A column is found by its name in lower case, and of several such columns the last
/// one counts.
pub proof fn law_last_place_of_a_name_counts(names: Seq<Seq<char>>, name: Seq<char>)
    requires
        names.len() <= usize::MAX,
    ensures
        places(names).contains_key(name) <==> exists|i: int|
            0 <= i < names.len() && text::lower(#[trigger] names[i]) == name,
        places(names).contains_key(name) ==> places(names)[name] < names.len() && text::lower(
            names[places(names)[name] as int],
        ) == name && forall|j: int|
            places(names)[name] < j < names.len() ==> text::lower(#[trigger] names[j]) != name,
    decreases names.len(),
{
    if names.len() > 0 {
        let front = names.drop_last();
        let last = names.len() - 1;
        law_last_place_of_a_name_counts(front, name);
        assert(names[last] == names.last());
        if text::lower(names.last()) != name {
            if exists|i: int| 0 <= i < names.len() && text::lower(#[trigger] names[i]) == name {
                let i = choose|i: int|
                    0 <= i < names.len() && text::lower(#[trigger] names[i]) == name;
                assert(front[i] == names[i]);
            }
            if places(front).contains_key(name) {
                assert(places(names)[name] == places(front)[name]);
                assert(names[places(front)[name] as int] == front[places(front)[name] as int]);
                assert forall|j: int| places(front)[name] < j < names.len() implies text::lower(
                    #[trigger] names[j],
                ) != name by {
                    if j < last {
                        assert(front[j] == names[j]);
                    }
                }
            }
        }
    }
}

/// Of several lookups of one alias the first counts.
pub proof fn law_first_lookup_of_an_alias_counts(v: Seq<JoinMetaView>, alias: Seq<char>, from: int)
    requires
        0 <= from <= v.len(),
    ensures
        join_named(v, alias, from) matches Some(j) ==> from <= j < v.len() && v[j].alias_lower
            == alias && forall|i: int| from <= i < j ==> (#[trigger] v[i]).alias_lower != alias,
        join_named(v, alias, from) is None <==> forall|i: int|
            from <= i < v.len() ==> (#[trigger] v[i]).alias_lower != alias,
    decreases v.len() - from,
{
    if from < v.len() && v[from].alias_lower != alias {
        law_first_lookup_of_an_alias_counts(v, alias, from + 1);
    }
}

/// A column of the main source is bound to the place of its name in the header, a
/// column of a lookup to that lookup and to the place of the column in it, each
/// name in any case. An error comes exactly where the alias or the column is unknown.
pub proof fn law_columns_are_bound_by_name(r: ColRefView, ctx: BindCtxView)
    requires
        ctx.header.len() <= usize::MAX,
        ctx.col_index == places(ctx.header),
        ctx.joins.len() <= usize::MAX,
    ensures
        bind(ExprView::Col(r), ctx) matches Ok(BindView::Source(p)) ==> text::lower(r.alias)
            == ctx.from_alias && p < ctx.header.len() && text::lower(ctx.header[p as int])
            == text::lower(r.column),
        bind(ExprView::Col(r), ctx) matches Ok(BindView::Join(j, p)) ==> text::lower(r.alias)
            != ctx.from_alias && j < ctx.joins.len() && ctx.joins[j as int].alias_lower
            == text::lower(r.alias) && ctx.joins[j as int].col_pos.contains_key(
            text::lower(r.column),
        ) && ctx.joins[j as int].col_pos[text::lower(r.column)] == p,
        bind(ExprView::Col(r), ctx) matches Ok(b) ==> b is Source || b is Join,
        text::lower(r.alias) == ctx.from_alias ==> (bind(ExprView::Col(r), ctx) is Ok <==> exists|
            i: int,
        |
            0 <= i < ctx.header.len() && text::lower(#[trigger] ctx.header[i]) == text::lower(
                r.column,
            )),
{
    law_last_place_of_a_name_counts(ctx.header, text::lower(r.column));
    law_first_lookup_of_an_alias_counts(ctx.joins, text::lower(r.alias), 0);
}

/// A literal stands for its own value.
pub proof fn law_literals_stand_for_themselves(
    s: Seq<char>,
    i: i64,
    f: RealView,
    b: bool,
    ctx: BindCtxView,
)
    ensures
        bind(ExprView::Text(s), ctx) == Ok::<BindView, ErrorView>(
            BindView::Const(CellView::Text(s)),
        ),
        bind(ExprView::Int(i), ctx) == Ok::<BindView, ErrorView>(BindView::Const(CellView::Int(i))),
        bind(ExprView::Float(f), ctx) == Ok::<BindView, ErrorView>(
            BindView::Const(CellView::Float(f)),
        ),
        bind(ExprView::Bool(b), ctx) == Ok::<BindView, ErrorView>(
            BindView::Const(CellView::Bool(b)),
        ),
        bind(ExprView::Null, ctx) == Ok::<BindView, ErrorView>(BindView::Const(CellView::Null)),
{
}

/// Expressions are bound one by one, in their order.
pub proof fn law_expressions_are_bound_in_order(v: Seq<ExprView>, ctx: BindCtxView)
    ensures
        bind_exprs(v, ctx) matches Ok(b) ==> b.len() == v.len() && forall|i: int|
            0 <= i < v.len() ==> bind(v[i], ctx) == Ok::<BindView, ErrorView>(#[trigger] b[i]),
        bind_exprs(v, ctx) is Ok <==> forall|i: int|
            0 <= i < v.len() ==> bind(#[trigger] v[i], ctx) is Ok,
        bind(ExprView::Concat(v), ctx) matches Ok(b) ==> b matches BindView::Concat(parts) && Ok::<
            Seq<BindView>,
            ErrorView,
        >(parts) == bind_exprs(v, ctx),
    decreases v.len(),
{
    if v.len() > 0 {
        let front = v.drop_last();
        let last = v.len() - 1;
        law_expressions_are_bound_in_order(front, ctx);
        assert(v[last] == v.last());
        assert forall|i: int| 0 <= i < last implies front[i] == #[trigger] v[i] by {}
        if let Ok(b) = bind_exprs(v, ctx) {
            let before = bind_exprs(front, ctx)->Ok_0;
            assert forall|i: int| 0 <= i < v.len() implies bind(v[i], ctx) == Ok::<
                BindView,
                ErrorView,
            >(#[trigger] b[i]) by {
                if i < last {
                    assert(b[i] == before[i]);
                    assert(front[i] == v[i]);
                }
            }
            assert forall|i: int| 0 <= i < v.len() implies bind(#[trigger] v[i], ctx) is Ok by {
                assert(bind(v[i], ctx) == Ok::<BindView, ErrorView>(b[i]));
            }
        } else if bind_exprs(front, ctx) is Err {
            let i = choose|i: int| 0 <= i < front.len() && bind(#[trigger] front[i], ctx) is Err;
            assert(bind(v[i], ctx) is Err);
        } else {
            assert(bind(v[last], ctx) is Err);
        }
    }
}

/// Conditions are bound one by one, in their order, and keep what joins them.
pub proof fn law_conditions_are_bound_in_order(v: Seq<CondView>, ctx: BindCtxView)
    ensures
        bind_conds(v, ctx) matches Ok(p) ==> p.len() == v.len() && forall|i: int|
            0 <= i < v.len() ==> bind_cond(v[i], ctx) == Ok::<PlanView, ErrorView>(#[trigger] p[i]),
        bind_cond(CondView::And(v), ctx) matches Ok(p) ==> p is And,
        bind_cond(CondView::Or(v), ctx) matches Ok(p) ==> p is Or,
        bind_cond(CondView::And(v), ctx) matches Ok(PlanView::And(p)) ==> Ok::<
            Seq<PlanView>,
            ErrorView,
        >(p) == bind_conds(v, ctx),
        bind_cond(CondView::Or(v), ctx) matches Ok(PlanView::Or(p)) ==> Ok::<
            Seq<PlanView>,
            ErrorView,
        >(p) == bind_conds(v, ctx),
    decreases v.len(),
{
    if v.len() > 0 {
        let front = v.drop_last();
        let last = v.len() - 1;
        law_conditions_are_bound_in_order(front, ctx);
        if let Ok(p) = bind_conds(v, ctx) {
            let before = bind_conds(front, ctx)->Ok_0;
            assert forall|i: int| 0 <= i < v.len() implies bind_cond(v[i], ctx) == Ok::<
                PlanView,
                ErrorView,
            >(#[trigger] p[i]) by {
                if i < last {
                    assert(p[i] == before[i]);
                    assert(front[i] == v[i]);
                }
            }
        }
    }
}

/// A bound test asks what was written: a comparison keeps its operator and its sides,
/// the other tests their operands in their places, and each test its NOT.
pub proof fn law_tests_are_bound_as_written(c: CondView, ctx: BindCtxView)
    ensures
        bind_cond(c, ctx) matches Ok(p) ==> (match c {
            CondView::And(_) => p is And,
            CondView::Or(_) => p is Or,
            CondView::Not(b) => p matches PlanView::Not(q) && bind_cond(*b, ctx) == Ok::<
                PlanView,
                ErrorView,
            >(*q),
            CondView::Compare(x) => p matches PlanView::Compare(l, op, r) && op == x.op && bind(
                x.left,
                ctx,
            ) == Ok::<BindView, ErrorView>(l) && bind(x.right, ctx) == Ok::<BindView, ErrorView>(r),
            CondView::IsEmpty(x) => p matches PlanView::IsEmpty(e, n) && n == x.negated && bind(
                x.expr,
                ctx,
            ) == Ok::<BindView, ErrorView>(e),
            CondView::In { expr, list, negated, .. } => p matches PlanView::In(e, v, n) && n
                == negated && bind(expr, ctx) == Ok::<BindView, ErrorView>(e) && bind_exprs(
                list,
                ctx,
            ) == Ok::<Seq<BindView>, ErrorView>(v),
            CondView::Like { expr, pattern, negated, .. } => p matches PlanView::Like(e, t, n) && n
                == negated && bind(expr, ctx) == Ok::<BindView, ErrorView>(e) && bind(pattern, ctx)
                == Ok::<BindView, ErrorView>(t),
            CondView::Between { expr, low, high, negated, .. } => p matches PlanView::Between(
                e,
                lo,
                hi,
                n,
            ) && n == negated && bind(expr, ctx) == Ok::<BindView, ErrorView>(e) && bind(low, ctx)
                == Ok::<BindView, ErrorView>(lo) && bind(high, ctx) == Ok::<BindView, ErrorView>(
                hi,
            ),
        }),
{
}

} // verus!
