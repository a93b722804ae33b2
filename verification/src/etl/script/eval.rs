//! Values and conditions of a job, bound to places in a row and evaluated.
use crate::double::{is_reader, reading, Order, Real, Reading};
use crate::etl::script::ast::{CmpOp, GenKind};
use crate::etl::script::gen::{
    all_random, draws_one, gen_step, generate, is_random_uuid, CtxView, Entropy, GenContext,
};
use crate::etl::script::keys::{
    cell_is_empty, cell_order, compare, eval_compare, is_blank, key_of, law_percent_takes_any,
    law_plain_pattern_matches_itself, like, like_match, match_key, same_keys,
};
use crate::models::value::{cell_text, row_view, CellValue, CellView};
use crate::text;
use vstd::prelude::*;

verus! {

/// Where the value of an expression comes from.
pub enum ValBind {
    /// A column of the main source.
    Source(usize),
    /// A column of a lookup; NULL where the lookup found nothing.
    Join(usize, usize),
    Const(CellValue),
    Gen(GenKind),
    /// The texts of the parts, one after the other.
    Concat(Vec<ValBind>),
}

#[verifier::ext_equal]
pub enum BindView {
    Source(usize),
    Join(usize, usize),
    Const(CellView),
    Gen(GenKind),
    Concat(Seq<BindView>),
}

pub open spec fn bind_view(b: ValBind) -> BindView
    decreases b,
{
    match b {
        ValBind::Source(i) => BindView::Source(i),
        ValBind::Join(j, p) => BindView::Join(j, p),
        ValBind::Const(c) => BindView::Const(c@),
        ValBind::Gen(k) => BindView::Gen(k),
        ValBind::Concat(v) => BindView::Concat(binds_view(v@)),
    }
}

pub open spec fn binds_view(s: Seq<ValBind>) -> Seq<BindView>
    decreases s,
{
    if s.len() == 0 {
        seq![]
    } else {
        binds_view(s.drop_last()).push(bind_view(s.last()))
    }
}

impl View for ValBind {
    type V = BindView;

    open spec fn view(&self) -> BindView {
        bind_view(*self)
    }
}

pub proof fn lemma_binds_push(s: Seq<ValBind>, b: ValBind)
    ensures
        binds_view(s.push(b)) == binds_view(s).push(b@),
{
    assert(s.push(b).drop_last() =~= s);
}

pub proof fn lemma_binds_index(s: Seq<ValBind>)
    ensures
        binds_view(s).len() == s.len(),
        forall|i: int| 0 <= i < s.len() ==> #[trigger] binds_view(s)[i] == s[i]@,
    decreases s,
{
    if s.len() > 0 {
        lemma_binds_index(s.drop_last());
    }
}

pub proof fn lemma_binds_take(s: Seq<ValBind>, i: int)
    requires
        0 <= i < s.len(),
    ensures
        binds_view(s.take(i + 1)) == binds_view(s.take(i)).push(s[i]@),
        binds_view(s.take(i + 1)).drop_last() == binds_view(s.take(i)),
{
    assert(s.take(i + 1) =~= s.take(i).push(s[i]));
    lemma_binds_push(s.take(i), s[i]);
    assert(binds_view(s.take(i + 1)).drop_last() =~= binds_view(s.take(i)));
}

/// A condition whose operands are bound.
pub enum CondPlan {
    And(Vec<CondPlan>),
    Or(Vec<CondPlan>),
    Not(Box<CondPlan>),
    Compare(ValBind, CmpOp, ValBind),
    IsEmpty(ValBind, bool),
    In(ValBind, Vec<ValBind>, bool),
    Like(ValBind, ValBind, bool),
    Between(ValBind, ValBind, ValBind, bool),
}

#[verifier::ext_equal]
pub enum PlanView {
    And(Seq<PlanView>),
    Or(Seq<PlanView>),
    Not(Box<PlanView>),
    Compare(BindView, CmpOp, BindView),
    IsEmpty(BindView, bool),
    In(BindView, Seq<BindView>, bool),
    Like(BindView, BindView, bool),
    Between(BindView, BindView, BindView, bool),
}

pub open spec fn plan_view(p: CondPlan) -> PlanView
    decreases p,
{
    match p {
        CondPlan::And(v) => PlanView::And(plans_view(v@)),
        CondPlan::Or(v) => PlanView::Or(plans_view(v@)),
        CondPlan::Not(b) => PlanView::Not(Box::new(plan_view(*b))),
        CondPlan::Compare(l, op, r) => PlanView::Compare(l@, op, r@),
        CondPlan::IsEmpty(e, n) => PlanView::IsEmpty(e@, n),
        CondPlan::In(e, list, n) => PlanView::In(e@, binds_view(list@), n),
        CondPlan::Like(e, p, n) => PlanView::Like(e@, p@, n),
        CondPlan::Between(e, lo, hi, n) => PlanView::Between(e@, lo@, hi@, n),
    }
}

pub open spec fn plans_view(s: Seq<CondPlan>) -> Seq<PlanView>
    decreases s,
{
    if s.len() == 0 {
        seq![]
    } else {
        plans_view(s.drop_last()).push(plan_view(s.last()))
    }
}

impl View for CondPlan {
    type V = PlanView;

    open spec fn view(&self) -> PlanView {
        plan_view(*self)
    }
}

pub proof fn lemma_plans_push(s: Seq<CondPlan>, p: CondPlan)
    ensures
        plans_view(s.push(p)) == plans_view(s).push(p@),
{
    assert(s.push(p).drop_last() =~= s);
}

pub proof fn lemma_plans_index(s: Seq<CondPlan>)
    ensures
        plans_view(s).len() == s.len(),
        forall|i: int| 0 <= i < s.len() ==> #[trigger] plans_view(s)[i] == s[i]@,
    decreases s,
{
    if s.len() > 0 {
        lemma_plans_index(s.drop_last());
    }
}

/// What values are read from: the row, what the lookups found, the start of
/// the run, and the random numbers in the order in which they are used up.
pub struct RowEnv {
    pub row: Seq<CellView>,
    pub joins: Seq<Option<Seq<CellView>>>,
    pub ctx: CtxView,
    pub draws: Seq<u128>,
}

/// The cell at a place, NULL where there is none.
pub open spec fn cell_at(row: Seq<CellView>, i: int) -> CellView {
    if 0 <= i < row.len() {
        row[i]
    } else {
        CellView::Null
    }
}

/// The value of a binding when `at` random numbers are used up, and how many
/// are used up behind it.
pub open spec fn eval(b: BindView, env: RowEnv, at: nat) -> (CellView, nat)
    decreases b,
{
    match b {
        BindView::Const(c) => (c, at),
        BindView::Source(i) => (cell_at(env.row, i as int), at),
        BindView::Join(j, p) => (
            if j < env.joins.len() && env.joins[j as int] is Some {
                cell_at(env.joins[j as int]->0, p as int)
            } else {
                CellView::Null
            },
            at,
        ),
        BindView::Gen(k) => gen_step(k, env.row, env.ctx, env.draws, at),
        BindView::Concat(v) => {
            let (t, n) = eval_texts(v, env, at);
            (CellView::Text(t), n)
        },
    }
}

/// The texts of some bindings, one after the other.
pub open spec fn eval_texts(v: Seq<BindView>, env: RowEnv, at: nat) -> (Seq<char>, nat)
    decreases v,
{
    if v.len() == 0 {
        (seq![], at)
    } else {
        let (t, n) = eval_texts(v.drop_last(), env, at);
        let (c, m) = eval(v.last(), env, n);
        (t + cell_text(c), m)
    }
}

/// The values of some bindings, from left to right.
pub open spec fn eval_all(v: Seq<BindView>, env: RowEnv, at: nat) -> (Seq<CellView>, nat)
    decreases v.len(),
{
    if v.len() == 0 {
        (seq![], at)
    } else {
        let (cells, n) = eval_all(v.drop_last(), env, at);
        let (c, m) = eval(v.last(), env, n);
        (cells.push(c), m)
    }
}

/// Whether one of the bindings has the key; they are asked from left to right
/// until one has it.
pub open spec fn any_has_key(v: Seq<BindView>, key: Seq<char>, env: RowEnv, at: nat) -> (bool, nat)
    decreases v.len(),
{
    if v.len() == 0 {
        (false, at)
    } else {
        let (hit, n) = any_has_key(v.drop_last(), key, env, at);
        if hit {
            (true, n)
        } else {
            let (c, m) = eval(v.last(), env, n);
            (match_key(c) == Some(key), m)
        }
    }
}

/// Whether a condition holds for a row; AND and OR stop as soon as they are decided.
pub open spec fn holds(p: PlanView, env: RowEnv, rd: Reading, at: nat) -> (bool, nat)
    decreases p,
{
    match p {
        PlanView::And(v) => all_hold(v, env, rd, at),
        PlanView::Or(v) => any_holds(v, env, rd, at),
        PlanView::Not(b) => {
            let (h, n) = holds(*b, env, rd, at);
            (!h, n)
        },
        PlanView::Compare(l, op, r) => {
            let (a, n) = eval(l, env, at);
            let (b, m) = eval(r, env, n);
            (compare(a, op, b, rd), m)
        },
        PlanView::IsEmpty(e, negated) => {
            let (c, n) = eval(e, env, at);
            (is_blank(c) != negated, n)
        },
        PlanView::In(e, list, negated) => {
            let (c, n) = eval(e, env, at);
            match match_key(c) {
                Some(key) => {
                    let (hit, m) = any_has_key(list, key, env, n);
                    (hit != negated, m)
                },
                None => (negated, n),
            }
        },
        PlanView::Like(e, pattern, negated) => {
            let (c, n) = eval(e, env, at);
            let (p, m) = eval(pattern, env, n);
            (like(text::lower(cell_text(c)), text::lower(cell_text(p))) != negated, m)
        },
        PlanView::Between(e, lo, hi, negated) => {
            let (c, n) = eval(e, env, at);
            let (a, m) = eval(lo, env, n);
            if compare(c, CmpOp::Ge, a, rd) {
                let (b, k) = eval(hi, env, m);
                (compare(c, CmpOp::Le, b, rd) != negated, k)
            } else {
                (negated, m)
            }
        },
    }
}

/// Whether all conditions hold; they are asked from left to right until one does not.
pub open spec fn all_hold(v: Seq<PlanView>, env: RowEnv, rd: Reading, at: nat) -> (bool, nat)
    decreases v,
{
    if v.len() == 0 {
        (true, at)
    } else {
        let (h, n) = all_hold(v.drop_last(), env, rd, at);
        if h {
            holds(v.last(), env, rd, n)
        } else {
            (false, n)
        }
    }
}

/// Whether some condition holds; they are asked from left to right until one does.
pub open spec fn any_holds(v: Seq<PlanView>, env: RowEnv, rd: Reading, at: nat) -> (bool, nat)
    decreases v,
{
    if v.len() == 0 {
        (false, at)
    } else {
        let (h, n) = any_holds(v.drop_last(), env, rd, at);
        if h {
            (true, n)
        } else {
            holds(v.last(), env, rd, n)
        }
    }
}

/// The environment with more random numbers behind those it has.
pub open spec fn more_draws(env: RowEnv, more: Seq<u128>) -> RowEnv {
    RowEnv { draws: env.draws + more, ..env }
}

/// Using up random numbers never goes back, and later numbers change nothing
/// about a value that is already there.
pub proof fn lemma_eval_stable(b: BindView, env: RowEnv, more: Seq<u128>, at: nat)
    ensures
        at <= eval(b, env, at).1,
        eval(b, env, at).1 <= env.draws.len() ==> eval(b, more_draws(env, more), at) == eval(
            b,
            env,
            at,
        ),
    decreases b,
{
    match b {
        BindView::Concat(v) => {
            lemma_texts_stable(v, env, more, at);
        },
        _ => {},
    }
}

pub proof fn lemma_texts_stable(v: Seq<BindView>, env: RowEnv, more: Seq<u128>, at: nat)
    ensures
        at <= eval_texts(v, env, at).1,
        eval_texts(v, env, at).1 <= env.draws.len() ==> eval_texts(v, more_draws(env, more), at)
            == eval_texts(v, env, at),
    decreases v,
{
    if v.len() > 0 {
        lemma_texts_stable(v.drop_last(), env, more, at);
        let (t, n) = eval_texts(v.drop_last(), env, at);
        lemma_eval_stable(v.last(), env, more, n);
    }
}

pub proof fn lemma_all_stable(v: Seq<BindView>, env: RowEnv, more: Seq<u128>, at: nat)
    ensures
        at <= eval_all(v, env, at).1,
        eval_all(v, env, at).0.len() == v.len(),
        eval_all(v, env, at).1 <= env.draws.len() ==> eval_all(v, more_draws(env, more), at)
            == eval_all(v, env, at),
    decreases v.len(),
{
    if v.len() > 0 {
        lemma_all_stable(v.drop_last(), env, more, at);
        let (t, n) = eval_all(v.drop_last(), env, at);
        lemma_eval_stable(v.last(), env, more, n);
    }
}

pub proof fn lemma_any_key_stable(
    v: Seq<BindView>,
    key: Seq<char>,
    env: RowEnv,
    more: Seq<u128>,
    at: nat,
)
    ensures
        at <= any_has_key(v, key, env, at).1,
        any_has_key(v, key, env, at).1 <= env.draws.len() ==> any_has_key(
            v,
            key,
            more_draws(env, more),
            at,
        ) == any_has_key(v, key, env, at),
    decreases v.len(),
{
    if v.len() > 0 {
        let (hit, n) = any_has_key(v.drop_last(), key, env, at);
        lemma_any_key_stable(v.drop_last(), key, env, more, at);
        lemma_eval_stable(v.last(), env, more, n);
    }
}

pub proof fn lemma_holds_stable(p: PlanView, env: RowEnv, rd: Reading, more: Seq<u128>, at: nat)
    ensures
        at <= holds(p, env, rd, at).1,
        holds(p, env, rd, at).1 <= env.draws.len() ==> holds(p, more_draws(env, more), rd, at)
            == holds(p, env, rd, at),
    decreases p,
{
    match p {
        PlanView::And(v) => {
            lemma_all_hold_stable(v, env, rd, more, at);
        },
        PlanView::Or(v) => {
            lemma_any_holds_stable(v, env, rd, more, at);
        },
        PlanView::Not(b) => {
            lemma_holds_stable(*b, env, rd, more, at);
        },
        PlanView::Compare(l, op, r) => {
            let (a, n) = eval(l, env, at);
            lemma_eval_stable(l, env, more, at);
            lemma_eval_stable(r, env, more, n);
        },
        PlanView::IsEmpty(e, _) => {
            lemma_eval_stable(e, env, more, at);
        },
        PlanView::In(e, list, _) => {
            let (c, n) = eval(e, env, at);
            lemma_eval_stable(e, env, more, at);
            if let Some(key) = match_key(c) {
                lemma_any_key_stable(list, key, env, more, n);
            }
        },
        PlanView::Like(e, pattern, _) => {
            let (c, n) = eval(e, env, at);
            lemma_eval_stable(e, env, more, at);
            lemma_eval_stable(pattern, env, more, n);
        },
        PlanView::Between(e, lo, hi, _) => {
            let (c, n) = eval(e, env, at);
            let (a, m) = eval(lo, env, n);
            lemma_eval_stable(e, env, more, at);
            lemma_eval_stable(lo, env, more, n);
            lemma_eval_stable(hi, env, more, m);
        },
    }
}

pub proof fn lemma_all_hold_stable(
    v: Seq<PlanView>,
    env: RowEnv,
    rd: Reading,
    more: Seq<u128>,
    at: nat,
)
    ensures
        at <= all_hold(v, env, rd, at).1,
        all_hold(v, env, rd, at).1 <= env.draws.len() ==> all_hold(
            v,
            more_draws(env, more),
            rd,
            at,
        ) == all_hold(v, env, rd, at),
    decreases v,
{
    if v.len() > 0 {
        let (h, n) = all_hold(v.drop_last(), env, rd, at);
        lemma_all_hold_stable(v.drop_last(), env, rd, more, at);
        lemma_holds_stable(v.last(), env, rd, more, n);
    }
}

pub proof fn lemma_any_holds_stable(
    v: Seq<PlanView>,
    env: RowEnv,
    rd: Reading,
    more: Seq<u128>,
    at: nat,
)
    ensures
        at <= any_holds(v, env, rd, at).1,
        any_holds(v, env, rd, at).1 <= env.draws.len() ==> any_holds(
            v,
            more_draws(env, more),
            rd,
            at,
        ) == any_holds(v, env, rd, at),
    decreases v,
{
    if v.len() > 0 {
        let (h, n) = any_holds(v.drop_last(), env, rd, at);
        lemma_any_holds_stable(v.drop_last(), env, rd, more, at);
        lemma_holds_stable(v.last(), env, rd, more, n);
    }
}

/// What the lookups of a row found.
pub open spec fn found_view(v: Seq<Option<&Vec<CellValue>>>) -> Seq<Option<Seq<CellView>>> {
    Seq::new(
        v.len(),
        |i: int|
            match v[i] {
                Some(r) => Some(row_view(r@)),
                None => None,
            },
    )
}

/// A row, what its lookups found, and the start of the run.
pub struct RowCtx<'a> {
    pub row: &'a Vec<CellValue>,
    pub joins: &'a Vec<Option<&'a Vec<CellValue>>>,
    pub gen: &'a GenContext,
}

impl<'a> RowCtx<'a> {
    /// The environment with the random numbers on record.
    pub open spec fn env(&self, draws: Seq<u128>) -> RowEnv {
        RowEnv { row: row_view(self.row@), joins: found_view(self.joins@), ctx: self.gen@, draws }
    }
}

/// One record of random numbers continues another, with random numbers alone.
pub open spec fn continues(later: Seq<u128>, earlier: Seq<u128>) -> bool {
    &&& earlier.len() <= later.len()
    &&& later.take(earlier.len() as int) == earlier
    &&& all_random(later.skip(earlier.len() as int))
}

pub(crate) proof fn lemma_continues_self(v: Seq<u128>)
    ensures
        continues(v, v),
{
    reveal(all_random);
    assert(v.take(v.len() as int) =~= v);
}

proof fn lemma_continues_by_one(v: Seq<u128>, random: u128)
    requires
        is_random_uuid(random),
    ensures
        continues(v.push(random), v),
{
    reveal(all_random);
    assert(v.push(random).take(v.len() as int) =~= v);
    assert(v.push(random).skip(v.len() as int) =~= seq![random]);
}

pub(crate) proof fn lemma_continues_on(a: Seq<u128>, b: Seq<u128>, c: Seq<u128>)
    requires
        continues(b, a),
        continues(c, b),
    ensures
        continues(c, a),
{
    reveal(all_random);
    assert(c.take(a.len() as int) =~= b.take(a.len() as int));
    let more = c.skip(a.len() as int);
    assert forall|i: int| 0 <= i < more.len() implies is_random_uuid(#[trigger] more[i]) by {
        if i < b.len() - a.len() {
            assert(more[i] == c.take(b.len() as int)[i + a.len()]);
            assert(more[i] == b.skip(a.len() as int)[i]);
        } else {
            assert(more[i] == c.skip(b.len() as int)[i + a.len() - b.len()]);
        }
    }
}

proof fn lemma_continues(later: Seq<u128>, earlier: Seq<u128>, ctx: RowEnv)
    requires
        continues(later, earlier),
        ctx.draws == earlier,
    ensures
        more_draws(ctx, later.skip(earlier.len() as int)) == (RowEnv { draws: later, ..ctx }),
{
    assert(earlier + later.skip(earlier.len() as int) =~= later);
}

/// The value of a binding.
pub fn eval_valbind(b: &ValBind, ctx: &RowCtx, entropy: &mut Entropy) -> (r: CellValue)
    ensures
        continues(final(entropy)@, old(entropy)@),
        (r@, final(entropy)@.len()) == eval(b@, ctx.env(final(entropy)@), old(entropy)@.len()),
    decreases b,
{
    match b {
        ValBind::Const(c) => {
            proof {
                lemma_continues_self(entropy@);
            }
            c.copy()
        },
        ValBind::Source(i) => {
            proof {
                lemma_continues_self(entropy@);
            }
            if *i < ctx.row.len() { ctx.row[*i].copy() } else { CellValue::Null }
        },
        ValBind::Join(j, p) => {
            proof {
                lemma_continues_self(entropy@);
            }
            if *j < ctx.joins.len() {
                match ctx.joins[*j] {
                    Some(vals) => {
                        if *p < vals.len() { vals[*p].copy() } else { CellValue::Null }
                    },
                    None => CellValue::Null,
                }
            } else {
                CellValue::Null
            }
        },
        ValBind::Gen(k) => {
            let ghost start = entropy@;
            let c: CellValue = generate(*k, ctx.row, ctx.gen, entropy);
            proof {
                lemma_continues_self(start);
                if draws_one(*k) {
                    lemma_continues_by_one(start, entropy@.last());
                }
            }
            c
        },
        ValBind::Concat(parts) => {
            let s: String = eval_concat(parts, ctx, entropy);
            CellValue::Text(s)
        },
    }
}

/// The texts of some bindings, one after the other.
fn eval_concat(parts: &Vec<ValBind>, ctx: &RowCtx, entropy: &mut Entropy) -> (r: String)
    ensures
        continues(final(entropy)@, old(entropy)@),
        (r@, final(entropy)@.len()) == eval_texts(
            binds_view(parts@),
            ctx.env(final(entropy)@),
            old(entropy)@.len(),
        ),
    decreases parts,
{
    let mut s: String = String::new();
    let ghost start = entropy@;
    let mut i: usize = 0;
    proof {
        lemma_continues_self(start);
        assert(s@ =~= seq![]);
    }
    while i < parts.len()
        invariant
            i <= parts@.len(),
            start == old(entropy)@,
            continues(entropy@, start),
            (s@, entropy@.len()) == eval_texts(
                binds_view(parts@.take(i as int)),
                ctx.env(entropy@),
                start.len(),
            ),
        decreases parts@.len() - i,
    {
        let ghost mid = entropy@;
        assert(decreases_to!(parts => parts@[i as int]));
        let c: CellValue = eval_valbind(&parts[i], ctx, entropy);
        let t: String = c.to_display_string();
        proof {
            lemma_binds_take(parts@, i as int);
            let env = ctx.env(mid);
            lemma_continues(entropy@, mid, env);
            lemma_texts_stable(
                binds_view(parts@.take(i as int)),
                env,
                entropy@.skip(mid.len() as int),
                start.len(),
            );
            lemma_continues_on(start, mid, entropy@);
        }
        s.append(t.as_str());
        i += 1;
    }
    assert(parts@.take(i as int) =~= parts@);
    s
}

/// The values of some bindings, from left to right.
pub fn eval_cells(binds: &Vec<ValBind>, ctx: &RowCtx, entropy: &mut Entropy) -> (r: Vec<CellValue>)
    ensures
        continues(final(entropy)@, old(entropy)@),
        (row_view(r@), final(entropy)@.len()) == eval_all(
            binds_view(binds@),
            ctx.env(final(entropy)@),
            old(entropy)@.len(),
        ),
        r@.len() == binds@.len(),
{
    let mut out: Vec<CellValue> = Vec::new();
    let ghost start = entropy@;
    let mut i: usize = 0;
    proof {
        lemma_continues_self(start);
        assert(row_view(out@) =~= seq![]);
    }
    while i < binds.len()
        invariant
            i <= binds@.len(),
            out@.len() == i,
            start == old(entropy)@,
            continues(entropy@, start),
            (row_view(out@), entropy@.len()) == eval_all(
                binds_view(binds@.take(i as int)),
                ctx.env(entropy@),
                start.len(),
            ),
        decreases binds@.len() - i,
    {
        let ghost mid = entropy@;
        let c: CellValue = eval_valbind(&binds[i], ctx, entropy);
        proof {
            lemma_binds_take(binds@, i as int);
            let env = ctx.env(mid);
            lemma_continues(entropy@, mid, env);
            lemma_all_stable(
                binds_view(binds@.take(i as int)),
                env,
                entropy@.skip(mid.len() as int),
                start.len(),
            );
            lemma_continues_on(start, mid, entropy@);
            assert(row_view(out@.push(c)) =~= row_view(out@).push(c@));
        }
        out.push(c);
        i += 1;
    }
    assert(binds@.take(i as int) =~= binds@);
    out
}

/// Once AND has failed it stays failed, and once OR holds it stays so.
proof fn lemma_decided(v: Seq<PlanView>, k: int, env: RowEnv, rd: Reading, at: nat)
    requires
        0 <= k <= v.len(),
    ensures
        !all_hold(v.take(k), env, rd, at).0 ==> all_hold(v, env, rd, at) == all_hold(
            v.take(k),
            env,
            rd,
            at,
        ),
        any_holds(v.take(k), env, rd, at).0 ==> any_holds(v, env, rd, at) == any_holds(
            v.take(k),
            env,
            rd,
            at,
        ),
    decreases v.len() - k,
{
    if k < v.len() {
        lemma_decided(v, k + 1, env, rd, at);
        assert(v.take(k + 1).drop_last() =~= v.take(k));
    } else {
        assert(v.take(k) =~= v);
    }
}

/// Once the key is found it stays found.
proof fn lemma_key_found(v: Seq<BindView>, k: int, key: Seq<char>, env: RowEnv, at: nat)
    requires
        0 <= k <= v.len(),
        any_has_key(v.take(k), key, env, at).0,
    ensures
        any_has_key(v, key, env, at) == any_has_key(v.take(k), key, env, at),
    decreases v.len() - k,
{
    if k < v.len() {
        assert(v.take(k + 1).drop_last() =~= v.take(k));
        lemma_key_found(v, k + 1, key, env, at);
    } else {
        assert(v.take(k) =~= v);
    }
}

/// Whether one of the bindings has the key.
fn some_has_key(list: &Vec<ValBind>, key: &Option<String>, ctx: &RowCtx, entropy: &mut Entropy) -> (r:
    bool)
    requires
        key is Some,
    ensures
        continues(final(entropy)@, old(entropy)@),
        (r, final(entropy)@.len()) == any_has_key(
            binds_view(list@),
            key->0@,
            ctx.env(final(entropy)@),
            old(entropy)@.len(),
        ),
{
    let ghost start = entropy@;
    let ghost all = binds_view(list@);
    let mut i: usize = 0;
    proof {
        lemma_continues_self(start);
        lemma_binds_index(list@);
    }
    while i < list.len()
        invariant
            i <= list@.len(),
            key is Some,
            start == old(entropy)@,
            all == binds_view(list@),
            all.len() == list@.len(),
            forall|j: int| 0 <= j < list@.len() ==> #[trigger] all[j] == list@[j]@,
            continues(entropy@, start),
            (false, entropy@.len()) == any_has_key(
                all.take(i as int),
                key->0@,
                ctx.env(entropy@),
                start.len(),
            ),
        decreases list@.len() - i,
    {
        let ghost mid = entropy@;
        let c: CellValue = eval_valbind(&list[i], ctx, entropy);
        let k: Option<String> = key_of(&c);
        proof {
            let env = ctx.env(mid);
            lemma_continues(entropy@, mid, env);
            lemma_any_key_stable(
                all.take(i as int),
                key->0@,
                env,
                entropy@.skip(mid.len() as int),
                start.len(),
            );
            assert(all.take(i + 1).drop_last() =~= all.take(i as int));
            assert(all.take(i + 1).last() == list@[i as int]@);
            lemma_continues_on(start, mid, entropy@);
        }
        if same_keys(&k, key) {
            proof {
                lemma_key_found(all, i + 1, key->0@, ctx.env(entropy@), start.len());
            }
            return true;
        }
        i += 1;
    }
    assert(all.take(i as int) =~= all);
    false
}

/// Whether all conditions hold (`and`), or whether some does.
fn eval_plans<F: Fn(String) -> Option<Real>>(
    v: &Vec<CondPlan>,
    and: bool,
    ctx: &RowCtx,
    read: &F,
    entropy: &mut Entropy,
) -> (r: bool)
    requires
        is_reader(*read),
    ensures
        continues(final(entropy)@, old(entropy)@),
        (r, final(entropy)@.len()) == (if and {
            all_hold(
                plans_view(v@),
                ctx.env(final(entropy)@),
                reading(*read),
                old(entropy)@.len(),
            )
        } else {
            any_holds(
                plans_view(v@),
                ctx.env(final(entropy)@),
                reading(*read),
                old(entropy)@.len(),
            )
        }),
    decreases v,
{
    let ghost start = entropy@;
    let ghost all = plans_view(v@);
    let ghost rd = reading(*read);
    let mut i: usize = 0;
    proof {
        lemma_continues_self(start);
        lemma_plans_index(v@);
    }
    while i < v.len()
        invariant
            i <= v@.len(),
            is_reader(*read),
            rd == reading(*read),
            start == old(entropy)@,
            all == plans_view(v@),
            all.len() == v@.len(),
            forall|j: int| 0 <= j < v@.len() ==> #[trigger] all[j] == v@[j]@,
            continues(entropy@, start),
            (and, entropy@.len()) == (if and {
                all_hold(all.take(i as int), ctx.env(entropy@), rd, start.len())
            } else {
                any_holds(all.take(i as int), ctx.env(entropy@), rd, start.len())
            }),
        decreases v@.len() - i,
    {
        let ghost mid = entropy@;
        assert(decreases_to!(v => v@[i as int]));
        let h: bool = eval_cond_plan(&v[i], ctx, read, entropy);
        proof {
            let env = ctx.env(mid);
            let more = entropy@.skip(mid.len() as int);
            lemma_continues(entropy@, mid, env);
            lemma_all_hold_stable(all.take(i as int), env, rd, more, start.len());
            lemma_any_holds_stable(all.take(i as int), env, rd, more, start.len());
            assert(all.take(i + 1).drop_last() =~= all.take(i as int));
            assert(all.take(i + 1).last() == v@[i as int]@);
            lemma_continues_on(start, mid, entropy@);
        }
        if h != and {
            proof {
                lemma_decided(all, i + 1, ctx.env(entropy@), rd, start.len());
            }
            return h;
        }
        i += 1;
    }
    assert(all.take(i as int) =~= all);
    and
}

/// Whether a condition holds for a row.
pub fn eval_cond_plan<F: Fn(String) -> Option<Real>>(
    plan: &CondPlan,
    ctx: &RowCtx,
    read: &F,
    entropy: &mut Entropy,
) -> (r: bool)
    requires
        is_reader(*read),
    ensures
        continues(final(entropy)@, old(entropy)@),
        (r, final(entropy)@.len()) == holds(
            plan@,
            ctx.env(final(entropy)@),
            reading(*read),
            old(entropy)@.len(),
        ),
    decreases plan,
{
    let ghost start = entropy@;
    match plan {
        CondPlan::And(v) => eval_plans(v, true, ctx, read, entropy),
        CondPlan::Or(v) => eval_plans(v, false, ctx, read, entropy),
        CondPlan::Not(b) => {
            let h: bool = eval_cond_plan(&**b, ctx, read, entropy);
            !h
        },
        CondPlan::Compare(l, op, r) => {
            let (a, b): (CellValue, CellValue) = eval_pair(l, r, ctx, entropy);
            eval_compare(&a, *op, &b, read)
        },
        CondPlan::IsEmpty(e, negated) => {
            let c: CellValue = eval_valbind(e, ctx, entropy);
            cell_is_empty(&c) != *negated
        },
        CondPlan::In(e, list, negated) => {
            let c: CellValue = eval_valbind(e, ctx, entropy);
            let ghost mid = entropy@;
            let key: Option<String> = key_of(&c);
            if key.is_some() {
                let hit: bool = some_has_key(list, &key, ctx, entropy);
                proof {
                    let env = ctx.env(mid);
                    lemma_continues(entropy@, mid, env);
                    lemma_eval_stable(e@, env, entropy@.skip(mid.len() as int), start.len());
                    lemma_continues_on(start, mid, entropy@);
                }
                hit != *negated
            } else {
                *negated
            }
        },
        CondPlan::Like(e, pattern, negated) => {
            let (c, p): (CellValue, CellValue) = eval_pair(e, pattern, ctx, entropy);
            like_match(c.to_display_string().as_str(), p.to_display_string().as_str()) != *negated
        },
        CondPlan::Between(e, lo, hi, negated) => {
            let (c, a): (CellValue, CellValue) = eval_pair(e, lo, ctx, entropy);
            if eval_compare(&c, CmpOp::Ge, &a, read) {
                let ghost mid = entropy@;
                let b: CellValue = eval_valbind(hi, ctx, entropy);
                proof {
                    let env = ctx.env(mid);
                    let more = entropy@.skip(mid.len() as int);
                    lemma_continues(entropy@, mid, env);
                    lemma_eval_stable(e@, env, more, start.len());
                    lemma_eval_stable(lo@, env, more, eval(e@, env, start.len()).1);
                    lemma_continues_on(start, mid, entropy@);
                }
                eval_compare(&c, CmpOp::Le, &b, read) != *negated
            } else {
                *negated
            }
        },
    }
}

/// The values of two bindings, the left one first.
fn eval_pair(l: &ValBind, r: &ValBind, ctx: &RowCtx, entropy: &mut Entropy) -> (v: (
    CellValue,
    CellValue,
))
    ensures
        continues(final(entropy)@, old(entropy)@),
        ({
            let env = ctx.env(final(entropy)@);
            let (a, n) = eval(l@, env, old(entropy)@.len());
            let (b, m) = eval(r@, env, n);
            v.0@ == a && v.1@ == b && m == final(entropy)@.len() && n <= m
        }),
{
    let ghost start = entropy@;
    let a: CellValue = eval_valbind(l, ctx, entropy);
    let ghost mid = entropy@;
    let b: CellValue = eval_valbind(r, ctx, entropy);
    proof {
        let env = ctx.env(mid);
        lemma_continues(entropy@, mid, env);
        lemma_eval_stable(l@, env, entropy@.skip(mid.len() as int), start.len());
        lemma_continues_on(start, mid, entropy@);
    }
    (a, b)
}

/// The value takes no random number.
pub open spec fn is_fixed(b: BindView) -> bool
    decreases b,
{
    match b {
        BindView::Gen(k) => !draws_one(k),
        BindView::Concat(v) => all_fixed(v),
        _ => true,
    }
}

pub open spec fn all_fixed(v: Seq<BindView>) -> bool
    decreases v,
{
    v.len() == 0 || (all_fixed(v.drop_last()) && is_fixed(v.last()))
}

/// No value in the condition takes a random number.
pub open spec fn is_steady(p: PlanView) -> bool
    decreases p,
{
    match p {
        PlanView::And(v) => all_steady(v),
        PlanView::Or(v) => all_steady(v),
        PlanView::Not(b) => is_steady(*b),
        PlanView::Compare(l, _, r) => is_fixed(l) && is_fixed(r),
        PlanView::IsEmpty(e, _) => is_fixed(e),
        PlanView::In(e, list, _) => is_fixed(e) && all_fixed(list),
        PlanView::Like(e, pattern, _) => is_fixed(e) && is_fixed(pattern),
        PlanView::Between(e, lo, hi, _) => is_fixed(e) && is_fixed(lo) && is_fixed(hi),
    }
}

pub open spec fn all_steady(v: Seq<PlanView>) -> bool
    decreases v,
{
    v.len() == 0 || (all_steady(v.drop_last()) && is_steady(v.last()))
}

proof fn lemma_fixed(b: BindView, env: RowEnv, at: nat)
    requires
        is_fixed(b),
    ensures
        eval(b, env, at).1 == at,
    decreases b,
{
    if let BindView::Concat(v) = b {
        lemma_all_fixed(v, env, at);
    }
}

proof fn lemma_all_fixed(v: Seq<BindView>, env: RowEnv, at: nat)
    requires
        all_fixed(v),
    ensures
        eval_texts(v, env, at).1 == at,
    decreases v,
{
    if v.len() > 0 {
        lemma_all_fixed(v.drop_last(), env, at);
        lemma_fixed(v.last(), env, at);
    }
}

proof fn lemma_fixed_list(v: Seq<BindView>, key: Seq<char>, env: RowEnv, at: nat)
    requires
        all_fixed(v),
    ensures
        any_has_key(v, key, env, at).1 == at,
    decreases v.len(),
{
    if v.len() > 0 {
        lemma_fixed_list(v.drop_last(), key, env, at);
        lemma_fixed(v.last(), env, at);
    }
}

proof fn lemma_steady(p: PlanView, env: RowEnv, rd: Reading, at: nat)
    requires
        is_steady(p),
    ensures
        holds(p, env, rd, at).1 == at,
    decreases p,
{
    match p {
        PlanView::And(v) => {
            lemma_all_steady(v, env, rd, at);
        },
        PlanView::Or(v) => {
            lemma_all_steady(v, env, rd, at);
        },
        PlanView::Not(b) => {
            lemma_steady(*b, env, rd, at);
        },
        PlanView::Compare(l, _, r) => {
            lemma_fixed(l, env, at);
            lemma_fixed(r, env, at);
        },
        PlanView::IsEmpty(e, _) => {
            lemma_fixed(e, env, at);
        },
        PlanView::In(e, list, _) => {
            lemma_fixed(e, env, at);
            if let Some(key) = match_key(eval(e, env, at).0) {
                lemma_fixed_list(list, key, env, at);
            }
        },
        PlanView::Like(e, pattern, _) => {
            lemma_fixed(e, env, at);
            lemma_fixed(pattern, env, at);
        },
        PlanView::Between(e, lo, hi, _) => {
            lemma_fixed(e, env, at);
            lemma_fixed(lo, env, at);
            lemma_fixed(hi, env, at);
        },
    }
}

proof fn lemma_all_steady(v: Seq<PlanView>, env: RowEnv, rd: Reading, at: nat)
    requires
        all_steady(v),
    ensures
        all_hold(v, env, rd, at).1 == at,
        any_holds(v, env, rd, at).1 == at,
        all_hold(v, env, rd, at).0 <==> forall|i: int|
            0 <= i < v.len() ==> holds(#[trigger] v[i], env, rd, at).0,
        any_holds(v, env, rd, at).0 <==> exists|i: int|
            0 <= i < v.len() && holds(#[trigger] v[i], env, rd, at).0,
    decreases v,
{
    if v.len() > 0 {
        let front = v.drop_last();
        let last = v.len() - 1;
        lemma_all_steady(front, env, rd, at);
        lemma_steady(v.last(), env, rd, at);
        assert(v[last] == v.last());
        assert forall|i: int| 0 <= i < last implies front[i] == #[trigger] v[i] by {}
        if all_hold(v, env, rd, at).0 {
            assert forall|i: int| 0 <= i < v.len() implies holds(#[trigger] v[i], env, rd, at).0 by {
                if i < last {
                    assert(holds(front[i], env, rd, at).0);
                }
            }
        } else if all_hold(front, env, rd, at).0 {
            assert(!holds(v[last], env, rd, at).0);
        } else {
            let i = choose|i: int|
                0 <= i < front.len() && !holds(#[trigger] front[i], env, rd, at).0;
            assert(!holds(v[i], env, rd, at).0);
        }
        if any_holds(front, env, rd, at).0 {
            let i = choose|i: int| 0 <= i < front.len() && holds(#[trigger] front[i], env, rd, at).0;
            assert(holds(v[i], env, rd, at).0);
        } else if any_holds(v, env, rd, at).0 {
            assert(holds(v[last], env, rd, at).0);
        } else {
            assert forall|i: int| 0 <= i < v.len() implies !holds(#[trigger] v[i], env, rd, at).0 by {
                if i < last {
                    assert(!holds(front[i], env, rd, at).0);
                }
            }
        }
    }
}

/// NOT turns a condition round; AND holds where all of its conditions hold, OR
/// where one of them does, each asked for itself. AND and OR are said of
/// conditions without random values: those differ from one asking to the next.
pub proof fn law_conditions_follow_logic(
    p: PlanView,
    v: Seq<PlanView>,
    env: RowEnv,
    rd: Reading,
    at: nat,
)
    requires
        all_steady(v),
    ensures
        holds(PlanView::Not(Box::new(p)), env, rd, at).0 == !holds(p, env, rd, at).0,
        holds(PlanView::And(v), env, rd, at).0 <==> forall|i: int|
            0 <= i < v.len() ==> holds(#[trigger] v[i], env, rd, at).0,
        holds(PlanView::Or(v), env, rd, at).0 <==> exists|i: int|
            0 <= i < v.len() && holds(#[trigger] v[i], env, rd, at).0,
{
    lemma_all_steady(v, env, rd, at);
}

/// A negated test holds where the same test without NOT does not.
pub proof fn law_negated_tests_turn_round(
    e: BindView,
    list: Seq<BindView>,
    lo: BindView,
    hi: BindView,
    env: RowEnv,
    rd: Reading,
    at: nat,
)
    ensures
        holds(PlanView::IsEmpty(e, true), env, rd, at).0 == !holds(
            PlanView::IsEmpty(e, false),
            env,
            rd,
            at,
        ).0,
        holds(PlanView::In(e, list, true), env, rd, at).0 == !holds(
            PlanView::In(e, list, false),
            env,
            rd,
            at,
        ).0,
        holds(PlanView::Like(e, lo, true), env, rd, at).0 == !holds(
            PlanView::Like(e, lo, false),
            env,
            rd,
            at,
        ).0,
        holds(PlanView::Between(e, lo, hi, true), env, rd, at).0 == !holds(
            PlanView::Between(e, lo, hi, false),
            env,
            rd,
            at,
        ).0,
{
}

/// BETWEEN holds from the lower bound to the upper one, both bounds with it.
pub proof fn law_between_takes_in_its_bounds(
    e: BindView,
    lo: BindView,
    hi: BindView,
    env: RowEnv,
    rd: Reading,
    at: nat,
)
    requires
        is_fixed(e) && is_fixed(lo) && is_fixed(hi),
    ensures
        ({
            let c = eval(e, env, at).0;
            let a = cell_order(c, eval(lo, env, at).0, rd);
            let b = cell_order(c, eval(hi, env, at).0, rd);
            holds(PlanView::Between(e, lo, hi, false), env, rd, at).0 <==> (a == Some(Order::Equal)
                || a == Some(Order::Greater)) && (b == Some(Order::Equal) || b == Some(Order::Less))
        }),
{
    lemma_fixed(e, env, at);
    lemma_fixed(lo, env, at);
}

/// NULL and blank text are in no list.
pub proof fn law_blank_is_in_no_list(
    e: BindView,
    list: Seq<BindView>,
    env: RowEnv,
    rd: Reading,
    at: nat,
)
    requires
        is_blank(eval(e, env, at).0),
    ensures
        !holds(PlanView::In(e, list, false), env, rd, at).0,
{
}

/// A comparison asks its left value and its right value, in this order.
pub proof fn law_comparisons_ask_both_sides(
    l: BindView,
    op: CmpOp,
    r: BindView,
    env: RowEnv,
    rd: Reading,
    at: nat,
)
    requires
        is_fixed(l),
    ensures
        holds(PlanView::Compare(l, op, r), env, rd, at).0 == compare(
            eval(l, env, at).0,
            op,
            eval(r, env, at).0,
            rd,
        ),
{
    lemma_fixed(l, env, at);
}

/// IN holds exactly where the value is not blank and `==` holds of it and one of the list.
pub proof fn law_in_asks_for_an_equal(
    e: BindView,
    list: Seq<BindView>,
    env: RowEnv,
    rd: Reading,
    at: nat,
)
    requires
        is_fixed(e),
        all_fixed(list),
    ensures
        holds(PlanView::In(e, list, false), env, rd, at).0 <==> compare(
            eval(e, env, at).0,
            CmpOp::Ne,
            CellView::Null,
            rd,
        ) && exists|i: int|
            0 <= i < list.len() && compare(
                eval(e, env, at).0,
                CmpOp::Eq,
                eval(#[trigger] list[i], env, at).0,
                rd,
            ),
{
    lemma_fixed(e, env, at);
    if let Some(key) = match_key(eval(e, env, at).0) {
        lemma_member(list, key, env, at);
        if exists|i: int|
            0 <= i < list.len() && match_key(eval(#[trigger] list[i], env, at).0) == Some(key) {
            let i = choose|i: int|
                0 <= i < list.len() && match_key(eval(#[trigger] list[i], env, at).0) == Some(key);
            assert(compare(eval(e, env, at).0, CmpOp::Eq, eval(list[i], env, at).0, rd));
        }
        if exists|i: int|
            0 <= i < list.len() && compare(
                eval(e, env, at).0,
                CmpOp::Eq,
                eval(#[trigger] list[i], env, at).0,
                rd,
            ) {
            let i = choose|i: int|
                0 <= i < list.len() && compare(
                    eval(e, env, at).0,
                    CmpOp::Eq,
                    eval(#[trigger] list[i], env, at).0,
                    rd,
                );
            assert(match_key(eval(list[i], env, at).0) == Some(key));
        }
    }
}

proof fn lemma_member(list: Seq<BindView>, key: Seq<char>, env: RowEnv, at: nat)
    requires
        all_fixed(list),
    ensures
        any_has_key(list, key, env, at).0 <==> exists|i: int|
            0 <= i < list.len() && match_key(eval(#[trigger] list[i], env, at).0) == Some(key),
    decreases list.len(),
{
    if list.len() > 0 {
        let front = list.drop_last();
        let last = list.len() - 1;
        lemma_member(front, key, env, at);
        lemma_fixed_list(front, key, env, at);
        assert(list[last] == list.last());
        if any_has_key(front, key, env, at).0 {
            let i = choose|i: int|
                0 <= i < front.len() && match_key(eval(#[trigger] front[i], env, at).0) == Some(key);
            assert(list[i] == front[i]);
        }
        if exists|i: int|
            0 <= i < list.len() && match_key(eval(#[trigger] list[i], env, at).0) == Some(key) {
            let i = choose|i: int|
                0 <= i < list.len() && match_key(eval(#[trigger] list[i], env, at).0) == Some(key);
            if i < last {
                assert(front[i] == list[i]);
            }
        }
    }
}

/// IS EMPTY holds exactly of NULL and of text with nothing but white space in it.
pub proof fn law_empty_is_null_or_blank(e: BindView, env: RowEnv, rd: Reading, at: nat)
    ensures
        holds(PlanView::IsEmpty(e, false), env, rd, at).0 <==> (match eval(e, env, at).0 {
            CellView::Null => true,
            CellView::Text(s) => forall|i: int|
                0 <= i < s.len() ==> text::is_space(#[trigger] s[i]),
            _ => false,
        }),
{
    if let CellView::Text(s) = eval(e, env, at).0 {
        let r = text::law_trimming_takes_white_space(s);
        if r.0 < r.1 {
            assert(!text::is_space(s[r.0]));
            assert(text::trim(s).len() > 0);
        }
    }
}

/// LIKE goes by the texts of both sides, in any case: without `%` and `_` it asks for
/// the same text, and it holds of any text where the pattern is `%`.
pub proof fn law_like_goes_by_the_text(
    e: BindView,
    p: BindView,
    env: RowEnv,
    rd: Reading,
    at: nat,
)
    requires
        is_fixed(e),
        text::is_ascii_text(cell_text(eval(e, env, at).0)),
        text::is_ascii_text(cell_text(eval(p, env, at).0)),
    ensures
        (forall|i: int|
            0 <= i < cell_text(eval(p, env, at).0).len() ==> (#[trigger] cell_text(
                eval(p, env, at).0,
            )[i]) != '%' && cell_text(eval(p, env, at).0)[i] != '_') ==> (holds(
            PlanView::Like(e, p, false),
            env,
            rd,
            at,
        ).0 <==> text::same_ignoring_case(
            cell_text(eval(e, env, at).0),
            cell_text(eval(p, env, at).0),
        )),
        cell_text(eval(p, env, at).0) == seq!['%'] ==> holds(
            PlanView::Like(e, p, false),
            env,
            rd,
            at,
        ).0,
{
    lemma_fixed(e, env, at);
    let v = text::lower(cell_text(eval(e, env, at).0));
    let t = cell_text(eval(p, env, at).0);
    let q = text::lower(t);
    if forall|i: int| 0 <= i < t.len() ==> (#[trigger] t[i]) != '%' && t[i] != '_' {
        assert forall|i: int| 0 <= i < q.len() implies q[i] != '%' && q[i] != '_' by {
            assert(q[i] == text::lower_char(t[i]));
        }
        law_plain_pattern_matches_itself(v, q);
    }
    if t == seq!['%'] {
        assert(q =~= seq!['%']);
        law_percent_takes_any(v, q);
        assert(v.skip(v.len() as int) =~= seq![]);
        assert(q.skip(1) =~= seq![]);
        assert(like(v.skip(v.len() as int), q.skip(1)));
    }
}

/// `+` puts the texts of its values one behind the other, NULL as nothing.
pub proof fn law_concatenation_puts_texts_together(
    a: Seq<BindView>,
    b: BindView,
    env: RowEnv,
    at: nat,
)
    requires
        all_fixed(a),
    ensures
        eval(BindView::Concat(seq![]), env, at).0 == CellView::Text(seq![]),
        eval(BindView::Concat(a), env, at).0 matches CellView::Text(t) && eval(
            BindView::Concat(a.push(b)),
            env,
            at,
        ).0 == CellView::Text(t + cell_text(eval(b, env, at).0)),
        cell_text(CellView::Null) == Seq::<char>::empty(),
{
    assert(a.push(b).drop_last() =~= a);
    lemma_all_fixed(a, env, at);
}

/// A constant is its own value, a source column has the cell of the row at its place, and a
/// lookup column that of the row that was found; where there is no such cell, and where the
/// lookup found nothing, the value is NULL.
pub proof fn law_values_are_read_in_place(c: CellView, i: usize, j: usize, env: RowEnv, at: nat)
    ensures
        eval(BindView::Const(c), env, at) == (c, at),
        i < env.row.len() ==> eval(BindView::Source(i), env, at) == (env.row[i as int], at),
        i >= env.row.len() ==> eval(BindView::Source(i), env, at) == (CellView::Null, at),
        j >= env.joins.len() || env.joins[j as int] is None ==> eval(BindView::Join(j, i), env, at)
            == (CellView::Null, at),
        j < env.joins.len() && env.joins[j as int] is Some && i < env.joins[j as int]->0.len()
            ==> eval(BindView::Join(j, i), env, at) == (env.joins[j as int]->0[i as int], at),
{
}

/// AND asks no further once a condition fails, and OR once one holds: what stands behind it
/// changes neither the answer nor the random numbers that are left.
pub proof fn law_decided_conditions_ask_no_further(
    v: Seq<PlanView>,
    p: PlanView,
    env: RowEnv,
    rd: Reading,
    at: nat,
)
    ensures
        !holds(PlanView::And(v), env, rd, at).0 ==> holds(PlanView::And(v.push(p)), env, rd, at)
            == holds(PlanView::And(v), env, rd, at),
        holds(PlanView::Or(v), env, rd, at).0 ==> holds(PlanView::Or(v.push(p)), env, rd, at)
            == holds(PlanView::Or(v), env, rd, at),
        holds(PlanView::And(v), env, rd, at).0 ==> holds(PlanView::And(v.push(p)), env, rd, at)
            == holds(p, env, rd, holds(PlanView::And(v), env, rd, at).1),
        !holds(PlanView::Or(v), env, rd, at).0 ==> holds(PlanView::Or(v.push(p)), env, rd, at)
            == holds(p, env, rd, holds(PlanView::Or(v), env, rd, at).1),
{
    let w = v.push(p);
    assert(w.drop_last() =~= v);
    let a = all_hold(v, env, rd, at);
    let o = any_holds(v, env, rd, at);
    assert(holds(PlanView::And(v), env, rd, at) == a);
    assert(holds(PlanView::Or(v), env, rd, at) == o);
    assert(holds(PlanView::And(w), env, rd, at) == all_hold(w, env, rd, at));
    assert(holds(PlanView::Or(w), env, rd, at) == any_holds(w, env, rd, at));
    if !a.0 {
        assert(all_hold(w, env, rd, at) == (false, a.1));
        assert(a == (false, a.1));
    }
    if o.0 {
        assert(any_holds(w, env, rd, at) == (true, o.1));
        assert(o == (true, o.1));
    }
}

} // verus!
