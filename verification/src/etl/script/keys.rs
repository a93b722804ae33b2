//! How values are matched and compared: lookup keys, order, and LIKE patterns.
use crate::double::{
    ask, as_i64, is_reader, law_whole_doubles_are_in_order, order_reals, reading, real_order,
    to_i64, Order, Real, RealView, Reading,
};
use crate::etl::script::ast::CmpOp;
use crate::etl::script::readback::values::lemma_int_text;
use crate::models::calendar::{day_text, stamp_text};
use crate::models::value::{bool_text, row_view, CellValue, CellView};
use crate::text;
use vstd::prelude::*;

verus! {

/// The key that a value is matched by: text without white space at its ends and
/// in lower case, a whole double as the integer it is. NULL and blank text have none.
pub open spec fn match_key(c: CellView) -> Option<Seq<char>> {
    match c {
        CellView::Null => None,
        CellView::Text(s) => {
            let t = text::lower(text::trim(s));
            if t.len() == 0 {
                None
            } else {
                Some(t)
            }
        },
        CellView::Int(v) => Some(text::int_text(v as int)),
        CellView::Float(f) => match as_i64(f.bits) {
            Some(i) => if i == i64::MIN {
                Some(f.text)
            } else {
                Some(text::int_text(i as int))
            },
            None => Some(f.text),
        },
        CellView::Bool(b) => Some(bool_text(b)),
        CellView::DateTime(t) => Some(stamp_text(t)),
        CellView::Date(d) => Some(day_text(d)),
    }
}

/// Every cell has a key.
pub open spec fn all_keyed(cells: Seq<CellView>) -> bool {
    forall|i: int| 0 <= i < cells.len() ==> match_key(#[trigger] cells[i]) is Some
}

/// The key of several cells together; there is none where one of them has none.
pub open spec fn compose_key(cells: Seq<CellView>) -> Option<Seq<char>> {
    if all_keyed(cells) {
        Some(
            text::join_seq(
                Seq::new(cells.len(), |i: int| match_key(cells[i])->0),
                seq!['\u{1f}'],
            ),
        )
    } else {
        None
    }
}

/// The number that a value stands for, as the bits of a double.
pub open spec fn as_number(c: CellView, rd: Reading) -> Option<u64> {
    match c {
        CellView::Int(v) => match rd(text::int_text(v as int)) {
            Some(r) => Some(r.bits),
            None => None,
        },
        CellView::Float(v) => Some(v.bits),
        CellView::Text(s) => match rd(text::trim(s)) {
            Some(r) => Some(r.bits),
            None => None,
        },
        _ => None,
    }
}

/// Dictionary order.
pub open spec fn text_order(a: Seq<char>, b: Seq<char>) -> Order
    decreases a.len(),
{
    if a.len() == 0 && b.len() == 0 {
        Order::Equal
    } else if a.len() == 0 {
        Order::Less
    } else if b.len() == 0 {
        Order::Greater
    } else if a[0] < b[0] {
        Order::Less
    } else if b[0] < a[0] {
        Order::Greater
    } else {
        text_order(a.skip(1), b.skip(1))
    }
}

/// How one value stands to another: as numbers where both are, else by their keys.
pub open spec fn cell_order(l: CellView, r: CellView, rd: Reading) -> Option<Order> {
    match (as_number(l, rd), as_number(r, rd)) {
        (Some(a), Some(b)) => real_order(a, b),
        _ => match (match_key(l), match_key(r)) {
            (Some(a), Some(b)) => Some(text_order(a, b)),
            _ => None,
        },
    }
}

/// Whether a comparison holds.
pub open spec fn compare(l: CellView, op: CmpOp, r: CellView, rd: Reading) -> bool {
    match op {
        CmpOp::Eq => match_key(l) == match_key(r),
        CmpOp::Ne => match_key(l) != match_key(r),
        CmpOp::Gt => cell_order(l, r, rd) == Some(Order::Greater),
        CmpOp::Lt => cell_order(l, r, rd) == Some(Order::Less),
        CmpOp::Ge => cell_order(l, r, rd) == Some(Order::Greater) || cell_order(l, r, rd) == Some(
            Order::Equal,
        ),
        CmpOp::Le => cell_order(l, r, rd) == Some(Order::Less) || cell_order(l, r, rd) == Some(
            Order::Equal,
        ),
    }
}

/// NULL or blank text.
pub open spec fn is_blank(c: CellView) -> bool {
    match c {
        CellView::Null => true,
        CellView::Text(s) => text::trim(s).len() == 0,
        _ => false,
    }
}

/// The text matches the pattern: `%` stands for any characters, `_` for any one
/// character, everything else for itself.
pub open spec fn like(v: Seq<char>, p: Seq<char>) -> bool
    decreases v.len() + p.len(),
{
    if p.len() == 0 {
        v.len() == 0
    } else if p[0] == '%' {
        like(v, p.skip(1)) || (v.len() > 0 && like(v.skip(1), p))
    } else {
        v.len() > 0 && (p[0] == '_' || p[0] == v[0]) && like(v.skip(1), p.skip(1))
    }
}

/// Some end of the text from `from` on matches the pattern.
pub open spec fn like_later(v: Seq<char>, p: Seq<char>, from: int) -> bool {
    exists|k: int| from <= k <= v.len() && like(#[trigger] v.skip(k), p)
}

/// A leading `%` takes any number of characters.
pub proof fn law_percent_takes_any(v: Seq<char>, p: Seq<char>)
    requires
        p.len() > 0,
        p[0] == '%',
    ensures
        like(v, p) <==> like_later(v, p.skip(1), 0),
    decreases v.len(),
{
    assert(v.skip(0) =~= v);
    if v.len() > 0 {
        law_percent_takes_any(v.skip(1), p);
        if like_later(v.skip(1), p.skip(1), 0) {
            let k = choose|k: int|
                0 <= k <= v.skip(1).len() && like(#[trigger] v.skip(1).skip(k), p.skip(1));
            assert(v.skip(1).skip(k) =~= v.skip(k + 1));
            assert(like(v.skip(k + 1), p.skip(1)));
        }
        if like_later(v, p.skip(1), 0) {
            let k = choose|k: int| 0 <= k <= v.len() && like(#[trigger] v.skip(k), p.skip(1));
            if k > 0 {
                assert(v.skip(1).skip(k - 1) =~= v.skip(k));
                assert(like(v.skip(1).skip(k - 1), p.skip(1)));
            }
        }
    } else {
        if like_later(v, p.skip(1), 0) {
            let k = choose|k: int| 0 <= k <= v.len() && like(#[trigger] v.skip(k), p.skip(1));
            assert(v.skip(k) =~= v);
        }
    }
}

/// Where a text matches some fixed characters, a `%` and a rest, the rest
/// matches an end of the text behind the fixed characters.
proof fn lemma_like_segment(v: Seq<char>, p: Seq<char>, n: int)
    requires
        0 <= n < p.len(),
        p[n] == '%',
        forall|i: int| 0 <= i < n ==> p[i] != '%',
        like(v, p),
    ensures
        like_later(v, p.skip(n + 1), n),
    decreases n,
{
    if n == 0 {
        law_percent_takes_any(v, p);
    } else {
        let q = p.skip(1);
        assert(forall|i: int| 0 <= i < n - 1 ==> q[i] == p[i + 1]);
        assert(q[n - 1] == p[n]);
        lemma_like_segment(v.skip(1), q, n - 1);
        let k = choose|k: int|
            n - 1 <= k <= v.skip(1).len() && like(#[trigger] v.skip(1).skip(k), q.skip(n));
        assert(v.skip(1).skip(k) =~= v.skip(k + 1));
        assert(q.skip(n) =~= p.skip(n + 1));
        assert(like(v.skip(k + 1), p.skip(n + 1)));
    }
}

/// Only `%` is left, so nothing need be.
proof fn lemma_like_end(p: Seq<char>)
    ensures
        like(seq![], p) <==> forall|i: int| 0 <= i < p.len() ==> p[i] == '%',
    decreases p.len(),
{
    if p.len() > 0 {
        lemma_like_end(p.skip(1));
        if p[0] == '%' {
            assert(forall|i: int| 0 <= i < p.len() - 1 ==> p.skip(1)[i] == p[i + 1]);
            if forall|i: int| 0 <= i < p.skip(1).len() ==> p.skip(1)[i] == '%' {
                assert forall|i: int| 0 <= i < p.len() implies p[i] == '%' by {
                    if i > 0 {
                        assert(p.skip(1)[i - 1] == '%');
                    }
                }
            }
        }
    }
}

/// Whether a text matches a LIKE pattern, in any case.
pub fn like_match(value: &str, pattern: &str) -> (r: bool)
    ensures
        r == like(text::lower(value@), text::lower(pattern@)),
{
    let vs: String = text::to_lower(value);
    let ps: String = text::to_lower(pattern);
    let v: Vec<char> = text::chars_of(vs.as_str());
    let p: Vec<char> = text::chars_of(ps.as_str());
    like_chars(&v, &p)
}

/// The greedy match: on a mismatch the last `%` takes one character more.
fn like_chars(v: &Vec<char>, p: &Vec<char>) -> (r: bool)
    ensures
        r == like(v@, p@),
{
    let n: usize = v.len();
    let m: usize = p.len();
    let mut vi: usize = 0;
    let mut pi: usize = 0;
    // The place of the last `%` and how far the text was when it was met.
    let mut star: Option<(usize, usize)> = None;
    assert(v@.skip(0) =~= v@ && p@.skip(0) =~= p@);
    while vi < n
        invariant
            vi <= n == v@.len(),
            pi <= m == p@.len(),
            match star {
                None => like(v@, p@) == like(v@.skip(vi as int), p@.skip(pi as int)),
                Some((sp, sv)) => {
                    &&& sp < pi
                    &&& sv <= vi
                    &&& vi - sv == pi - (sp + 1)
                    &&& p@[sp as int] == '%'
                    &&& forall|i: int| sp < i < pi ==> p@[i] != '%'
                    &&& like(v@, p@) == (like(v@.skip(vi as int), p@.skip(pi as int)) || like_later(
                        v@,
                        p@.skip(sp + 1),
                        sv + 1,
                    ))
                },
            },
        decreases
            n - (match star {
                Some((_, sv)) => sv as int,
                None => -1int,
            }),
            m - pi,
            n - vi,
    {
        let ghost vr = v@.skip(vi as int);
        let ghost pr = p@.skip(pi as int);
        proof {
            assert(vr.skip(1) =~= v@.skip(vi + 1));
            if pi < m {
                assert(pr.skip(1) =~= p@.skip(pi + 1));
                assert(pr[0] == p@[pi as int]);
            }
            assert(vr[0] == v@[vi as int]);
        }
        if pi < m && p[pi] == '%' {
            proof {
                law_percent_takes_any(vr, pr);
                let tail = p@.skip(pi + 1);
                // What an earlier `%` could still reach, this one reaches too.
                if let Some((sp, sv)) = star {
                    if like_later(v@, p@.skip(sp + 1), sv + 1) {
                        let k = choose|k: int|
                            sv + 1 <= k <= v@.len() && like(#[trigger] v@.skip(k), p@.skip(sp + 1));
                        let q = p@.skip(sp + 1);
                        let seg = pi - (sp + 1);
                        assert(q[seg] == '%');
                        assert forall|i: int| 0 <= i < seg implies q[i] != '%' by {
                            assert(q[i] == p@[sp + 1 + i]);
                        }
                        lemma_like_segment(v@.skip(k), q, seg);
                        let j = choose|j: int|
                            seg <= j <= v@.skip(k).len() && like(
                                #[trigger] v@.skip(k).skip(j),
                                q.skip(seg + 1),
                            );
                        assert(v@.skip(k).skip(j) =~= vr.skip(k + j - vi));
                        assert(q.skip(seg + 1) =~= tail);
                        assert(like(vr.skip(k + j - vi), tail));
                        assert(like_later(vr, pr.skip(1), 0));
                    }
                }
                assert(like(v@, p@) == like_later(vr, tail, 0));
                assert(like_later(vr, tail, 0) == (like(vr, tail) || like_later(
                    v@,
                    tail,
                    vi + 1,
                ))) by {
                    assert(vr.skip(0) =~= vr);
                    if like_later(vr, tail, 0) {
                        let k = choose|k: int| 0 <= k <= vr.len() && like(#[trigger] vr.skip(k), tail);
                        if k > 0 {
                            assert(v@.skip(vi + k) =~= vr.skip(k));
                            assert(like(v@.skip(vi + k), tail));
                        }
                    }
                    if like_later(v@, tail, vi + 1) {
                        let k = choose|k: int|
                            vi + 1 <= k <= v@.len() && like(#[trigger] v@.skip(k), tail);
                        assert(vr.skip(k - vi) =~= v@.skip(k));
                        assert(like(vr.skip(k - vi), tail));
                    }
                    if like(vr, tail) {
                        assert(like(vr.skip(0), tail));
                    }
                }
            }
            star = Some((pi, vi));
            pi += 1;
        } else if pi < m && (p[pi] == '_' || p[pi] == v[vi]) {
            vi += 1;
            pi += 1;
        } else {
            match star {
                Some((sp, sv)) => {
                    proof {
                        assert(!like(vr, pr));
                        let tail = p@.skip(sp + 1);
                        assert(like_later(v@, tail, sv + 1) == (like(v@.skip(sv + 1), tail)
                            || like_later(v@, tail, sv + 2))) by {
                            if like_later(v@, tail, sv + 1) {
                                let k = choose|k: int|
                                    sv + 1 <= k <= v@.len() && like(#[trigger] v@.skip(k), tail);
                                if k > sv + 1 {
                                    assert(like(v@.skip(k), tail));
                                }
                            }
                        }
                    }
                    pi = sp + 1;
                    vi = sv + 1;
                    star = Some((sp, sv + 1));
                },
                None => {
                    return false;
                },
            }
        }
    }
    proof {
        assert(v@.skip(vi as int) =~= seq![]);
        lemma_like_end(p@.skip(pi as int));
        if let Some((sp, sv)) = star {
            if like_later(v@, p@.skip(sp + 1), sv + 1) {
                // A later start leaves fewer characters than the fixed part needs.
                let k = choose|k: int|
                    sv + 1 <= k <= v@.len() && like(#[trigger] v@.skip(k), p@.skip(sp + 1));
                lemma_like_needs(v@.skip(k), p@.skip(sp + 1), pi - (sp + 1));
            }
        }
    }
    let ghost start = pi;
    while pi < m && p[pi] == '%'
        invariant
            start <= pi <= m == p@.len(),
            forall|i: int| start <= i < pi ==> p@[i] == '%',
        decreases m - pi,
    {
        pi += 1;
    }
    proof {
        let tail = p@.skip(start as int);
        if pi == m {
            assert forall|i: int| 0 <= i < tail.len() implies tail[i] == '%' by {
                assert(tail[i] == p@[start + i]);
            }
        } else {
            assert(tail[pi - start] != '%');
        }
    }
    pi == m
}

/// A text that matches a pattern has a character for each of its fixed characters.
proof fn lemma_like_needs(v: Seq<char>, p: Seq<char>, n: int)
    requires
        0 <= n <= p.len(),
        forall|i: int| 0 <= i < n ==> p[i] != '%',
        like(v, p),
    ensures
        n <= v.len(),
    decreases n,
{
    if n > 0 {
        let q = p.skip(1);
        assert(forall|i: int| 0 <= i < n - 1 ==> q[i] == p[i + 1]);
        lemma_like_needs(v.skip(1), q, n - 1);
    }
}

/// The key that a value is matched by.
pub fn key_of(cell: &CellValue) -> (r: Option<String>)
    ensures
        text::opt_view(r) == match_key(cell@),
{
    match cell {
        CellValue::Null => None,
        CellValue::Text(s) => {
            let t: String = text::to_lower(text::trimmed(s.as_str()).as_str());
            if t.as_str().is_empty() { None } else { Some(t) }
        },
        CellValue::Int(v) => Some(text::i64_text(*v)),
        CellValue::Float(f) => match to_i64(f.bits) {
            Some(i) => if i == i64::MIN {
                Some(f.text.clone())
            } else {
                Some(text::i64_text(i))
            },
            None => Some(f.text.clone()),
        },
        CellValue::Bool(b) => Some(if *b { "true".to_string() } else { "false".to_string() }),
        CellValue::DateTime(t) => Some(t.show()),
        CellValue::Date(d) => Some(d.show()),
    }
}

/// The key of the first `n` cells together.
pub fn key_of_cells(cells: &Vec<CellValue>, n: usize) -> (r: Option<String>)
    requires
        n <= cells@.len(),
    ensures
        text::opt_view(r) == compose_key(row_view(cells@).take(n as int)),
{
    let ghost all = row_view(cells@).take(n as int);
    let mut parts: Vec<String> = Vec::new();
    let mut i: usize = 0;
    while i < n
        invariant
            i <= n <= cells@.len(),
            all == row_view(cells@).take(n as int),
            parts@.len() == i,
            forall|j: int|
                0 <= j < i ==> match_key(#[trigger] all[j]) == Some(parts@[j]@),
        decreases n - i,
    {
        assert(all[i as int] == cells@[i as int]@);
        match key_of(&cells[i]) {
            Some(k) => {
                parts.push(k);
            },
            None => {
                assert(match_key(all[i as int]) is None);
                return None;
            },
        }
        i += 1;
    }
    proof {
        assert(text::views(parts@) =~= Seq::new(all.len(), |j: int| match_key(all[j])->0));
        reveal_strlit("\u{1f}");
        assert("\u{1f}"@ =~= seq!['\u{1f}']);
    }
    Some(text::join(&parts, "\u{1f}"))
}

/// Dictionary order.
pub fn order_texts(a: &str, b: &str) -> (r: Order)
    ensures
        r == text_order(a@, b@),
{
    let x: Vec<char> = text::chars_of(a);
    let y: Vec<char> = text::chars_of(b);
    let mut i: usize = 0;
    assert(a@.skip(0) =~= a@ && b@.skip(0) =~= b@);
    loop
        invariant
            i <= x@.len(),
            i <= y@.len(),
            x@ == a@,
            y@ == b@,
            text_order(a@, b@) == text_order(a@.skip(i as int), b@.skip(i as int)),
        decreases x@.len() - i,
    {
        let ghost p = a@.skip(i as int);
        let ghost q = b@.skip(i as int);
        if i >= x.len() {
            return if i >= y.len() { Order::Equal } else { Order::Less };
        }
        if i >= y.len() {
            return Order::Greater;
        }
        assert(p[0] == x@[i as int] && q[0] == y@[i as int]);
        if x[i] < y[i] {
            return Order::Less;
        }
        if y[i] < x[i] {
            return Order::Greater;
        }
        assert(p.skip(1) =~= a@.skip(i + 1) && q.skip(1) =~= b@.skip(i + 1));
        i += 1;
    }
}

/// The number that a value stands for, as the bits of a double.
pub fn number_of<F: Fn(String) -> Option<Real>>(cell: &CellValue, read: &F) -> (r: Option<u64>)
    requires
        is_reader(*read),
    ensures
        r == as_number(cell@, reading(*read)),
{
    match cell {
        CellValue::Int(v) => match ask(read, text::i64_text(*v)) {
            Some(x) => Some(x.bits),
            None => None,
        },
        CellValue::Float(v) => Some(v.bits),
        CellValue::Text(s) => match ask(read, text::trimmed(s.as_str())) {
            Some(x) => Some(x.bits),
            None => None,
        },
        _ => None,
    }
}

/// Whether two optional texts are the same.
pub fn same_keys(a: &Option<String>, b: &Option<String>) -> (r: bool)
    ensures
        r == (text::opt_view(*a) == text::opt_view(*b)),
{
    match (a, b) {
        (Some(x), Some(y)) => text::same(x.as_str(), y.as_str()),
        (None, None) => true,
        _ => false,
    }
}

/// How one value stands to another.
pub fn order_cells<F: Fn(String) -> Option<Real>>(left: &CellValue, right: &CellValue, read: &F) -> (r:
    Option<Order>)
    requires
        is_reader(*read),
    ensures
        r == cell_order(left@, right@, reading(*read)),
{
    match (number_of(left, read), number_of(right, read)) {
        (Some(a), Some(b)) => order_reals(a, b),
        _ => match (key_of(left), key_of(right)) {
            (Some(a), Some(b)) => Some(order_texts(a.as_str(), b.as_str())),
            _ => None,
        },
    }
}

/// Whether a comparison holds.
pub fn eval_compare<F: Fn(String) -> Option<Real>>(
    left: &CellValue,
    op: CmpOp,
    right: &CellValue,
    read: &F,
) -> (r: bool)
    requires
        is_reader(*read),
    ensures
        r == compare(left@, op, right@, reading(*read)),
{
    match op {
        CmpOp::Eq => same_keys(&key_of(left), &key_of(right)),
        CmpOp::Ne => !same_keys(&key_of(left), &key_of(right)),
        CmpOp::Gt => match order_cells(left, right, read) {
            Some(Order::Greater) => true,
            _ => false,
        },
        CmpOp::Lt => match order_cells(left, right, read) {
            Some(Order::Less) => true,
            _ => false,
        },
        CmpOp::Ge => match order_cells(left, right, read) {
            Some(Order::Greater) => true,
            Some(Order::Equal) => true,
            _ => false,
        },
        CmpOp::Le => match order_cells(left, right, read) {
            Some(Order::Less) => true,
            Some(Order::Equal) => true,
            _ => false,
        },
    }
}

/// Whether a value is NULL or blank text.
pub fn cell_is_empty(cell: &CellValue) -> (r: bool)
    ensures
        r == is_blank(cell@),
{
    match cell {
        CellValue::Null => true,
        CellValue::Text(s) => text::trimmed(s.as_str()).as_str().is_empty(),
        _ => false,
    }
}

/// A composite key is missing exactly where one of its cells has none.
pub proof fn law_blank_cells_have_no_key(cells: Seq<CellView>)
    ensures
        (exists|i: int| 0 <= i < cells.len() && match_key(#[trigger] cells[i]) is None)
            <==> compose_key(cells) is None,
{
}

/// Parts without the separator can be told from the text that they are joined to.
pub(crate) proof fn lemma_join_apart(a: Seq<Seq<char>>, b: Seq<Seq<char>>, sep: char)
    requires
        a.len() == b.len(),
        forall|i: int| 0 <= i < a.len() ==> !(#[trigger] a[i]).contains(sep),
        forall|i: int| 0 <= i < b.len() ==> !(#[trigger] b[i]).contains(sep),
        text::join_seq(a, seq![sep]) == text::join_seq(b, seq![sep]),
    ensures
        a == b,
    decreases a.len(),
{
    if a.len() == 0 {
        assert(a =~= b);
    } else if a.len() == 1 {
        assert(a =~= b);
    } else {
        let x = text::join_seq(a, seq![sep]);
        let fa = text::join_seq(a.drop_last(), seq![sep]);
        let fb = text::join_seq(b.drop_last(), seq![sep]);
        let n = fa.len() as int;
        let m = fb.len() as int;
        let la = a[a.len() - 1];
        let lb = b[b.len() - 1];
        assert(x == fa + seq![sep] + la);
        assert(x == fb + seq![sep] + lb);
        assert(x[n] == sep && x[m] == sep);
        if n < m {
            assert(x[m] == la[m - n - 1]);
            assert(la.contains(sep));
        }
        if m < n {
            assert(x[n] == lb[n - m - 1]);
            assert(lb.contains(sep));
        }
        assert(fa =~= x.take(n));
        assert(fb =~= x.take(n));
        assert(la =~= x.skip(n + 1));
        assert(lb =~= x.skip(n + 1));
        assert forall|i: int| 0 <= i < a.len() - 1 implies !(#[trigger] a.drop_last()[i]).contains(
            sep,
        ) by {
            assert(a.drop_last()[i] == a[i]);
        }
        assert forall|i: int| 0 <= i < b.len() - 1 implies !(#[trigger] b.drop_last()[i]).contains(
            sep,
        ) by {
            assert(b.drop_last()[i] == b[i]);
        }
        lemma_join_apart(a.drop_last(), b.drop_last(), sep);
        assert(a =~= a.drop_last().push(la));
        assert(b =~= b.drop_last().push(lb));
    }
}

/// Rows of cells match by a composite key exactly where they match cell by
/// cell, as long as no cell holds the separator of composite keys.
pub proof fn law_composite_keys_match_cell_by_cell(a: Seq<CellView>, b: Seq<CellView>)
    requires
        a.len() == b.len(),
        all_keyed(a),
        all_keyed(b),
        forall|i: int| 0 <= i < a.len() ==> !(match_key(#[trigger] a[i])->0).contains('\u{1f}'),
        forall|i: int| 0 <= i < b.len() ==> !(match_key(#[trigger] b[i])->0).contains('\u{1f}'),
    ensures
        compose_key(a) == compose_key(b) <==> forall|i: int|
            0 <= i < a.len() ==> match_key(#[trigger] a[i]) == match_key(b[i]),
{
    let x = Seq::new(a.len(), |i: int| match_key(a[i])->0);
    let y = Seq::new(b.len(), |i: int| match_key(b[i])->0);
    if compose_key(a) == compose_key(b) {
        lemma_join_apart(x, y, '\u{1f}');
        assert forall|i: int| 0 <= i < a.len() implies match_key(#[trigger] a[i]) == match_key(
            b[i],
        ) by {
            assert(x[i] == y[i]);
            assert(match_key(b[i]) is Some);
        }
    } else if forall|i: int| 0 <= i < a.len() ==> match_key(#[trigger] a[i]) == match_key(b[i]) {
        assert(x =~= y);
    }
}

/// The texts swapped stand the other way round, and only equal texts are equal in order.
proof fn lemma_text_order(a: Seq<char>, b: Seq<char>)
    ensures
        text_order(a, b) == Order::Less <==> text_order(b, a) == Order::Greater,
        text_order(a, b) == Order::Equal <==> a == b,
    decreases a.len(),
{
    if a.len() > 0 && b.len() > 0 && a[0] == b[0] {
        lemma_text_order(a.skip(1), b.skip(1));
        assert(a =~= seq![a[0]] + a.skip(1));
        assert(b =~= seq![b[0]] + b.skip(1));
    } else if a.len() == 0 && b.len() == 0 {
        assert(a =~= b);
    }
}

/// A text comes before another exactly where it is a shorter beginning of it, or
/// has the lower character at the first place where the two differ.
pub proof fn law_texts_are_in_dictionary_order(a: Seq<char>, b: Seq<char>)
    ensures
        text_order(a, b) == Order::Equal <==> a == b,
        text_order(a, b) == Order::Less <==> text_order(b, a) == Order::Greater,
        text_order(a, b) == Order::Less <==> ((a.len() < b.len() && a == b.take(a.len() as int))
            || exists|k: int|
            0 <= k < a.len() && k < b.len() && a.take(k) == b.take(k) && #[trigger] a[k] < b[k]),
    decreases a.len(),
{
    lemma_text_order(a, b);
    if a.len() == 0 {
        assert(a =~= b.take(0));
    } else if b.len() > 0 {
        let x = a.skip(1);
        let y = b.skip(1);
        if a[0] < b[0] {
            assert(a.take(0) =~= b.take(0));
        } else if a[0] == b[0] {
            law_texts_are_in_dictionary_order(x, y);
            if text_order(a, b) == Order::Less {
                if x.len() < y.len() && x == y.take(x.len() as int) {
                    assert forall|i: int| 0 <= i < a.len() implies a[i] == b[i] by {
                        if i > 0 {
                            assert(x[i - 1] == y.take(x.len() as int)[i - 1]);
                        }
                    }
                    assert(a =~= b.take(a.len() as int));
                } else {
                    let k = choose|k: int|
                        0 <= k < x.len() && k < y.len() && x.take(k) == y.take(k) && #[trigger] x[k]
                            < y[k];
                    assert forall|i: int| 0 <= i < k + 1 implies a[i] == b[i] by {
                        if i > 0 {
                            assert(x.take(k)[i - 1] == y.take(k)[i - 1]);
                        }
                    }
                    assert(a.take(k + 1) =~= b.take(k + 1));
                    assert(a[k + 1] < b[k + 1]);
                }
            }
            if a.len() < b.len() && a == b.take(a.len() as int) {
                assert forall|i: int| 0 <= i < x.len() implies x[i] == y[i] by {
                    assert(a[i + 1] == b.take(a.len() as int)[i + 1]);
                }
                assert(x =~= y.take(x.len() as int));
            }
            if exists|k: int|
                0 <= k < a.len() && k < b.len() && a.take(k) == b.take(k) && #[trigger] a[k] < b[k] {
                let k = choose|k: int|
                    0 <= k < a.len() && k < b.len() && a.take(k) == b.take(k) && #[trigger] a[k]
                        < b[k];
                assert forall|i: int| 0 <= i < k - 1 implies x[i] == y[i] by {
                    assert(a.take(k)[i + 1] == b.take(k)[i + 1]);
                }
                assert(x.take(k - 1) =~= y.take(k - 1));
                assert(x[k - 1] < y[k - 1]);
            }
        } else {
            if a.len() < b.len() && a == b.take(a.len() as int) {
                assert(a[0] == b.take(a.len() as int)[0]);
            }
            if exists|k: int|
                0 <= k < a.len() && k < b.len() && a.take(k) == b.take(k) && #[trigger] a[k] < b[k] {
                let k = choose|k: int|
                    0 <= k < a.len() && k < b.len() && a.take(k) == b.take(k) && #[trigger] a[k]
                        < b[k];
                if k > 0 {
                    assert(a.take(k)[0] == b.take(k)[0]);
                }
            }
        }
    }
}

/// `!=` holds exactly where `==` does not. `==` holds of every value and itself,
/// of two values in either order, and of two values that equal a third.
pub proof fn law_equality(a: CellView, b: CellView, c: CellView, rd: Reading)
    ensures
        compare(a, CmpOp::Ne, b, rd) == !compare(a, CmpOp::Eq, b, rd),
        compare(a, CmpOp::Eq, a, rd),
        compare(a, CmpOp::Eq, b, rd) == compare(b, CmpOp::Eq, a, rd),
        compare(a, CmpOp::Eq, b, rd) && compare(b, CmpOp::Eq, c, rd) ==> compare(
            a,
            CmpOp::Eq,
            c,
            rd,
        ),
{
}

/// `>` is `<` with the sides swapped, and `>=` is `<=` with the sides swapped.
/// At most one of `<` and `>` holds. Where one of the four holds the sides can be
/// compared: then `>=` is not `<` and `<=` is not `>`. Where none holds, not even
/// `<=` and `>=` do.
pub proof fn law_order_of_values(l: CellView, r: CellView, rd: Reading)
    ensures
        compare(l, CmpOp::Gt, r, rd) == compare(r, CmpOp::Lt, l, rd),
        compare(l, CmpOp::Ge, r, rd) == compare(r, CmpOp::Le, l, rd),
        !(compare(l, CmpOp::Lt, r, rd) && compare(l, CmpOp::Gt, r, rd)),
        compare(l, CmpOp::Lt, r, rd) ==> compare(l, CmpOp::Le, r, rd),
        compare(l, CmpOp::Gt, r, rd) ==> compare(l, CmpOp::Ge, r, rd),
        compare(l, CmpOp::Lt, r, rd) ==> !compare(l, CmpOp::Ge, r, rd),
        compare(l, CmpOp::Gt, r, rd) ==> !compare(l, CmpOp::Le, r, rd),
        compare(l, CmpOp::Le, r, rd) && !compare(l, CmpOp::Lt, r, rd) ==> compare(
            l,
            CmpOp::Ge,
            r,
            rd,
        ),
        compare(l, CmpOp::Ge, r, rd) && !compare(l, CmpOp::Gt, r, rd) ==> compare(
            l,
            CmpOp::Le,
            r,
            rd,
        ),
{
    if let (Some(a), Some(b)) = (match_key(l), match_key(r)) {
        lemma_text_order(a, b);
        lemma_text_order(b, a);
    }
}

/// Two values with keys that are not both numbers can always be compared, and
/// they are equal in order exactly where they are equal.
pub proof fn law_keyed_values_can_be_compared(l: CellView, r: CellView, rd: Reading)
    requires
        match_key(l) is Some,
        match_key(r) is Some,
        as_number(l, rd) is None || as_number(r, rd) is None,
    ensures
        compare(l, CmpOp::Lt, r, rd) || compare(l, CmpOp::Eq, r, rd) || compare(
            l,
            CmpOp::Gt,
            r,
            rd,
        ),
        compare(l, CmpOp::Le, r, rd) == (compare(l, CmpOp::Lt, r, rd) || compare(
            l,
            CmpOp::Eq,
            r,
            rd,
        )),
        compare(l, CmpOp::Ge, r, rd) == (compare(l, CmpOp::Gt, r, rd) || compare(
            l,
            CmpOp::Eq,
            r,
            rd,
        )),
        compare(l, CmpOp::Lt, r, rd) ==> compare(l, CmpOp::Ne, r, rd),
        compare(l, CmpOp::Gt, r, rd) ==> compare(l, CmpOp::Ne, r, rd),
{
    lemma_text_order(match_key(l)->0, match_key(r)->0);
}

/// NULL equals NULL and blank text and nothing else, and stands in no order to anything.
pub proof fn law_null_is_apart(c: CellView, rd: Reading)
    ensures
        compare(CellView::Null, CmpOp::Eq, c, rd) == (match_key(c) is None),
        !compare(CellView::Null, CmpOp::Lt, c, rd),
        !compare(CellView::Null, CmpOp::Le, c, rd),
        !compare(CellView::Null, CmpOp::Gt, c, rd),
        !compare(CellView::Null, CmpOp::Ge, c, rd),
{
}

/// Only the integer itself has an integer's text.
proof fn lemma_int_texts_differ(a: i64, b: i64)
    requires
        text::int_text(a as int) == text::int_text(b as int),
    ensures
        a == b,
{
    lemma_int_text(a);
    lemma_int_text(b);
}

/// Two integers are equal exactly where they are the same number, and an integer
/// equals a whole double exactly where the double is that number.
pub proof fn law_numbers_are_equal_by_value(a: i64, b: i64, f: RealView, rd: Reading)
    requires
        as_i64(f.bits) matches Some(v) && v != i64::MIN,
    ensures
        compare(CellView::Int(a), CmpOp::Eq, CellView::Int(b), rd) == (a == b),
        compare(CellView::Int(a), CmpOp::Eq, CellView::Float(f), rd) == (as_i64(f.bits) == Some(a)),
{
    if text::int_text(a as int) == text::int_text(b as int) {
        lemma_int_texts_differ(a, b);
    }
    if text::int_text(a as int) == text::int_text(as_i64(f.bits)->0 as int) {
        lemma_int_texts_differ(a, as_i64(f.bits)->0);
    }
}

/// Whole numbers stand in the order of their values. `rd` reads the integers as
/// the doubles that they are.
pub proof fn law_whole_numbers_compare_by_value(a: i64, b: i64, rd: Reading)
    requires
        rd(text::int_text(a as int)) matches Some(x) && as_i64(x.bits) == Some(a),
        rd(text::int_text(b as int)) matches Some(y) && as_i64(y.bits) == Some(b),
    ensures
        compare(CellView::Int(a), CmpOp::Lt, CellView::Int(b), rd) == (a < b),
        compare(CellView::Int(a), CmpOp::Le, CellView::Int(b), rd) == (a <= b),
        compare(CellView::Int(a), CmpOp::Gt, CellView::Int(b), rd) == (a > b),
        compare(CellView::Int(a), CmpOp::Ge, CellView::Int(b), rd) == (a >= b),
{
    let x = rd(text::int_text(a as int))->0.bits;
    let y = rd(text::int_text(b as int))->0.bits;
    law_whole_doubles_are_in_order(x, y);
}

/// Texts are compared without the white space at their ends and, in ASCII,
/// without regard to case.
pub proof fn law_text_is_equal_in_any_case(a: Seq<char>, b: Seq<char>, rd: Reading)
    requires
        text::is_ascii_text(text::trim(a)),
        text::is_ascii_text(text::trim(b)),
    ensures
        compare(CellView::Text(a), CmpOp::Eq, CellView::Text(b), rd) == text::same_ignoring_case(
            text::trim(a),
            text::trim(b),
        ),
{
    let x = text::trim(a);
    let y = text::trim(b);
    assert(text::lower(x).len() == x.len() && text::lower(y).len() == y.len());
    if x.len() == 0 && y.len() == 0 {
        assert(x =~= y);
    }
}

/// Values match as key parts exactly where `==` holds of them and neither is blank.
pub proof fn law_keys_follow_equality(a: CellView, b: CellView, rd: Reading)
    ensures
        (match_key(a) is Some && match_key(a) == match_key(b)) == (compare(a, CmpOp::Eq, b, rd)
            && compare(a, CmpOp::Ne, CellView::Null, rd)),
{
}

/// A pattern of plain characters matches itself alone.
pub proof fn law_plain_pattern_matches_itself(v: Seq<char>, p: Seq<char>)
    requires
        forall|i: int| 0 <= i < p.len() ==> p[i] != '%' && p[i] != '_',
    ensures
        like(v, p) <==> v == p,
    decreases p.len(),
{
    if p.len() > 0 {
        if v.len() > 0 {
            law_plain_pattern_matches_itself(v.skip(1), p.skip(1));
            assert(v =~= seq![v[0]] + v.skip(1));
            assert(p =~= seq![p[0]] + p.skip(1));
        }
    } else if v.len() == 0 {
        assert(v =~= p);
    }
}

/// Each `_` matches exactly one character, whatever it is.
pub proof fn law_underscore_takes_one(v: Seq<char>, p: Seq<char>)
    requires
        forall|i: int| 0 <= i < p.len() ==> p[i] == '_',
    ensures
        like(v, p) <==> v.len() == p.len(),
    decreases p.len(),
{
    if p.len() > 0 && v.len() > 0 {
        law_underscore_takes_one(v.skip(1), p.skip(1));
    }
}

/// Where the parts of a text match the parts of a pattern, the whole matches the whole.
pub proof fn law_patterns_are_put_together(
    v: Seq<char>,
    p: Seq<char>,
    w: Seq<char>,
    q: Seq<char>,
)
    requires
        like(v, p),
        like(w, q),
    ensures
        like(v + w, p + q),
    decreases v.len() + p.len(),
{
    if p.len() == 0 {
        assert(v + w =~= w);
        assert(p + q =~= q);
    } else {
        assert((p + q).skip(1) =~= p.skip(1) + q);
        assert((p + q)[0] == p[0]);
        if p[0] == '%' {
            if like(v, p.skip(1)) {
                law_patterns_are_put_together(v, p.skip(1), w, q);
            } else {
                law_patterns_are_put_together(v.skip(1), p, w, q);
                assert((v + w).skip(1) =~= v.skip(1) + w);
            }
        } else {
            law_patterns_are_put_together(v.skip(1), p.skip(1), w, q);
            assert((v + w).skip(1) =~= v.skip(1) + w);
            assert((v + w)[0] == v[0]);
        }
    }
}

} // verus!
