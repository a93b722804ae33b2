//! A double-precision number as plain values, and the readers that supply one.
//!
//! The library computes with the bit pattern alone. Turning decimal text into
//! a double is left to the caller, who hands in a reader.
use vstd::arithmetic::power2::{
    lemma2_to64, lemma2_to64_rest, lemma_pow2_adds, lemma_pow2_pos, lemma_pow2_strictly_increases,
    lemma_pow2_unfold, pow2,
};
use vstd::prelude::*;

verus! {

/// A double: its IEEE 754 bit pattern, and how it prints in plain decimal and in JSON.
#[derive(Debug, Clone, PartialEq)]
pub struct Real {
    pub bits: u64,
    pub text: String,
    pub json: String,
}

pub struct RealView {
    pub bits: u64,
    pub text: Seq<char>,
    pub json: Seq<char>,
}

impl View for Real {
    type V = RealView;

    open spec fn view(&self) -> RealView {
        RealView { bits: self.bits, text: self.text@, json: self.json@ }
    }
}

impl Real {
    /// A copy of the number.
    pub fn copy(&self) -> (r: Real)
        ensures
            r == *self,
    {
        Real { bits: self.bits, text: self.text.clone(), json: self.json.clone() }
    }
}

/// How one value stands to another.
#[derive(Debug, Clone, Copy, PartialEq, Eq, Structural)]
pub enum Order {
    Less,
    Equal,
    Greater,
}

/// The biased exponent.
pub open spec fn exponent(bits: u64) -> int {
    (bits as int / 0x10_0000_0000_0000) % 2048
}

/// The bits below the exponent.
pub open spec fn fraction(bits: u64) -> int {
    bits as int % 0x10_0000_0000_0000
}

pub open spec fn is_negative(bits: u64) -> bool {
    bits >= 0x8000_0000_0000_0000
}

pub open spec fn is_finite(bits: u64) -> bool {
    exponent(bits) != 2047
}

pub open spec fn is_nan(bits: u64) -> bool {
    exponent(bits) == 2047 && fraction(bits) != 0
}

/// The significand as an integer; the value is this times a power of two.
pub open spec fn significand(bits: u64) -> int {
    if exponent(bits) == 0 {
        fraction(bits)
    } else {
        0x10_0000_0000_0000 + fraction(bits)
    }
}

/// The power of two that the significand is multiplied by.
pub open spec fn scale(bits: u64) -> int {
    if exponent(bits) == 0 {
        -1074
    } else {
        exponent(bits) - 1075
    }
}

/// The double is a whole number.
pub open spec fn is_integral(bits: u64) -> bool {
    is_finite(bits) && (scale(bits) >= 0 || significand(bits) % (pow2((-scale(bits)) as nat) as int)
        == 0)
}

/// The whole number that an integral double is.
pub open spec fn whole(bits: u64) -> int {
    let magnitude = if scale(bits) >= 0 {
        significand(bits) * pow2(scale(bits) as nat)
    } else {
        significand(bits) / (pow2((-scale(bits)) as nat) as int)
    };
    if is_negative(bits) {
        -magnitude
    } else {
        magnitude
    }
}

/// The whole number that a double is, where it is one that `i64` holds.
pub open spec fn as_i64(bits: u64) -> Option<i64> {
    if is_integral(bits) && i64::MIN <= whole(bits) <= i64::MAX {
        Some(whole(bits) as i64)
    } else {
        None
    }
}

/// An integer that orders doubles as their values, both zeros alike.
pub open spec fn rank(bits: u64) -> int {
    if is_negative(bits) {
        0x8000_0000_0000_0000 - bits
    } else {
        bits as int
    }
}

/// How one double stands to another; a NaN stands in no order to anything.
pub open spec fn real_order(a: u64, b: u64) -> Option<Order> {
    if is_nan(a) || is_nan(b) {
        None
    } else if rank(a) < rank(b) {
        Some(Order::Less)
    } else if rank(a) == rank(b) {
        Some(Order::Equal)
    } else {
        Some(Order::Greater)
    }
}

fn exponent_of(bits: u64) -> (r: u64)
    ensures
        r == exponent(bits),
{
    (bits / 0x10_0000_0000_0000) % 2048
}

/// Whether the double is neither infinite nor NaN.
pub fn finite(bits: u64) -> (r: bool)
    ensures
        r == is_finite(bits),
{
    exponent_of(bits) != 2047
}

fn nan(bits: u64) -> (r: bool)
    ensures
        r == is_nan(bits),
{
    exponent_of(bits) == 2047 && bits % 0x10_0000_0000_0000 != 0
}

/// How one double stands to another.
pub fn order_reals(a: u64, b: u64) -> (r: Option<Order>)
    ensures
        r == real_order(a, b),
{
    if nan(a) || nan(b) {
        return None;
    }
    let x: i128 = if a >= 0x8000_0000_0000_0000 {
        0x8000_0000_0000_0000i128 - a as i128
    } else {
        a as i128
    };
    let y: i128 = if b >= 0x8000_0000_0000_0000 {
        0x8000_0000_0000_0000i128 - b as i128
    } else {
        b as i128
    };
    if x < y {
        Some(Order::Less)
    } else if x == y {
        Some(Order::Equal)
    } else {
        Some(Order::Greater)
    }
}

fn power_of_two(n: u64) -> (r: u64)
    requires
        n < 64,
    ensures
        r == pow2(n as nat),
{
    let mut i: u64 = 0;
    let mut p: u64 = 1;
    proof {
        lemma2_to64();
        lemma2_to64_rest();
    }
    while i < n
        invariant
            i <= n < 64,
            p == pow2(i as nat),
        decreases n - i,
    {
        proof {
            lemma2_to64();
            lemma2_to64_rest();
            lemma_pow2_unfold((i + 1) as nat);
            if i + 1 < 63 {
                lemma_pow2_strictly_increases((i + 1) as nat, 63);
            }
        }
        p = p * 2;
        i += 1;
    }
    p
}

/// The whole number that a double is, where it is one that `i64` holds.
pub fn to_i64(bits: u64) -> (r: Option<i64>)
    ensures
        r == as_i64(bits),
{
    let e: u64 = exponent_of(bits);
    let m: u64 = bits % 0x10_0000_0000_0000;
    let negative: bool = bits >= 0x8000_0000_0000_0000;
    if e == 2047 {
        return None;
    }
    proof {
        lemma2_to64();
        lemma2_to64_rest();
    }
    if e == 0 {
        proof {
            lemma_pow2_strictly_increases(52, 1074);
            let p = pow2(1074) as int;
            assert(m as int % p == m) by (nonlinear_arith)
                requires
                    0 <= m < p,
            ;
            assert(0int / p == 0) by (nonlinear_arith)
                requires
                    p > 0,
            ;
        }
        if m == 0 {
            return Some(0);
        }
        return None;
    }
    let sig: u64 = 0x10_0000_0000_0000 + m;
    if e < 1075 {
        let s: u64 = 1075 - e;
        if s >= 53 {
            proof {
                if s > 53 {
                    lemma_pow2_strictly_increases(53, s as nat);
                }
                let p = pow2(s as nat) as int;
                assert(sig as int % p == sig) by (nonlinear_arith)
                    requires
                        0 <= sig < p,
                ;
            }
            return None;
        }
        let p: u64 = power_of_two(s);
        proof {
            lemma_pow2_pos(s as nat);
            assert(0 <= sig as int / p as int <= sig) by (nonlinear_arith)
                requires
                    p > 0,
                    sig >= 0,
            ;
        }
        if sig % p != 0 {
            return None;
        }
        let v: i64 = (sig / p) as i64;
        Some(if negative { -v } else { v })
    } else {
        let k: u64 = e - 1075;
        if k >= 12 {
            proof {
                if k > 12 {
                    lemma_pow2_strictly_increases(12, k as nat);
                }
                let p = pow2(k as nat) as int;
                assert(sig * p >= 0x10_0000_0000_0000 * 4096) by (nonlinear_arith)
                    requires
                        sig >= 0x10_0000_0000_0000,
                        p >= 4096,
                ;
            }
            return None;
        }
        let p: u64 = power_of_two(k);
        proof {
            lemma_pow2_strictly_increases(k as nat, 12);
            assert(0 <= sig * p <= 0x20_0000_0000_0000 * 4096) by (nonlinear_arith)
                requires
                    0 <= sig <= 0x20_0000_0000_0000,
                    0 <= p <= 4096,
            ;
        }
        let mag: i128 = sig as i128 * p as i128;
        let v: i128 = if negative { -mag } else { mag };
        if v >= -9223372036854775808 && v <= 9223372036854775807 {
            Some(v as i64)
        } else {
            None
        }
    }
}

/// What a reader makes of each text: the double that the text denotes, if it denotes one.
pub type Reading = spec_fn(Seq<char>) -> Option<RealView>;

pub open spec fn opt_real(x: Option<Real>) -> Option<RealView> {
    match x {
        Some(r) => Some(r@),
        None => None,
    }
}

/// `f` may be asked about any text, and its answer depends on the text alone.
pub open spec fn is_reader<F: Fn(String) -> Option<Real>>(f: F) -> bool {
    &&& forall|s: String| #[trigger] call_requires(f, (s,))
    &&& forall|a: String, b: String, x: Option<Real>, y: Option<Real>| #[trigger]
        call_ensures(f, (a,), x) && #[trigger] call_ensures(f, (b,), y) && a@ == b@ ==> opt_real(x)
            == opt_real(y)
}

/// The reading that a reader stands for.
pub open spec fn reading<F: Fn(String) -> Option<Real>>(f: F) -> Reading {
    |s: Seq<char>|
        {
            let p = choose|p: (String, Option<Real>)|
                p.0@ == s && #[trigger] call_ensures(f, (p.0,), p.1);
            opt_real(p.1)
        }
}

/// Asks a reader.
pub fn ask<F: Fn(String) -> Option<Real>>(f: &F, s: String) -> (r: Option<Real>)
    requires
        is_reader(*f),
    ensures
        opt_real(r) == reading(*f)(s@),
{
    let ghost g = s;
    let r: Option<Real> = f(s);
    proof {
        let q = (g, r);
        assert(q.0@ == g@ && call_ensures(*f, (q.0,), q.1));
        let p = choose|p: (String, Option<Real>)|
            p.0@ == g@ && #[trigger] call_ensures(*f, (p.0,), p.1);
        assert(p.0@ == g@ && call_ensures(*f, (p.0,), p.1));
    }
    r
}

/// The size of a finite double in units of the smallest one.
pub open spec fn units(bits: u64) -> int {
    significand(bits) * pow2((scale(bits) + 1074) as nat)
}

/// Where the bits without the sign are larger, so is the number's size.
proof fn lemma_units_grow(a: u64, b: u64)
    requires
        is_finite(a),
        is_finite(b),
        exponent(a) < exponent(b) || (exponent(a) == exponent(b) && fraction(a) < fraction(b)),
    ensures
        units(a) < units(b),
{
    let k = (scale(a) + 1074) as nat;
    let m = (scale(b) + 1074) as nat;
    lemma_pow2_pos(k);
    lemma_pow2_pos(m);
    let p = pow2(k) as int;
    let q = pow2(m) as int;
    let x = significand(a);
    let y = significand(b);
    if k == m {
        assert(x < y);
        assert(x * p < y * p) by (nonlinear_arith)
            requires
                x < y,
                p > 0,
        ;
    } else {
        assert(k < m);
        lemma_pow2_unfold((k + 1) as nat);
        if k + 1 < m {
            lemma_pow2_strictly_increases((k + 1) as nat, m);
        }
        assert(q >= 2 * p);
        assert(x < 0x20_0000_0000_0000);
        assert(y >= 0x10_0000_0000_0000);
        assert(x * p < y * q) by (nonlinear_arith)
            requires
                0 <= x < 0x20_0000_0000_0000,
                y >= 0x10_0000_0000_0000,
                q >= 2 * p,
                p > 0,
        ;
    }
}

/// A whole double has as many units as its size times those of one.
pub proof fn law_whole_doubles_have_their_value(bits: u64)
    requires
        is_integral(bits),
    ensures
        units(bits) == (if is_negative(bits) {
            -whole(bits)
        } else {
            whole(bits)
        }) * pow2(1074),
{
    let s = significand(bits);
    let e = scale(bits);
    if e >= 0 {
        lemma_pow2_adds(e as nat, 1074);
        let p = pow2(e as nat) as int;
        let u = pow2(1074) as int;
        assert(s * (p * u) == (s * p) * u) by (nonlinear_arith);
    } else {
        let d = (-e) as nat;
        let r = (e + 1074) as nat;
        lemma_pow2_adds(d, r);
        lemma_pow2_pos(d);
        let p = pow2(d) as int;
        let q = pow2(r) as int;
        let w = s / p;
        assert(s == w * p) by (nonlinear_arith)
            requires
                p > 0,
                s % p == 0,
                w == s / p,
        ;
        assert((w * p) * q == w * (p * q)) by (nonlinear_arith);
    }
}

/// Whole doubles stand in the order of their values.
pub proof fn law_whole_doubles_are_in_order(a: u64, b: u64)
    requires
        is_integral(a),
        is_integral(b),
    ensures
        real_order(a, b) == Some(
            if whole(a) < whole(b) {
                Order::Less
            } else if whole(a) == whole(b) {
                Order::Equal
            } else {
                Order::Greater
            },
        ),
{
    law_whole_doubles_have_their_value(a);
    law_whole_doubles_have_their_value(b);
    lemma_units_positive(a);
    lemma_units_positive(b);
    lemma_pow2_pos(1074);
    let u = pow2(1074) as int;
    let x = if is_negative(a) { -whole(a) } else { whole(a) };
    let y = if is_negative(b) { -whole(b) } else { whole(b) };
    assert(x < y <==> x * u < y * u) by (nonlinear_arith)
        requires
            u > 0,
    ;
    assert(y < x <==> y * u < x * u) by (nonlinear_arith)
        requires
            u > 0,
    ;
    assert(x * u >= 0 ==> x >= 0) by (nonlinear_arith)
        requires
            u > 0,
    ;
    assert(y * u >= 0 ==> y >= 0) by (nonlinear_arith)
        requires
            u > 0,
    ;
    assert(x == 0 ==> x * u == 0) by (nonlinear_arith);
    assert(y == 0 ==> y * u == 0) by (nonlinear_arith);
    lemma_parts(a);
    lemma_parts(b);
    if exponent(a) < exponent(b) || (exponent(a) == exponent(b) && fraction(a) < fraction(b)) {
        lemma_units_grow(a, b);
    } else if exponent(b) < exponent(a) || (exponent(a) == exponent(b) && fraction(b) < fraction(
        a,
    )) {
        lemma_units_grow(b, a);
    }
}

/// Only zero has no units.
proof fn lemma_units_positive(bits: u64)
    ensures
        units(bits) >= 0,
        units(bits) == 0 <==> exponent(bits) == 0 && fraction(bits) == 0,
{
    let k = (scale(bits) + 1074) as nat;
    lemma_pow2_pos(k);
    let s = significand(bits);
    let p = pow2(k) as int;
    assert(s * p >= 0 && (s * p == 0 <==> s == 0)) by (nonlinear_arith)
        requires
            s >= 0,
            p > 0,
    ;
}

/// The exponent and the fraction are the bits without the sign.
proof fn lemma_parts(bits: u64)
    ensures
        bits == exponent(bits) * 0x10_0000_0000_0000 + fraction(bits) + (if is_negative(bits) {
            0x8000_0000_0000_0000
        } else {
            0int
        }),
        0 <= fraction(bits) < 0x10_0000_0000_0000,
        0 <= exponent(bits) < 2048,
{
}

} // verus!
