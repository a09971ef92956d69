//! Exact rational scalars.
//!
//! The simulation works over `Q`, a rational number held as a 64-bit
//! numerator over a positive 64-bit denominator.  Nothing is ever rounded:
//! each operation computes the exact result in 128 bits, reduces it by the
//! greatest common divisor, and returns `None` only when even the reduced
//! exact value does not fit the representation.  Specifications speak
//! about rationals as unbounded integer pairs `(int, int)`, built by the
//! spec-level mirrors below.

use vstd::arithmetic::div_mod::{
    lemma_fundamental_div_mod, lemma_fundamental_div_mod_converse_div, lemma_mod_self_0,
    lemma_small_mod,
};
use vstd::arithmetic::mul::lemma_mul_strictly_positive;
use vstd::prelude::*;

verus! {

/// A rational number `num / den` with `den > 0`.
#[derive(Clone, Copy, PartialEq, Eq, Structural, Debug)]
pub struct Q {
    pub num: i64,
    pub den: i64,
}

impl Q {
    /// Well-formedness: the denominator is positive, so the sign of the
    /// value is the sign of the numerator and comparisons cross-multiply
    /// without flipping.
    pub open spec fn wf(self) -> bool {
        self.den > 0
    }

    /// The value as an unbounded numerator/denominator pair.
    pub open spec fn v(self) -> (int, int) {
        (self.num as int, self.den as int)
    }

    /// The rational `n / 1`.
    pub fn from_int(n: i64) -> (r: Q)
        ensures
            r.wf(),
            r.v() == (n as int, 1int),
    {
        Q { num: n, den: 1 }
    }

    /// The rational `0`.
    pub fn zero() -> (r: Q)
        ensures
            r.wf(),
            r.v() == (0int, 1int),
    {
        Q { num: 0, den: 1 }
    }
}

/// The greatest common divisor, by Euclid's rule; `gcd(a, 0) == a`.
pub open spec fn gcd_s(a: nat, b: nat) -> nat
    decreases b,
{
    if b == 0 {
        a
    } else {
        gcd_s(b, a % b)
    }
}

/// The magnitude of an unbounded integer.
pub open spec fn abs_s(x: int) -> int {
    if x >= 0 {
        x
    } else {
        -x
    }
}

/// The fully reduced representative of a rational with a positive
/// denominator: both components divided by their greatest common divisor.
pub open spec fn qs_norm(a: (int, int)) -> (int, int) {
    let g = gcd_s(abs_s(a.0) as nat, a.1 as nat) as int;
    (a.0 / g, a.1 / g)
}

/// Whether an unbounded integer fits the symmetric 64-bit range the
/// operations accept.
pub open spec fn fits(x: int) -> bool {
    -i64::MAX <= x <= i64::MAX
}

/// Both components of the reduced exact value fit 64 bits.
pub open spec fn qs_norm_ok(a: (int, int)) -> bool {
    fits(qs_norm(a).0) && fits(qs_norm(a).1)
}

/// Spec-level product: `(a.0 * b.0) / (a.1 * b.1)`.
pub open spec fn qs_mul(a: (int, int), b: (int, int)) -> (int, int) {
    (a.0 * b.0, a.1 * b.1)
}

/// Spec-level sum over the common denominator `a.1 * b.1`.
pub open spec fn qs_add(a: (int, int), b: (int, int)) -> (int, int) {
    (a.0 * b.1 + b.0 * a.1, a.1 * b.1)
}

/// Spec-level difference over the common denominator `a.1 * b.1`.
pub open spec fn qs_sub(a: (int, int), b: (int, int)) -> (int, int) {
    (a.0 * b.1 - b.0 * a.1, a.1 * b.1)
}

/// Value equality of two rationals with positive denominators.
pub open spec fn qs_eq(a: (int, int), b: (int, int)) -> bool {
    a.0 * b.1 == b.0 * a.1
}

/// Value ordering of two rationals with positive denominators.
pub open spec fn qs_le(a: (int, int), b: (int, int)) -> bool {
    a.0 * b.1 <= b.0 * a.1
}

/// Strict value ordering of two rationals with positive denominators.
pub open spec fn qs_lt(a: (int, int), b: (int, int)) -> bool {
    a.0 * b.1 < b.0 * a.1
}

/// Checked spec-level product: the reduced exact product, `None` when it
/// leaves the representation or an earlier step already failed.
pub open spec fn qc_mul(a: Option<(int, int)>, b: Option<(int, int)>) -> Option<(int, int)> {
    match (a, b) {
        (Some(x), Some(y)) => if qs_norm_ok(qs_mul(x, y)) {
            Some(qs_norm(qs_mul(x, y)))
        } else {
            None
        },
        _ => None,
    }
}

/// Checked spec-level sum, as `qc_mul`.
pub open spec fn qc_add(a: Option<(int, int)>, b: Option<(int, int)>) -> Option<(int, int)> {
    match (a, b) {
        (Some(x), Some(y)) => if qs_norm_ok(qs_add(x, y)) {
            Some(qs_norm(qs_add(x, y)))
        } else {
            None
        },
        _ => None,
    }
}

/// Checked spec-level difference, as `qc_mul`.
pub open spec fn qc_sub(a: Option<(int, int)>, b: Option<(int, int)>) -> Option<(int, int)> {
    match (a, b) {
        (Some(x), Some(y)) => if qs_norm_ok(qs_sub(x, y)) {
            Some(qs_norm(qs_sub(x, y)))
        } else {
            None
        },
        _ => None,
    }
}

/// The greatest common divisor of both arguments is positive and divides
/// them both.
proof fn lemma_gcd_properties(a: nat, b: nat)
    requires
        a + b >= 1,
    ensures
        gcd_s(a, b) >= 1,
        a as int % (gcd_s(a, b) as int) == 0,
        b as int % (gcd_s(a, b) as int) == 0,
    decreases b,
{
    let g = gcd_s(a, b) as int;
    if b == 0 {
        lemma_mod_self_0(a as int);
        lemma_small_mod(0, a);
    } else {
        lemma_gcd_properties(b, a % b);
        let bb = b as int;
        let q = a as int / bb;
        let r = a as int % bb;
        lemma_fundamental_div_mod(a as int, bb);
        lemma_fundamental_div_mod(bb, g);
        lemma_fundamental_div_mod(r, g);
        assert(a as int == ((bb / g) * q + r / g) * g) by (nonlinear_arith)
            requires
                a as int == bb * q + r,
                bb == g * (bb / g) + bb % g,
                bb % g == 0,
                r == g * (r / g) + r % g,
                r % g == 0,
        ;
        vstd::arithmetic::div_mod::lemma_mod_multiples_basic((bb / g) * q + r / g, g);
    }
}

/// Euclid's algorithm on 128-bit words.
fn gcd_u128(a: u128, b: u128) -> (g: u128)
    ensures
        g == gcd_s(a as nat, b as nat),
    decreases b,
{
    if b == 0 {
        a
    } else {
        gcd_u128(b, a % b)
    }
}

/// Builds the reduced rational `num / den`, or `None` when even the
/// reduced exact value does not fit 64 bits.
fn q_make(num: i128, den: i128) -> (r: Option<Q>)
    requires
        den >= 1,
        -i128::MAX <= num,
    ensures
        r is Some <==> qs_norm_ok((num as int, den as int)),
        r matches Some(q) ==> q.wf() && q.v() == qs_norm((num as int, den as int)) && qs_eq(
            q.v(),
            (num as int, den as int),
        ),
{
    let m: u128 = if num >= 0 {
        num as u128
    } else {
        (-num) as u128
    };
    let g: u128 = gcd_u128(m, den as u128);
    proof {
        lemma_gcd_properties(m as nat, den as nat);
    }
    let nm = m / g;
    let nd = (den as u128) / g;
    proof {
        let gi = g as int;
        let di = den as int;
        let mi = m as int;
        lemma_fundamental_div_mod(di, gi);
        assert(di / gi >= 1) by (nonlinear_arith)
            requires
                di >= 1,
                gi >= 1,
                di == gi * (di / gi) + di % gi,
                di % gi == 0,
        ;
        lemma_fundamental_div_mod(mi, gi);
        assert(mi == gi * (mi / gi));
        if num < 0 {
            assert(-mi == (-(mi / gi)) * gi + 0) by (nonlinear_arith)
                requires
                    mi == gi * (mi / gi),
            ;
            lemma_fundamental_div_mod_converse_div(-mi, gi, -(mi / gi), 0);
        }
    }
    if nm > (i64::MAX as u128) || nd > (i64::MAX as u128) {
        return None;
    }
    let num_new: i64 = if num >= 0 {
        nm as i64
    } else {
        -(nm as i64)
    };
    let r = Q { num: num_new, den: nd as i64 };
    proof {
        let gi = g as int;
        let di = den as int;
        let mi = m as int;
        assert(mi == gi * (mi / gi));
        if num >= 0 {
            assert(num as int == gi * (num_new as int));
        } else {
            assert(num as int == gi * (num_new as int)) by (nonlinear_arith)
                requires
                    mi == gi * (mi / gi),
                    num as int == -mi,
                    num_new as int == -(mi / gi),
            ;
        }
        assert(di == gi * (nd as int));
        assert((num_new as int) * di == (num as int) * (nd as int)) by (nonlinear_arith)
            requires
                num as int == gi * (num_new as int),
                di == gi * (nd as int),
        ;
    }
    Some(r)
}

/// The exact product of two 64-bit integers, carried out in 128 bits.
fn wide_mul(a: i64, b: i64) -> (r: i128)
    ensures
        r == a as int * b as int,
        -i128::MAX < r,
{
    proof {
        assert((a as int) * (b as int) <= i128::MAX && -i128::MAX < (a as int) * (b as int))
            by (nonlinear_arith)
            requires
                i64::MIN <= a <= i64::MAX,
                i64::MIN <= b <= i64::MAX,
        ;
    }
    (a as i128) * (b as i128)
}

/// Exact product, reduced; `None` when the reduced value overflows.
pub fn q_mul(a: Q, b: Q) -> (r: Option<Q>)
    requires
        a.wf(),
        b.wf(),
    ensures
        r matches Some(q) ==> q.wf() && Some(q.v()) == qc_mul(Some(a.v()), Some(b.v())) && qs_eq(
            q.v(),
            qs_mul(a.v(), b.v()),
        ),
        r is Some <==> qc_mul(Some(a.v()), Some(b.v())) is Some,
{
    let num = wide_mul(a.num, b.num);
    let den = wide_mul(a.den, b.den);
    proof {
        lemma_mul_strictly_positive(a.den as int, b.den as int);
    }
    q_make(num, den)
}

/// Exact sum over the common denominator, reduced; `None` when the
/// reduced value overflows.
pub fn q_add(a: Q, b: Q) -> (r: Option<Q>)
    requires
        a.wf(),
        b.wf(),
    ensures
        r matches Some(q) ==> q.wf() && Some(q.v()) == qc_add(Some(a.v()), Some(b.v())) && qs_eq(
            q.v(),
            qs_add(a.v(), b.v()),
        ),
        r is Some <==> qc_add(Some(a.v()), Some(b.v())) is Some,
{
    let x = wide_mul(a.num, b.den);
    let y = wide_mul(b.num, a.den);
    let den = wide_mul(a.den, b.den);
    proof {
        lemma_mul_strictly_positive(a.den as int, b.den as int);
        assert(-i128::MAX <= x + y <= i128::MAX) by (nonlinear_arith)
            requires
                x == a.num as int * b.den as int,
                y == b.num as int * a.den as int,
                i64::MIN <= a.num <= i64::MAX,
                i64::MIN <= b.num <= i64::MAX,
                0 < a.den <= i64::MAX,
                0 < b.den <= i64::MAX,
        ;
    }
    q_make(x + y, den)
}

/// Exact difference over the common denominator, reduced; `None` when
/// the reduced value overflows.
pub fn q_sub(a: Q, b: Q) -> (r: Option<Q>)
    requires
        a.wf(),
        b.wf(),
    ensures
        r matches Some(q) ==> q.wf() && Some(q.v()) == qc_sub(Some(a.v()), Some(b.v())) && qs_eq(
            q.v(),
            qs_sub(a.v(), b.v()),
        ),
        r is Some <==> qc_sub(Some(a.v()), Some(b.v())) is Some,
{
    let x = wide_mul(a.num, b.den);
    let y = wide_mul(b.num, a.den);
    let den = wide_mul(a.den, b.den);
    proof {
        lemma_mul_strictly_positive(a.den as int, b.den as int);
        assert(-i128::MAX <= x - y <= i128::MAX) by (nonlinear_arith)
            requires
                x == a.num as int * b.den as int,
                y == b.num as int * a.den as int,
                i64::MIN <= a.num <= i64::MAX,
                i64::MIN <= b.num <= i64::MAX,
                0 < a.den <= i64::MAX,
                0 < b.den <= i64::MAX,
        ;
    }
    q_make(x - y, den)
}

/// Decides value equality of two rationals by cross-multiplying.
pub fn q_eq(a: Q, b: Q) -> (r: bool)
    requires
        a.wf(),
        b.wf(),
    ensures
        r == qs_eq(a.v(), b.v()),
{
    wide_mul(a.num, b.den) == wide_mul(b.num, a.den)
}

/// Decides `a <= b` by value, by cross-multiplying.
pub fn q_le(a: Q, b: Q) -> (r: bool)
    requires
        a.wf(),
        b.wf(),
    ensures
        r == qs_le(a.v(), b.v()),
{
    wide_mul(a.num, b.den) <= wide_mul(b.num, a.den)
}

} // verus!
