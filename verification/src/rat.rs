//! The mathematical model of a scalar: a rational number written as a
//! pair of unbounded integers.  Every executable operation of the library
//! is specified against the functions of this module, and the algebraic
//! laws of the library are proved here at the level of the model.

use vstd::prelude::*;

verus! {

/// A rational number `n / d` over unbounded integers.  A value only
/// stands for a rational when `d != 0`; executable scalars keep `d > 0`.
/// Two pairs denote the same rational when `rat_eq` holds of them.
pub ghost struct Rat {
    pub n: int,
    pub d: int,
}

/// The rational equal to the integer `n`.
pub open spec fn rat_int(n: int) -> Rat {
    Rat { n, d: 1 }
}

/// The rational zero.
pub open spec fn rat_zero() -> Rat {
    rat_int(0)
}

/// The rational one.
pub open spec fn rat_one() -> Rat {
    rat_int(1)
}

/// `a` and `b` denote the same rational: `a.n / a.d == b.n / b.d`,
/// stated without division by cross-multiplying.
pub open spec fn rat_eq(a: Rat, b: Rat) -> bool {
    a.n * b.d == b.n * a.d
}

/// The sum of two rationals.
pub open spec fn rat_add(a: Rat, b: Rat) -> Rat {
    Rat { n: a.n * b.d + b.n * a.d, d: a.d * b.d }
}

/// The difference of two rationals.
pub open spec fn rat_sub(a: Rat, b: Rat) -> Rat {
    Rat { n: a.n * b.d - b.n * a.d, d: a.d * b.d }
}

/// The product of two rationals.
pub open spec fn rat_mul(a: Rat, b: Rat) -> Rat {
    Rat { n: a.n * b.n, d: a.d * b.d }
}

/// The negation of a rational.
pub open spec fn rat_neg(a: Rat) -> Rat {
    Rat { n: -a.n, d: a.d }
}

/// The quotient `a / b`, with the sign moved into the numerator so that
/// a positive denominator stays positive.  Only meaningful when `b` is
/// not zero; division by zero is rejected by the executable operations.
pub open spec fn rat_div(a: Rat, b: Rat) -> Rat {
    if b.n < 0 {
        Rat { n: -(a.n * b.d), d: -(a.d * b.n) }
    } else {
        Rat { n: a.n * b.d, d: a.d * b.n }
    }
}

/// The reciprocal of `t`, with the sign moved into the numerator, so
/// that a positive denominator stays positive.
pub open spec fn rat_inv(t: Rat) -> Rat {
    if t.n < 0 {
        Rat { n: -t.d, d: -t.n }
    } else {
        Rat { n: t.d, d: t.n }
    }
}

/// The product of two positive integers is positive.
pub proof fn lemma_pos_prod(x: int, y: int)
    by (nonlinear_arith)
    requires
        x > 0,
        y > 0,
    ensures
        x * y > 0,
{
}

/// The product of a positive and a negative integer is negative.
pub proof fn lemma_pos_neg_prod(x: int, y: int)
    by (nonlinear_arith)
    requires
        x > 0,
        y < 0,
    ensures
        x * y < 0,
{
}

/// The product of two nonzero integers is nonzero.
pub proof fn lemma_nonzero_prod(x: int, y: int)
    by (nonlinear_arith)
    requires
        x != 0,
        y != 0,
    ensures
        x * y != 0,
{
}

/// Dividing by `b` is multiplying by the reciprocal of `b`.
pub proof fn lemma_rat_div_is_mul_inv(a: Rat, b: Rat)
    ensures
        rat_div(a, b) == rat_mul(a, rat_inv(b)),
{
    if b.n < 0 {
        assert(a.n * -b.d == -(a.n * b.d)) by (nonlinear_arith);
        assert(a.d * -b.n == -(a.d * b.n)) by (nonlinear_arith);
    }
}

/// Multiplication of rationals is commutative, representative by
/// representative.
pub proof fn lemma_rat_mul_comm(a: Rat, b: Rat)
    ensures
        rat_mul(a, b) == rat_mul(b, a),
{
    assert(a.n * b.n == b.n * a.n) by (nonlinear_arith);
    assert(a.d * b.d == b.d * a.d) by (nonlinear_arith);
}

/// Multiplication of rationals is associative, representative by
/// representative.
pub proof fn lemma_rat_mul_assoc(a: Rat, b: Rat, c: Rat)
    ensures
        rat_mul(a, rat_mul(b, c)) == rat_mul(rat_mul(a, b), c),
{
    assert(a.n * (b.n * c.n) == (a.n * b.n) * c.n) by (nonlinear_arith);
    assert(a.d * (b.d * c.d) == (a.d * b.d) * c.d) by (nonlinear_arith);
}

/// Addition of rationals is commutative, representative by
/// representative.
pub proof fn lemma_rat_add_comm(a: Rat, b: Rat)
    ensures
        rat_add(a, b) == rat_add(b, a),
{
    assert(a.d * b.d == b.d * a.d) by (nonlinear_arith);
}

/// The sign of a factor may move to the other factor.
pub proof fn lemma_rat_mul_neg_swap(a: Rat, b: Rat)
    ensures
        rat_mul(a, rat_neg(b)) == rat_mul(b, rat_neg(a)),
{
    assert(a.n * -b.n == b.n * -a.n) by (nonlinear_arith);
    assert(a.d * b.d == b.d * a.d) by (nonlinear_arith);
}

/// A common right factor distributes over a sum.
#[verifier::rlimit(100)]
pub proof fn lemma_rat_dist_right(u: Rat, v: Rat, s: Rat)
    ensures
        rat_eq(rat_add(rat_mul(u, s), rat_mul(v, s)), rat_mul(rat_add(u, v), s)),
{
    assert((u.n * s.n) * (v.d * s.d) * ((u.d * v.d) * s.d) == (u.n * v.d) * s.n * ((u.d * s.d) * (
    v.d * s.d))) by (nonlinear_arith);
    assert((v.n * s.n) * (u.d * s.d) * ((u.d * v.d) * s.d) == (v.n * u.d) * s.n * ((u.d * s.d) * (
    v.d * s.d))) by (nonlinear_arith);
    assert(((u.n * s.n) * (v.d * s.d) + (v.n * s.n) * (u.d * s.d)) * ((u.d * v.d) * s.d) == (u.n
        * s.n) * (v.d * s.d) * ((u.d * v.d) * s.d) + (v.n * s.n) * (u.d * s.d) * ((u.d * v.d)
        * s.d)) by (nonlinear_arith);
    assert((u.n * v.d + v.n * u.d) * s.n * ((u.d * s.d) * (v.d * s.d)) == (u.n * v.d) * s.n * ((u.d
        * s.d) * (v.d * s.d)) + (v.n * u.d) * s.n * ((u.d * s.d) * (v.d * s.d))) by (nonlinear_arith);
    assert(((u.n * v.d + v.n * u.d) * s.n) * ((u.d * s.d) * (v.d * s.d)) == (u.n * v.d + v.n * u.d)
        * s.n * ((u.d * s.d) * (v.d * s.d))) by (nonlinear_arith);
}

/// Adding and then subtracting the same rational returns the first:
/// `(p + q) - q == p`.
pub proof fn lemma_rat_add_sub_cancel(p: Rat, q: Rat)
    ensures
        rat_eq(rat_sub(rat_add(p, q), q), p),
{
    assert((p.n * q.d + q.n * p.d) * q.d == (p.n * q.d) * q.d + (q.n * p.d) * q.d)
        by (nonlinear_arith);
    assert((q.n * p.d) * q.d == q.n * (p.d * q.d)) by (nonlinear_arith);
    assert((p.n * q.d) * q.d * p.d == p.n * ((p.d * q.d) * q.d)) by (nonlinear_arith);
}

/// Scaling by a nonzero rational and then dividing by it returns the
/// first: `(p * k) / k == p`.
pub proof fn lemma_rat_scale_div_cancel(p: Rat, k: Rat)
    requires
        k.n != 0,
    ensures
        rat_eq(rat_div(rat_mul(p, k), k), p),
{
    lemma_rat_div_is_mul_inv(rat_mul(p, k), k);
    if k.n < 0 {
        assert((p.n * k.n) * -k.d * p.d == p.n * ((p.d * k.d) * -k.n)) by (nonlinear_arith);
    } else {
        assert((p.n * k.n) * k.d * p.d == p.n * ((p.d * k.d) * k.n)) by (nonlinear_arith);
    }
}

/// A rational is zero exactly when its numerator is.
pub proof fn lemma_rat_zero_iff_num(a: Rat)
    by (nonlinear_arith)
    ensures
        rat_eq(a, rat_zero()) <==> a.n == 0,
{
}

/// A zero rational divided by anything is zero.
pub proof fn lemma_rat_zero_div(u: Rat, t: Rat)
    requires
        rat_eq(u, rat_zero()),
    ensures
        rat_eq(rat_div(u, t), rat_zero()),
{
    lemma_rat_div_is_mul_inv(u, t);
    lemma_rat_zero_mul(u, rat_inv(t));
}

/// Dividends that denote the same rational have quotients that do.
pub proof fn lemma_rat_div_cong_left(p: Rat, p2: Rat, t: Rat)
    requires
        rat_eq(p, p2),
    ensures
        rat_eq(rat_div(p, t), rat_div(p2, t)),
{
    lemma_rat_div_is_mul_inv(p, t);
    lemma_rat_div_is_mul_inv(p2, t);
    lemma_rat_mul_cong(p, p2, rat_inv(t), rat_inv(t));
}

/// A zero rational times anything is zero.
pub proof fn lemma_rat_zero_mul(u: Rat, s: Rat)
    requires
        rat_eq(u, rat_zero()),
    ensures
        rat_eq(rat_mul(u, s), rat_zero()),
{
    assert(u.n == 0) by (nonlinear_arith)
        requires
            u.n * 1 == 0 * u.d,
    ;
    assert(u.n * s.n == 0 && 0 * (u.d * s.d) == 0) by (nonlinear_arith)
        requires
            u.n == 0,
    ;
}

/// `rat_eq` is transitive on pairs whose middle denominator is nonzero.
pub proof fn lemma_rat_eq_trans(a: Rat, b: Rat, c: Rat)
    by (nonlinear_arith)
    requires
        b.d != 0,
        rat_eq(a, b),
        rat_eq(b, c),
    ensures
        rat_eq(a, c),
{
}

/// `rat_eq` is a congruence for addition.
pub proof fn lemma_rat_add_cong(a: Rat, a2: Rat, b: Rat, b2: Rat)
    requires
        rat_eq(a, a2),
        rat_eq(b, b2),
    ensures
        rat_eq(rat_add(a, b), rat_add(a2, b2)),
{
    lemma_mul_dist(a.n * b.d, b.n * a.d, a2.d * b2.d);
    lemma_mul_dist(a2.n * b2.d, b2.n * a2.d, a.d * b.d);
    assert((a.n * b.d) * (a2.d * b2.d) == (a.n * a2.d) * (b.d * b2.d)) by (nonlinear_arith);
    assert((b.n * a.d) * (a2.d * b2.d) == (b.n * b2.d) * (a.d * a2.d)) by (nonlinear_arith);
    assert((a2.n * b2.d) * (a.d * b.d) == (a2.n * a.d) * (b.d * b2.d)) by (nonlinear_arith);
    assert((b2.n * a2.d) * (a.d * b.d) == (b2.n * b.d) * (a.d * a2.d)) by (nonlinear_arith);
}

/// Helper: multiplication distributes over a sum of two terms.
proof fn lemma_mul_dist(p: int, q: int, r: int)
    by (nonlinear_arith)
    ensures
        (p + q) * r == p * r + q * r,
{
}

/// `rat_eq` is a congruence for multiplication.
pub proof fn lemma_rat_mul_cong(a: Rat, a2: Rat, b: Rat, b2: Rat)
    requires
        rat_eq(a, a2),
        rat_eq(b, b2),
    ensures
        rat_eq(rat_mul(a, b), rat_mul(a2, b2)),
{
    assert((a.n * b.n) * (a2.d * b2.d) == (a.n * a2.d) * (b.n * b2.d)) by (nonlinear_arith);
    assert((a2.n * b2.n) * (a.d * b.d) == (a2.n * a.d) * (b2.n * b.d)) by (nonlinear_arith);
}

/// A nonzero rational divided by itself is one.
pub proof fn lemma_rat_div_self(a: Rat)
    by (nonlinear_arith)
    requires
        a.d != 0,
        a.n != 0,
    ensures
        rat_eq(rat_div(a, a), rat_one()),
{
}

} // verus!
