//! Vectors on a plane, over exact rational scalars.

use vstd::prelude::*;

use crate::rat::{
    lemma_nonzero_prod, lemma_pos_prod, lemma_rat_add_comm, lemma_rat_add_sub_cancel,
    lemma_rat_div_is_mul_inv, lemma_rat_div_self, lemma_rat_dist_right, lemma_rat_eq_trans,
    lemma_rat_mul_assoc, lemma_rat_mul_comm, lemma_rat_mul_neg_swap, lemma_rat_scale_div_cancel,
    lemma_rat_zero_div, lemma_rat_zero_iff_num, rat_add, rat_div, rat_eq, rat_inv, rat_mul,
    rat_neg, rat_one, rat_sub, rat_zero, Rat,
};
use crate::scalar::{add_fits, div_fits, mul_fits, sub_fits, Scalar};
use crate::GeomError;

verus! {

/// The model of a plane vector: a pair of rationals.
pub ghost struct Rat2 {
    pub x: Rat,
    pub y: Rat,
}

/// The model of the zero vector.
pub open spec fn r2_zero() -> Rat2 {
    Rat2 { x: rat_zero(), y: rat_zero() }
}

/// Both components denote the same rationals.
pub open spec fn r2_eq(a: Rat2, b: Rat2) -> bool {
    rat_eq(a.x, b.x) && rat_eq(a.y, b.y)
}

/// Component-wise sum.
pub open spec fn r2_add(a: Rat2, b: Rat2) -> Rat2 {
    Rat2 { x: rat_add(a.x, b.x), y: rat_add(a.y, b.y) }
}

/// Component-wise difference.
pub open spec fn r2_sub(a: Rat2, b: Rat2) -> Rat2 {
    Rat2 { x: rat_sub(a.x, b.x), y: rat_sub(a.y, b.y) }
}

/// Component-wise (Hadamard) product.
pub open spec fn r2_mul(a: Rat2, b: Rat2) -> Rat2 {
    Rat2 { x: rat_mul(a.x, b.x), y: rat_mul(a.y, b.y) }
}

/// Both components scaled by `k`.
pub open spec fn r2_scale(a: Rat2, k: Rat) -> Rat2 {
    Rat2 { x: rat_mul(a.x, k), y: rat_mul(a.y, k) }
}

/// Both components divided by `k`.
pub open spec fn r2_div_scalar(a: Rat2, k: Rat) -> Rat2 {
    Rat2 { x: rat_div(a.x, k), y: rat_div(a.y, k) }
}

/// Component-wise negation.
pub open spec fn r2_neg(a: Rat2) -> Rat2 {
    Rat2 { x: rat_neg(a.x), y: rat_neg(a.y) }
}

/// The scalar product of two plane vectors.
pub open spec fn r2_dot(a: Rat2, b: Rat2) -> Rat {
    rat_add(rat_mul(a.x, b.x), rat_mul(a.y, b.y))
}

/// The vector rotated a quarter turn clockwise: `(x, y)` to `(y, -x)`.
pub open spec fn r2_rot(a: Rat2) -> Rat2 {
    Rat2 { x: a.y, y: rat_neg(a.x) }
}

/// The signed area of the parallelogram spanned by `a` and `b`:
/// the scalar product of `a` with `b` rotated.
pub open spec fn r2_area(a: Rat2, b: Rat2) -> Rat {
    r2_dot(a, r2_rot(b))
}

/// Component-wise sums stay in the machine range.
pub open spec fn add2_fits(a: Rat2, b: Rat2) -> bool {
    add_fits(a.x, b.x) && add_fits(a.y, b.y)
}

/// Component-wise differences stay in the machine range.
pub open spec fn sub2_fits(a: Rat2, b: Rat2) -> bool {
    sub_fits(a.x, b.x) && sub_fits(a.y, b.y)
}

/// Component-wise products stay in the machine range.
pub open spec fn mul2_fits(a: Rat2, b: Rat2) -> bool {
    mul_fits(a.x, b.x) && mul_fits(a.y, b.y)
}

/// Scaling by `k` stays in the machine range.
pub open spec fn scale2_fits(a: Rat2, k: Rat) -> bool {
    mul_fits(a.x, k) && mul_fits(a.y, k)
}

/// Division by the scalar `k` stays in the machine range.
pub open spec fn div2_fits(a: Rat2, k: Rat) -> bool {
    div_fits(a.x, k) && div_fits(a.y, k)
}

/// The scalar product of `a` and `b` stays in the machine range.
pub open spec fn dot2_fits(a: Rat2, b: Rat2) -> bool {
    mul2_fits(a, b) && add_fits(rat_mul(a.x, b.x), rat_mul(a.y, b.y))
}

/// The signed area of `a` and `b` stays in the machine range.
pub open spec fn area2_fits(a: Rat2, b: Rat2) -> bool {
    dot2_fits(a, r2_rot(b))
}

/// Constructing the dual of the basis `(a, b)` stays in the machine
/// range.
pub open spec fn dual2_fits(a: Rat2, b: Rat2) -> bool {
    area2_fits(a, b) && div2_fits(r2_rot(b), r2_area(a, b)) && div2_fits(
        r2_neg(r2_rot(a)),
        r2_area(a, b),
    )
}

/// 2D vector in cartesian coordinates.
#[derive(Debug, Clone, Copy)]
pub struct Vec2 {
    /// component of vector
    pub x: Scalar,
    /// component of vector
    pub y: Scalar,
}

impl View for Vec2 {
    type V = Rat2;

    open spec fn view(&self) -> Rat2 {
        Rat2 { x: self.x@, y: self.y@ }
    }
}

impl Vec2 {
    /// Both components are valid scalars.
    pub open spec fn wf(self) -> bool {
        self.x.wf() && self.y.wf()
    }

    /// Constructs a new `Vec2` from its components.
    pub fn new(x: Scalar, y: Scalar) -> (r: Vec2)
        requires
            x.wf(),
            y.wf(),
        ensures
            r@ == (Rat2 { x: x@, y: y@ }),
            r.wf(),
    {
        Vec2 { x, y }
    }

    /// Create a zero `Vec2`.
    pub fn zero() -> (r: Vec2)
        ensures
            r@ == r2_zero(),
            r.wf(),
    {
        Vec2 { x: Scalar::from_int(0), y: Scalar::from_int(0) }
    }

    /// Component-wise sum with `rhs`.
    pub fn add(self, rhs: Vec2) -> (r: Vec2)
        requires
            self.wf(),
            rhs.wf(),
            add2_fits(self@, rhs@),
        ensures
            r@ == r2_add(self@, rhs@),
            r.wf(),
    {
        Vec2 { x: self.x.add(rhs.x), y: self.y.add(rhs.y) }
    }

    /// Component-wise difference with `rhs`.
    pub fn sub(self, rhs: Vec2) -> (r: Vec2)
        requires
            self.wf(),
            rhs.wf(),
            sub2_fits(self@, rhs@),
        ensures
            r@ == r2_sub(self@, rhs@),
            r.wf(),
    {
        Vec2 { x: self.x.sub(rhs.x), y: self.y.sub(rhs.y) }
    }

    /// Component-wise (Hadamard) product with `rhs`.
    pub fn mul(self, rhs: Vec2) -> (r: Vec2)
        requires
            self.wf(),
            rhs.wf(),
            mul2_fits(self@, rhs@),
        ensures
            r@ == r2_mul(self@, rhs@),
            r.wf(),
    {
        Vec2 { x: self.x.mul(rhs.x), y: self.y.mul(rhs.y) }
    }

    /// Both components scaled by `k`.
    pub fn scale(self, k: Scalar) -> (r: Vec2)
        requires
            self.wf(),
            k.wf(),
            scale2_fits(self@, k@),
        ensures
            r@ == r2_scale(self@, k@),
            r.wf(),
    {
        Vec2 { x: self.x.mul(k), y: self.y.mul(k) }
    }

    /// Both components divided by `k`, or the division failure when `k`
    /// is zero.
    pub fn div(self, k: Scalar) -> (r: Result<Vec2, GeomError>)
        requires
            self.wf(),
            k.wf(),
            div2_fits(self@, k@),
        ensures
            rat_eq(k@, rat_zero()) ==> r == Err::<Vec2, GeomError>(GeomError::DivisionByZero),
            !rat_eq(k@, rat_zero()) ==> (r matches Ok(v) && v@ == r2_div_scalar(self@, k@)
                && v.wf()),
    {
        let x = match self.x.div(k) {
            Ok(v) => v,
            Err(e) => {
                return Err(e);
            },
        };
        let y = match self.y.div(k) {
            Ok(v) => v,
            Err(e) => {
                return Err(e);
            },
        };
        Ok(Vec2 { x, y })
    }

    /// Component-wise negation.
    pub fn neg(self) -> (r: Vec2)
        requires
            self.wf(),
        ensures
            r@ == r2_neg(self@),
            r.wf(),
    {
        Vec2 { x: self.x.neg(), y: self.y.neg() }
    }

    /// Scalar product with `rhs`.
    pub fn dot(self, rhs: Vec2) -> (r: Scalar)
        requires
            self.wf(),
            rhs.wf(),
            dot2_fits(self@, rhs@),
        ensures
            r@ == r2_dot(self@, rhs@),
            r.wf(),
    {
        self.x.mul(rhs.x).add(self.y.mul(rhs.y))
    }

    /// Orthogonal vector of equal length, rotated a quarter turn
    /// clockwise.
    pub fn cross(self) -> (r: Vec2)
        requires
            self.wf(),
        ensures
            r@ == r2_rot(self@),
            r.wf(),
    {
        Vec2 { x: self.y, y: self.x.neg() }
    }

    /// Signed area of the parallelogram spanned by `self` and `rhs`.
    pub fn area(self, rhs: Vec2) -> (r: Scalar)
        requires
            self.wf(),
            rhs.wf(),
            area2_fits(self@, rhs@),
        ensures
            r@ == r2_area(self@, rhs@),
            r.wf(),
    {
        self.dot(rhs.cross())
    }

    /// Component-wise square.
    pub fn sqr(self) -> (r: Vec2)
        requires
            self.wf(),
            mul2_fits(self@, self@),
        ensures
            r@ == r2_mul(self@, self@),
            r.wf(),
    {
        self.mul(self)
    }

    /// Constructs the dual basis for the basis `basis`: the unique pair
    /// `(b1, b2)` with `a_i . b_j` one when `i == j` and zero
    /// otherwise, or the degeneracy failure when the basis spans no
    /// area.
    pub fn dual_basis(basis: (Vec2, Vec2)) -> (r: Result<(Vec2, Vec2), GeomError>)
        requires
            basis.0.wf(),
            basis.1.wf(),
            dual2_fits(basis.0@, basis.1@),
        ensures
            rat_eq(r2_area(basis.0@, basis.1@), rat_zero()) ==> r == Err::<(Vec2, Vec2), GeomError>(
                GeomError::DegenerateBasis,
            ),
            !rat_eq(r2_area(basis.0@, basis.1@), rat_zero()) ==> (r matches Ok(d)
                && d.0@ == r2_div_scalar(r2_rot(basis.1@), r2_area(basis.0@, basis.1@))
                && d.1@ == r2_div_scalar(r2_neg(r2_rot(basis.0@)), r2_area(basis.0@, basis.1@))
                && d.0.wf() && d.1.wf()),
    {
        let (a, b) = basis;
        let ar = a.area(b);
        if ar.is_zero() {
            return Err(GeomError::DegenerateBasis);
        }
        let b1 = match b.cross().div(ar) {
            Ok(v) => v,
            Err(e) => {
                return Err(GeomError::DegenerateBasis);
            },
        };
        let b2 = match a.cross().neg().div(ar) {
            Ok(v) => v,
            Err(e) => {
                return Err(GeomError::DegenerateBasis);
            },
        };
        Ok((b1, b2))
    }

    /// The component with index `i`: 0 is x, 1 is y.  An index out of
    /// range is a programming defect and is excluded outright.
    pub fn at(self, i: usize) -> (r: Scalar)
        requires
            i < 2,
        ensures
            i == 0 ==> r == self.x,
            i == 1 ==> r == self.y,
    {
        if i == 0 {
            self.x
        } else {
            self.y
        }
    }

    /// Replaces the component with index `i`: 0 is x, 1 is y.  An index
    /// out of range is a programming defect and is excluded outright.
    pub fn set_at(&mut self, i: usize, v: Scalar)
        requires
            i < 2,
        ensures
            i == 0 ==> final(self).x == v && final(self).y == old(self).y,
            i == 1 ==> final(self).x == old(self).x && final(self).y == v,
    {
        if i == 0 {
            self.x = v;
        } else {
            self.y = v;
        }
    }
}

/// For all vectors: adding and then subtracting the same vector
/// returns the first, `(a + b) - b == a`.
pub proof fn lemma_vec2_add_sub_cancel(a: Vec2, b: Vec2)
    ensures
        r2_eq(r2_sub(r2_add(a@, b@), b@), a@),
{
    lemma_rat_add_sub_cancel(a@.x, b@.x);
    lemma_rat_add_sub_cancel(a@.y, b@.y);
}

/// For all vectors and nonzero scalars: scaling and then dividing by
/// the same scalar returns the vector, `(a * k) / k == a`.
pub proof fn lemma_vec2_scale_div_cancel(a: Vec2, k: Scalar)
    requires
        !rat_eq(k@, rat_zero()),
    ensures
        r2_eq(r2_div_scalar(r2_scale(a@, k@), k@), a@),
{
    lemma_rat_zero_iff_num(k@);
    lemma_rat_scale_div_cancel(a@.x, k@);
    lemma_rat_scale_div_cancel(a@.y, k@);
}

/// A vector and its negation have the same squared length: the exact
/// content of `len(a) == len(-a)`, stated of the scalar product that
/// the length is the square root of.
pub proof fn lemma_vec2_len_sq_neg(a: Vec2)
    ensures
        r2_dot(r2_neg(a@), r2_neg(a@)) == r2_dot(a@, a@),
{
    assert(-a@.x.n * -a@.x.n == a@.x.n * a@.x.n) by (nonlinear_arith);
    assert(-a@.y.n * -a@.y.n == a@.y.n * a@.y.n) by (nonlinear_arith);
}

/// The zero vector has squared length zero: the exact content of
/// `len(zero()) == 0`.
pub proof fn lemma_vec2_len_sq_zero()
    ensures
        rat_eq(r2_dot(r2_zero(), r2_zero()), rat_zero()),
{
}

/// The scalar product is commutative: `dot(a, b) == dot(b, a)`.
pub proof fn lemma_vec2_dot_comm(a: Vec2, b: Vec2)
    ensures
        r2_dot(a@, b@) == r2_dot(b@, a@),
{
    lemma_rat_mul_comm(a@.x, b@.x);
    lemma_rat_mul_comm(a@.y, b@.y);
}

/// The signed area is antisymmetric: `area(a, b) == -area(b, a)`, the
/// plane form of the cross product's antisymmetry.
pub proof fn lemma_vec2_area_antisym(a: Vec2, b: Vec2)
    ensures
        r2_area(a@, b@) == rat_neg(r2_area(b@, a@)),
{
    assert((a@.x.n * b@.y.n) * (a@.y.d * b@.x.d) == -((b@.y.n * -a@.x.n) * (b@.x.d * a@.y.d)))
        by (nonlinear_arith);
    assert((a@.y.n * -b@.x.n) * (a@.x.d * b@.y.d) == -((b@.x.n * a@.y.n) * (b@.y.d * a@.x.d)))
        by (nonlinear_arith);
    assert((a@.x.d * b@.y.d) * (a@.y.d * b@.x.d) == (b@.x.d * a@.y.d) * (b@.y.d * a@.x.d))
        by (nonlinear_arith);
}

/// The signed area is the scalar product with the rotated operand:
/// `area(a, b) == dot(a, cross(b))`.
pub proof fn lemma_vec2_area_is_dot_cross(a: Vec2, b: Vec2)
    ensures
        r2_area(a@, b@) == r2_dot(a@, r2_rot(b@)),
{
}

/// The scalar product moves through a division of the right operand by
/// a scalar: `dot(p, w / t) == dot(p, w) / t` as rationals.
proof fn lemma_r2_dot_div(p: Rat2, w: Rat2, t: Rat)
    ensures
        rat_eq(r2_dot(p, r2_div_scalar(w, t)), rat_div(r2_dot(p, w), t)),
{
    let i = rat_inv(t);
    lemma_rat_div_is_mul_inv(w.x, t);
    lemma_rat_div_is_mul_inv(w.y, t);
    lemma_rat_mul_assoc(p.x, w.x, i);
    lemma_rat_mul_assoc(p.y, w.y, i);
    lemma_rat_dist_right(rat_mul(p.x, w.x), rat_mul(p.y, w.y), i);
    lemma_rat_div_is_mul_inv(r2_dot(p, w), t);
}

/// The scalar product of a vector with its own rotation is zero.
proof fn lemma_r2_dot_rot_self(v: Rat2)
    ensures
        rat_eq(r2_dot(v, r2_rot(v)), rat_zero()),
{
    assert((v.x.n * v.y.n) * (v.y.d * v.x.d) == -((v.y.n * -v.x.n) * (v.x.d * v.y.d)))
        by (nonlinear_arith);
    assert(0 * ((v.x.d * v.y.d) * (v.y.d * v.x.d)) == 0) by (nonlinear_arith);
}

/// The denominator of a scalar product of vectors with positive
/// component denominators is positive.
proof fn lemma_r2_dot_den_pos(p: Rat2, w: Rat2)
    requires
        p.x.d > 0,
        p.y.d > 0,
        w.x.d > 0,
        w.y.d > 0,
    ensures
        r2_dot(p, w).d > 0,
{
    lemma_pos_prod(p.x.d, w.x.d);
    lemma_pos_prod(p.y.d, w.y.d);
    lemma_pos_prod(p.x.d * w.x.d, p.y.d * w.y.d);
}

/// Dual basis law: for a basis `(a, b)` of nonzero signed area, the
/// pair `(b1, b2)` that `dual_basis` returns satisfies
/// `dot(a, b1) == 1`, `dot(a, b2) == 0`, `dot(b, b1) == 0` and
/// `dot(b, b2) == 1`.
pub proof fn lemma_vec2_dual_basis(a: Vec2, b: Vec2)
    requires
        a.wf(),
        b.wf(),
        !rat_eq(r2_area(a@, b@), rat_zero()),
    ensures
        ({
            let ar = r2_area(a@, b@);
            let b1 = r2_div_scalar(r2_rot(b@), ar);
            let b2 = r2_div_scalar(r2_neg(r2_rot(a@)), ar);
            rat_eq(r2_dot(a@, b1), rat_one()) && rat_eq(r2_dot(a@, b2), rat_zero()) && rat_eq(
                r2_dot(b@, b1),
                rat_zero(),
            ) && rat_eq(r2_dot(b@, b2), rat_one())
        }),
{
    let ar = r2_area(a@, b@);
    lemma_rat_zero_iff_num(ar);
    lemma_r2_dot_den_pos(a@, r2_rot(b@));
    assert(ar.d > 0 && ar.n != 0);
    lemma_nonzero_prod(ar.d, ar.n);

    // dot(a, b1) == area / area == 1
    lemma_r2_dot_div(a@, r2_rot(b@), ar);
    lemma_rat_div_self(ar);
    lemma_rat_eq_trans(r2_dot(a@, r2_div_scalar(r2_rot(b@), ar)), rat_div(ar, ar), rat_one());

    // dot(b, b1) == dot(b, rot b) / area == 0 / area == 0
    lemma_r2_dot_div(b@, r2_rot(b@), ar);
    lemma_r2_dot_rot_self(b@);
    lemma_rat_zero_div(r2_dot(b@, r2_rot(b@)), ar);
    lemma_r2_dot_den_pos(b@, r2_rot(b@));
    lemma_nonzero_prod(r2_dot(b@, r2_rot(b@)).d, ar.n);
    lemma_rat_eq_trans(
        r2_dot(b@, r2_div_scalar(r2_rot(b@), ar)),
        rat_div(r2_dot(b@, r2_rot(b@)), ar),
        rat_zero(),
    );

    // the negated rotation of a, with its double negation simplified
    let w = r2_neg(r2_rot(a@));
    assert(w == (Rat2 { x: rat_neg(a@.y), y: a@.x }));

    // dot(a, b2) == dot(a, (-a.y, a.x)) / area == 0 / area == 0
    lemma_r2_dot_div(a@, w, ar);
    assert(rat_eq(r2_dot(a@, w), rat_zero())) by {
        lemma_rat_mul_neg_swap(a@.x, a@.y);
        assert(r2_dot(a@, w) == rat_add(rat_mul(a@.y, rat_neg(a@.x)), rat_mul(a@.y, a@.x)));
        assert((a@.y.n * -a@.x.n) * (a@.y.d * a@.x.d) == -((a@.y.n * a@.x.n) * (a@.y.d * a@.x.d)))
            by (nonlinear_arith);
        assert(0 * ((a@.y.d * a@.x.d) * (a@.y.d * a@.x.d)) == 0) by (nonlinear_arith);
    }
    lemma_rat_zero_div(r2_dot(a@, w), ar);
    lemma_r2_dot_den_pos(a@, w);
    lemma_nonzero_prod(r2_dot(a@, w).d, ar.n);
    lemma_rat_eq_trans(r2_dot(a@, r2_div_scalar(w, ar)), rat_div(r2_dot(a@, w), ar), rat_zero());

    // dot(b, b2) == dot(b, (-a.y, a.x)) / area == area / area == 1
    lemma_r2_dot_div(b@, w, ar);
    assert(r2_dot(b@, w) == ar) by {
        lemma_rat_mul_neg_swap(b@.x, a@.y);
        lemma_rat_mul_comm(b@.y, a@.x);
        lemma_rat_add_comm(rat_mul(a@.y, rat_neg(b@.x)), rat_mul(a@.x, b@.y));
    }
    lemma_rat_eq_trans(r2_dot(b@, r2_div_scalar(w, ar)), rat_div(ar, ar), rat_one());
}

impl PartialEq for Vec2 {
    /// Two vectors are equal exactly when their components denote the
    /// same rationals.
    fn eq(&self, other: &Self) -> (r: bool) {
        self.x == other.x && self.y == other.y
    }
}

impl vstd::std_specs::cmp::PartialEqSpecImpl for Vec2 {
    open spec fn obeys_eq_spec() -> bool {
        true
    }

    open spec fn eq_spec(&self, other: &Self) -> bool {
        r2_eq(self@, other@)
    }
}

} // verus!

