//! Vectors in 3-dimensional euclidean space, over exact rational
//! scalars.

use vstd::prelude::*;

use crate::rat::{
    lemma_nonzero_prod, lemma_pos_prod, lemma_rat_add_cong, lemma_rat_add_sub_cancel,
    lemma_rat_div_cong_left, lemma_rat_div_is_mul_inv, lemma_rat_div_self, lemma_rat_dist_right,
    lemma_rat_eq_trans, lemma_rat_mul_assoc, lemma_rat_mul_comm, lemma_rat_scale_div_cancel,
    lemma_rat_zero_div, lemma_rat_zero_iff_num, rat_add, rat_div, rat_eq, rat_inv, rat_mul,
    rat_neg, rat_one, rat_sub, rat_zero, Rat,
};
use crate::scalar::{add_fits, div_fits, mul_fits, sub_fits, Scalar};
use crate::GeomError;

verus! {

/// The model of a space vector: a triple of rationals.
pub ghost struct Rat3 {
    pub x: Rat,
    pub y: Rat,
    pub z: Rat,
}

/// The model of the zero vector.
pub open spec fn r3_zero() -> Rat3 {
    Rat3 { x: rat_zero(), y: rat_zero(), z: rat_zero() }
}

/// All components denote the same rationals.
pub open spec fn r3_eq(a: Rat3, b: Rat3) -> bool {
    rat_eq(a.x, b.x) && rat_eq(a.y, b.y) && rat_eq(a.z, b.z)
}

/// Component-wise sum.
pub open spec fn r3_add(a: Rat3, b: Rat3) -> Rat3 {
    Rat3 { x: rat_add(a.x, b.x), y: rat_add(a.y, b.y), z: rat_add(a.z, b.z) }
}

/// Component-wise difference.
pub open spec fn r3_sub(a: Rat3, b: Rat3) -> Rat3 {
    Rat3 { x: rat_sub(a.x, b.x), y: rat_sub(a.y, b.y), z: rat_sub(a.z, b.z) }
}

/// Component-wise (Hadamard) product.
pub open spec fn r3_mul(a: Rat3, b: Rat3) -> Rat3 {
    Rat3 { x: rat_mul(a.x, b.x), y: rat_mul(a.y, b.y), z: rat_mul(a.z, b.z) }
}

/// All components scaled by `k`.
pub open spec fn r3_scale(a: Rat3, k: Rat) -> Rat3 {
    Rat3 { x: rat_mul(a.x, k), y: rat_mul(a.y, k), z: rat_mul(a.z, k) }
}

/// All components divided by `k`.
pub open spec fn r3_div_scalar(a: Rat3, k: Rat) -> Rat3 {
    Rat3 { x: rat_div(a.x, k), y: rat_div(a.y, k), z: rat_div(a.z, k) }
}

/// Component-wise negation.
pub open spec fn r3_neg(a: Rat3) -> Rat3 {
    Rat3 { x: rat_neg(a.x), y: rat_neg(a.y), z: rat_neg(a.z) }
}

/// The scalar product of two space vectors.
pub open spec fn r3_dot(a: Rat3, b: Rat3) -> Rat {
    rat_add(rat_add(rat_mul(a.x, b.x), rat_mul(a.y, b.y)), rat_mul(a.z, b.z))
}

/// The vector cross product.
pub open spec fn r3_cross(a: Rat3, b: Rat3) -> Rat3 {
    Rat3 {
        x: rat_sub(rat_mul(a.y, b.z), rat_mul(a.z, b.y)),
        y: rat_sub(rat_mul(a.z, b.x), rat_mul(a.x, b.z)),
        z: rat_sub(rat_mul(a.x, b.y), rat_mul(a.y, b.x)),
    }
}

/// The scalar triple product `a . (b x c)`, the signed volume of the
/// parallelepiped spanned by the three vectors.
pub open spec fn r3_triple(a: Rat3, b: Rat3, c: Rat3) -> Rat {
    r3_dot(a, r3_cross(b, c))
}

/// Component-wise sums stay in the machine range.
pub open spec fn add3_fits(a: Rat3, b: Rat3) -> bool {
    add_fits(a.x, b.x) && add_fits(a.y, b.y) && add_fits(a.z, b.z)
}

/// Component-wise differences stay in the machine range.
pub open spec fn sub3_fits(a: Rat3, b: Rat3) -> bool {
    sub_fits(a.x, b.x) && sub_fits(a.y, b.y) && sub_fits(a.z, b.z)
}

/// Component-wise products stay in the machine range.
pub open spec fn mul3_fits(a: Rat3, b: Rat3) -> bool {
    mul_fits(a.x, b.x) && mul_fits(a.y, b.y) && mul_fits(a.z, b.z)
}

/// Scaling by `k` stays in the machine range.
pub open spec fn scale3_fits(a: Rat3, k: Rat) -> bool {
    mul_fits(a.x, k) && mul_fits(a.y, k) && mul_fits(a.z, k)
}

/// Division by the scalar `k` stays in the machine range.
pub open spec fn div3_fits(a: Rat3, k: Rat) -> bool {
    div_fits(a.x, k) && div_fits(a.y, k) && div_fits(a.z, k)
}

/// The scalar product of `a` and `b` stays in the machine range.
pub open spec fn dot3_fits(a: Rat3, b: Rat3) -> bool {
    mul3_fits(a, b) && add_fits(rat_mul(a.x, b.x), rat_mul(a.y, b.y)) && add_fits(
        rat_add(rat_mul(a.x, b.x), rat_mul(a.y, b.y)),
        rat_mul(a.z, b.z),
    )
}

/// The cross product of `a` and `b` stays in the machine range.
pub open spec fn cross3_fits(a: Rat3, b: Rat3) -> bool {
    mul_fits(a.y, b.z) && mul_fits(a.z, b.y) && sub_fits(rat_mul(a.y, b.z), rat_mul(a.z, b.y))
        && mul_fits(a.z, b.x) && mul_fits(a.x, b.z) && sub_fits(
        rat_mul(a.z, b.x),
        rat_mul(a.x, b.z),
    ) && mul_fits(a.x, b.y) && mul_fits(a.y, b.x) && sub_fits(rat_mul(a.x, b.y), rat_mul(a.y, b.x))
}

/// Constructing the dual of the basis `(a, b, c)` stays in the machine
/// range.
pub open spec fn dual3_fits(a: Rat3, b: Rat3, c: Rat3) -> bool {
    cross3_fits(b, c) && dot3_fits(a, r3_cross(b, c)) && cross3_fits(c, a) && cross3_fits(a, b)
        && div3_fits(r3_cross(b, c), r3_triple(a, b, c)) && div3_fits(
        r3_cross(c, a),
        r3_triple(a, b, c),
    ) && div3_fits(r3_cross(a, b), r3_triple(a, b, c))
}

/// 3D vector in cartesian coordinates.
#[derive(Debug, Clone, Copy)]
pub struct Vec3 {
    /// component of vector
    pub x: Scalar,
    /// component of vector
    pub y: Scalar,
    /// component of vector
    pub z: Scalar,
}

impl View for Vec3 {
    type V = Rat3;

    open spec fn view(&self) -> Rat3 {
        Rat3 { x: self.x@, y: self.y@, z: self.z@ }
    }
}

impl Vec3 {
    /// All components are valid scalars.
    pub open spec fn wf(self) -> bool {
        self.x.wf() && self.y.wf() && self.z.wf()
    }

    /// Constructs a new `Vec3` from its components.
    pub fn new(x: Scalar, y: Scalar, z: Scalar) -> (r: Vec3)
        requires
            x.wf(),
            y.wf(),
            z.wf(),
        ensures
            r@ == (Rat3 { x: x@, y: y@, z: z@ }),
            r.wf(),
    {
        Vec3 { x, y, z }
    }

    /// Create a zero `Vec3`.
    pub fn zero() -> (r: Vec3)
        ensures
            r@ == r3_zero(),
            r.wf(),
    {
        Vec3 { x: Scalar::from_int(0), y: Scalar::from_int(0), z: Scalar::from_int(0) }
    }

    /// Component-wise sum with `rhs`.
    pub fn add(self, rhs: Vec3) -> (r: Vec3)
        requires
            self.wf(),
            rhs.wf(),
            add3_fits(self@, rhs@),
        ensures
            r@ == r3_add(self@, rhs@),
            r.wf(),
    {
        Vec3 { x: self.x.add(rhs.x), y: self.y.add(rhs.y), z: self.z.add(rhs.z) }
    }

    /// Component-wise difference with `rhs`.
    pub fn sub(self, rhs: Vec3) -> (r: Vec3)
        requires
            self.wf(),
            rhs.wf(),
            sub3_fits(self@, rhs@),
        ensures
            r@ == r3_sub(self@, rhs@),
            r.wf(),
    {
        Vec3 { x: self.x.sub(rhs.x), y: self.y.sub(rhs.y), z: self.z.sub(rhs.z) }
    }

    /// Component-wise (Hadamard) product with `rhs`.
    pub fn mul(self, rhs: Vec3) -> (r: Vec3)
        requires
            self.wf(),
            rhs.wf(),
            mul3_fits(self@, rhs@),
        ensures
            r@ == r3_mul(self@, rhs@),
            r.wf(),
    {
        Vec3 { x: self.x.mul(rhs.x), y: self.y.mul(rhs.y), z: self.z.mul(rhs.z) }
    }

    /// All components scaled by `k`.
    pub fn scale(self, k: Scalar) -> (r: Vec3)
        requires
            self.wf(),
            k.wf(),
            scale3_fits(self@, k@),
        ensures
            r@ == r3_scale(self@, k@),
            r.wf(),
    {
        Vec3 { x: self.x.mul(k), y: self.y.mul(k), z: self.z.mul(k) }
    }

    /// All components divided by `k`, or the division failure when `k`
    /// is zero.
    pub fn div(self, k: Scalar) -> (r: Result<Vec3, GeomError>)
        requires
            self.wf(),
            k.wf(),
            div3_fits(self@, k@),
        ensures
            rat_eq(k@, rat_zero()) ==> r == Err::<Vec3, GeomError>(GeomError::DivisionByZero),
            !rat_eq(k@, rat_zero()) ==> (r matches Ok(v) && v@ == r3_div_scalar(self@, k@)
                && v.wf()),
    {
        let x = match self.x.div(k) {
            Ok(v) => v,
            Err(e) => {
                return Err(e);
            },
        };
        let y = match self.y.div(k) {
            Ok(v) => v,
            Err(e) => {
                return Err(e);
            },
        };
        let z = match self.z.div(k) {
            Ok(v) => v,
            Err(e) => {
                return Err(e);
            },
        };
        Ok(Vec3 { x, y, z })
    }

    /// Component-wise negation.
    pub fn neg(self) -> (r: Vec3)
        requires
            self.wf(),
        ensures
            r@ == r3_neg(self@),
            r.wf(),
    {
        Vec3 { x: self.x.neg(), y: self.y.neg(), z: self.z.neg() }
    }

    /// Scalar product with `rhs`.
    pub fn dot(self, rhs: Vec3) -> (r: Scalar)
        requires
            self.wf(),
            rhs.wf(),
            dot3_fits(self@, rhs@),
        ensures
            r@ == r3_dot(self@, rhs@),
            r.wf(),
    {
        self.x.mul(rhs.x).add(self.y.mul(rhs.y)).add(self.z.mul(rhs.z))
    }

    /// Vector cross product with `rhs`.
    pub fn cross(self, rhs: Vec3) -> (r: Vec3)
        requires
            self.wf(),
            rhs.wf(),
            cross3_fits(self@, rhs@),
        ensures
            r@ == r3_cross(self@, rhs@),
            r.wf(),
    {
        Vec3 {
            x: self.y.mul(rhs.z).sub(self.z.mul(rhs.y)),
            y: self.z.mul(rhs.x).sub(self.x.mul(rhs.z)),
            z: self.x.mul(rhs.y).sub(self.y.mul(rhs.x)),
        }
    }

    /// Component-wise square.
    pub fn sqr(self) -> (r: Vec3)
        requires
            self.wf(),
            mul3_fits(self@, self@),
        ensures
            r@ == r3_mul(self@, self@),
            r.wf(),
    {
        self.mul(self)
    }

    /// Constructs the dual basis for the basis `basis`: the unique
    /// triple `(b1, b2, b3)` with `a_i . b_j` one when `i == j` and
    /// zero otherwise, or the degeneracy failure when the basis spans
    /// no volume.
    pub fn dual_basis(basis: (Vec3, Vec3, Vec3)) -> (r: Result<(Vec3, Vec3, Vec3), GeomError>)
        requires
            basis.0.wf(),
            basis.1.wf(),
            basis.2.wf(),
            dual3_fits(basis.0@, basis.1@, basis.2@),
        ensures
            rat_eq(r3_triple(basis.0@, basis.1@, basis.2@), rat_zero()) ==> r == Err::<
                (Vec3, Vec3, Vec3),
                GeomError,
            >(GeomError::DegenerateBasis),
            !rat_eq(r3_triple(basis.0@, basis.1@, basis.2@), rat_zero()) ==> (r matches Ok(d) && {
                let t = r3_triple(basis.0@, basis.1@, basis.2@);
                d.0@ == r3_div_scalar(r3_cross(basis.1@, basis.2@), t) && d.1@ == r3_div_scalar(
                    r3_cross(basis.2@, basis.0@),
                    t,
                ) && d.2@ == r3_div_scalar(r3_cross(basis.0@, basis.1@), t) && d.0.wf() && d.1.wf()
                    && d.2.wf()
            }),
    {
        let (a, b, c) = basis;
        let t = a.dot(b.cross(c));
        if t.is_zero() {
            return Err(GeomError::DegenerateBasis);
        }
        let b1 = match b.cross(c).div(t) {
            Ok(v) => v,
            Err(_) => {
                return Err(GeomError::DegenerateBasis);
            },
        };
        let b2 = match c.cross(a).div(t) {
            Ok(v) => v,
            Err(_) => {
                return Err(GeomError::DegenerateBasis);
            },
        };
        let b3 = match a.cross(b).div(t) {
            Ok(v) => v,
            Err(_) => {
                return Err(GeomError::DegenerateBasis);
            },
        };
        Ok((b1, b2, b3))
    }

    /// The component with index `i`: 0 is x, 1 is y, 2 is z.  An index
    /// out of range is a programming defect and is excluded outright.
    pub fn at(self, i: usize) -> (r: Scalar)
        requires
            i < 3,
        ensures
            i == 0 ==> r == self.x,
            i == 1 ==> r == self.y,
            i == 2 ==> r == self.z,
    {
        if i == 0 {
            self.x
        } else if i == 1 {
            self.y
        } else {
            self.z
        }
    }

    /// Replaces the component with index `i`: 0 is x, 1 is y, 2 is z.
    /// An index out of range is a programming defect and is excluded
    /// outright.
    pub fn set_at(&mut self, i: usize, v: Scalar)
        requires
            i < 3,
        ensures
            i == 0 ==> *final(self) == (Vec3 { x: v, ..*old(self) }),
            i == 1 ==> *final(self) == (Vec3 { y: v, ..*old(self) }),
            i == 2 ==> *final(self) == (Vec3 { z: v, ..*old(self) }),
    {
        if i == 0 {
            self.x = v;
        } else if i == 1 {
            self.y = v;
        } else {
            self.z = v;
        }
    }
}

/// For all vectors: adding and then subtracting the same vector
/// returns the first, `(a + b) - b == a`.
pub proof fn lemma_vec3_add_sub_cancel(a: Vec3, b: Vec3)
    ensures
        r3_eq(r3_sub(r3_add(a@, b@), b@), a@),
{
    lemma_rat_add_sub_cancel(a@.x, b@.x);
    lemma_rat_add_sub_cancel(a@.y, b@.y);
    lemma_rat_add_sub_cancel(a@.z, b@.z);
}

/// For all vectors and nonzero scalars: scaling and then dividing by
/// the same scalar returns the vector, `(a * k) / k == a`.
pub proof fn lemma_vec3_scale_div_cancel(a: Vec3, k: Scalar)
    requires
        !rat_eq(k@, rat_zero()),
    ensures
        r3_eq(r3_div_scalar(r3_scale(a@, k@), k@), a@),
{
    lemma_rat_zero_iff_num(k@);
    lemma_rat_scale_div_cancel(a@.x, k@);
    lemma_rat_scale_div_cancel(a@.y, k@);
    lemma_rat_scale_div_cancel(a@.z, k@);
}

/// A vector and its negation have the same squared length: the exact
/// content of `len(a) == len(-a)`, stated of the scalar product that
/// the length is the square root of.
pub proof fn lemma_vec3_len_sq_neg(a: Vec3)
    ensures
        r3_dot(r3_neg(a@), r3_neg(a@)) == r3_dot(a@, a@),
{
    assert(-a@.x.n * -a@.x.n == a@.x.n * a@.x.n) by (nonlinear_arith);
    assert(-a@.y.n * -a@.y.n == a@.y.n * a@.y.n) by (nonlinear_arith);
    assert(-a@.z.n * -a@.z.n == a@.z.n * a@.z.n) by (nonlinear_arith);
}

/// The zero vector has squared length zero: the exact content of
/// `len(zero()) == 0`.
pub proof fn lemma_vec3_len_sq_zero()
    ensures
        rat_eq(r3_dot(r3_zero(), r3_zero()), rat_zero()),
{
}

/// The scalar product is commutative: `dot(a, b) == dot(b, a)`.
pub proof fn lemma_vec3_dot_comm(a: Vec3, b: Vec3)
    ensures
        r3_dot(a@, b@) == r3_dot(b@, a@),
{
    lemma_rat_mul_comm(a@.x, b@.x);
    lemma_rat_mul_comm(a@.y, b@.y);
    lemma_rat_mul_comm(a@.z, b@.z);
}

/// The cross product is antisymmetric: `cross(a, b) == -cross(b, a)`,
/// representative by representative.
pub proof fn lemma_vec3_cross_antisym(a: Vec3, b: Vec3)
    ensures
        r3_cross(a@, b@) == r3_neg(r3_cross(b@, a@)),
{
    lemma_r3_cross_antisym_model(a@, b@);
}

/// `cross(u, v) == -cross(v, u)` over the model, representative by
/// representative.
proof fn lemma_r3_cross_antisym_model(u: Rat3, v: Rat3)
    ensures
        r3_cross(u, v) == r3_neg(r3_cross(v, u)),
{
    assert((u.y.n * v.z.n) * (u.z.d * v.y.d) == (v.z.n * u.y.n) * (v.y.d * u.z.d))
        by (nonlinear_arith);
    assert((u.z.n * v.y.n) * (u.y.d * v.z.d) == (v.y.n * u.z.n) * (v.z.d * u.y.d))
        by (nonlinear_arith);
    assert((u.y.d * v.z.d) * (u.z.d * v.y.d) == (v.y.d * u.z.d) * (v.z.d * u.y.d))
        by (nonlinear_arith);
    assert((u.z.n * v.x.n) * (u.x.d * v.z.d) == (v.x.n * u.z.n) * (v.z.d * u.x.d))
        by (nonlinear_arith);
    assert((u.x.n * v.z.n) * (u.z.d * v.x.d) == (v.z.n * u.x.n) * (v.x.d * u.z.d))
        by (nonlinear_arith);
    assert((u.z.d * v.x.d) * (u.x.d * v.z.d) == (v.z.d * u.x.d) * (v.x.d * u.z.d))
        by (nonlinear_arith);
    assert((u.x.n * v.y.n) * (u.y.d * v.x.d) == (v.y.n * u.x.n) * (v.x.d * u.y.d))
        by (nonlinear_arith);
    assert((u.y.n * v.x.n) * (u.x.d * v.y.d) == (v.x.n * u.y.n) * (v.y.d * u.x.d))
        by (nonlinear_arith);
    assert((u.x.d * v.y.d) * (u.y.d * v.x.d) == (v.x.d * u.y.d) * (v.y.d * u.x.d))
        by (nonlinear_arith);
}

/// The scalar product with a negated right operand is the negated
/// scalar product, representative by representative.
proof fn lemma_r3_dot_neg(p: Rat3, q: Rat3)
    ensures
        r3_dot(p, r3_neg(q)) == rat_neg(r3_dot(p, q)),
{
    assert(p.x.n * -q.x.n == -(p.x.n * q.x.n)) by (nonlinear_arith);
    assert(p.y.n * -q.y.n == -(p.y.n * q.y.n)) by (nonlinear_arith);
    assert(p.z.n * -q.z.n == -(p.z.n * q.z.n)) by (nonlinear_arith);
    let ma = rat_mul(p.x, q.x);
    let mb = rat_mul(p.y, q.y);
    let mc = rat_mul(p.z, q.z);
    assert(rat_add(rat_neg(ma), rat_neg(mb)) == rat_neg(rat_add(ma, mb))) by {
        assert(-ma.n * mb.d == -(ma.n * mb.d)) by (nonlinear_arith);
        assert(-mb.n * ma.d == -(mb.n * ma.d)) by (nonlinear_arith);
    }
    let mab = rat_add(ma, mb);
    assert(rat_add(rat_neg(mab), rat_neg(mc)) == rat_neg(rat_add(mab, mc))) by {
        assert(-mab.n * mc.d == -(mab.n * mc.d)) by (nonlinear_arith);
        assert(-mc.n * mab.d == -(mc.n * mab.d)) by (nonlinear_arith);
    }
}

/// The scalar product of a vector with a cross product it is the first
/// operand of is zero: `dot(u, cross(u, v)) == 0`.
proof fn lemma_r3_orth_first(u: Rat3, v: Rat3)
    ensures
        rat_eq(r3_dot(u, r3_cross(u, v)), rat_zero()),
{
    let x1: int = u.x.n;
    let y1: int = u.y.n;
    let z1: int = u.z.n;
    let f1: int = u.x.d;
    let g1: int = u.y.d;
    let h1: int = u.z.d;
    let x2: int = v.x.n;
    let y2: int = v.y.n;
    let z2: int = v.z.n;
    let f2: int = v.x.d;
    let g2: int = v.y.d;
    let h2: int = v.z.d;
    let q1: int = (y1 * z2) * (h1 * g2);
    let q2: int = (z1 * y2) * (g1 * h2);
    let q3: int = (z1 * x2) * (f1 * h2);
    let q4: int = (x1 * z2) * (h1 * f2);
    let q5: int = (x1 * y2) * (g1 * f2);
    let q6: int = (y1 * x2) * (f1 * g2);
    let m1n: int = x1 * (q1 - q2);
    let m2n: int = y1 * (q3 - q4);
    let m3n: int = z1 * (q5 - q6);
    let m1d: int = f1 * ((g1 * h2) * (h1 * g2));
    let m2d: int = g1 * ((h1 * f2) * (f1 * h2));
    let m3d: int = h1 * ((f1 * g2) * (g1 * f2));
    let s = r3_dot(u, r3_cross(u, v));
    assert(s.n == (m1n * m2d + m2n * m1d) * m3d + m3n * (m1d * m2d));
    // split the numerator into its six signed monomials
    assert((m1n * m2d + m2n * m1d) * m3d == (m1n * m2d) * m3d + (m2n * m1d) * m3d)
        by (nonlinear_arith);
    assert((m1n * m2d) * m3d == ((x1 * q1) * m2d) * m3d - ((x1 * q2) * m2d) * m3d)
        by (nonlinear_arith)
        requires
            m1n == x1 * (q1 - q2),
    ;
    assert((m2n * m1d) * m3d == ((y1 * q3) * m1d) * m3d - ((y1 * q4) * m1d) * m3d)
        by (nonlinear_arith)
        requires
            m2n == y1 * (q3 - q4),
    ;
    assert(m3n * (m1d * m2d) == (z1 * q5) * (m1d * m2d) - (z1 * q6) * (m1d * m2d))
        by (nonlinear_arith)
        requires
            m3n == z1 * (q5 - q6),
    ;
    // the six monomials cancel in pairs
    assert((h1 * g2) * m2d == (h1 * f2) * m1d) by (nonlinear_arith)
        requires
            m1d == f1 * ((g1 * h2) * (h1 * g2)),
            m2d == g1 * ((h1 * f2) * (f1 * h2)),
    ;
    assert((x1 * q1) * m2d == (x1 * (y1 * z2)) * ((h1 * g2) * m2d)) by (nonlinear_arith)
        requires
            q1 == (y1 * z2) * (h1 * g2),
    ;
    assert((y1 * q4) * m1d == (x1 * (y1 * z2)) * ((h1 * f2) * m1d)) by (nonlinear_arith)
        requires
            q4 == (x1 * z2) * (h1 * f2),
    ;
    assert((g1 * h2) * m3d == (g1 * f2) * m1d) by (nonlinear_arith)
        requires
            m1d == f1 * ((g1 * h2) * (h1 * g2)),
            m3d == h1 * ((f1 * g2) * (g1 * f2)),
    ;
    assert(((x1 * q2) * m2d) * m3d == ((x1 * (z1 * y2)) * ((g1 * h2) * m3d)) * m2d)
        by (nonlinear_arith)
        requires
            q2 == (z1 * y2) * (g1 * h2),
    ;
    assert((z1 * q5) * (m1d * m2d) == ((x1 * (z1 * y2)) * ((g1 * f2) * m1d)) * m2d)
        by (nonlinear_arith)
        requires
            q5 == (x1 * y2) * (g1 * f2),
    ;
    assert((f1 * h2) * m3d == (f1 * g2) * m2d) by (nonlinear_arith)
        requires
            m2d == g1 * ((h1 * f2) * (f1 * h2)),
            m3d == h1 * ((f1 * g2) * (g1 * f2)),
    ;
    assert(((y1 * q3) * m1d) * m3d == ((y1 * (z1 * x2)) * ((f1 * h2) * m3d)) * m1d)
        by (nonlinear_arith)
        requires
            q3 == (z1 * x2) * (f1 * h2),
    ;
    assert((z1 * q6) * (m1d * m2d) == ((y1 * (z1 * x2)) * ((f1 * g2) * m2d)) * m1d)
        by (nonlinear_arith)
        requires
            q6 == (y1 * x2) * (f1 * g2),
    ;
    assert(s.n == 0);
    lemma_rat_zero_iff_num(s);
}

/// The scalar product of a vector with a cross product it is the
/// second operand of is zero: `dot(w, cross(v, w)) == 0`.
proof fn lemma_r3_orth_second(v: Rat3, w: Rat3)
    ensures
        rat_eq(r3_dot(w, r3_cross(v, w)), rat_zero()),
{
    lemma_r3_cross_antisym_model(v, w);
    lemma_r3_dot_neg(w, r3_cross(w, v));
    lemma_r3_orth_first(w, v);
    lemma_rat_zero_iff_num(r3_dot(w, r3_cross(w, v)));
    lemma_rat_zero_iff_num(rat_neg(r3_dot(w, r3_cross(w, v))));
}

/// Pulling the first factor of a triple product across a pairing.
proof fn lemma_mul_pull_first(k: int, a: int, b: int, p: int, q: int, r: int)
    by (nonlinear_arith)
    ensures
        (k * (a * b)) * ((p * q) * r) == (k * p) * ((a * b) * (q * r)),
{
}

/// Pulling the middle factor of a triple product across a pairing.
proof fn lemma_mul_pull_mid(k: int, a: int, b: int, p: int, q: int, r: int)
    by (nonlinear_arith)
    ensures
        (k * (a * b)) * ((p * q) * r) == (k * q) * ((a * b) * (p * r)),
{
}

/// Pulling the last factor of a triple product across a pairing.
proof fn lemma_mul_pull_last(k: int, a: int, b: int, p: int, q: int, r: int)
    by (nonlinear_arith)
    ensures
        (k * (a * b)) * ((p * q) * r) == (k * r) * ((a * b) * (p * q)),
{
}

/// Multiplication of integers is commutative.
proof fn lemma_mul_swap(a: int, b: int)
    by (nonlinear_arith)
    ensures
        a * b == b * a,
{
}

/// Cycling the scalar triple product: `dot(u, cross(v, w)) ==
/// dot(w, cross(u, v))`.
proof fn lemma_r3_triple_cyclic(u: Rat3, v: Rat3, w: Rat3)
    ensures
        rat_eq(r3_dot(u, r3_cross(v, w)), r3_dot(w, r3_cross(u, v))),
{
    let x1: int = u.x.n;
    let y1: int = u.y.n;
    let z1: int = u.z.n;
    let f1: int = u.x.d;
    let g1: int = u.y.d;
    let h1: int = u.z.d;
    let x2: int = v.x.n;
    let y2: int = v.y.n;
    let z2: int = v.z.n;
    let f2: int = v.x.d;
    let g2: int = v.y.d;
    let h2: int = v.z.d;
    let x3: int = w.x.n;
    let y3: int = w.y.n;
    let z3: int = w.z.n;
    let f3: int = w.x.d;
    let g3: int = w.y.d;
    let h3: int = w.z.d;
    let p1: int = (y2 * z3) * (h2 * g3);
    let p2: int = (z2 * y3) * (g2 * h3);
    let p3: int = (z2 * x3) * (f2 * h3);
    let p4: int = (x2 * z3) * (h2 * f3);
    let p5: int = (x2 * y3) * (g2 * f3);
    let p6: int = (y2 * x3) * (f2 * g3);
    let r1: int = (y1 * z2) * (h1 * g2);
    let r2: int = (z1 * y2) * (g1 * h2);
    let r3: int = (z1 * x2) * (f1 * h2);
    let r4: int = (x1 * z2) * (h1 * f2);
    let r5: int = (x1 * y2) * (g1 * f2);
    let r6: int = (y1 * x2) * (f1 * g2);
    let m1d: int = f1 * ((g2 * h3) * (h2 * g3));
    let m2d: int = g1 * ((h2 * f3) * (f2 * h3));
    let m3d: int = h1 * ((f2 * g3) * (g2 * f3));
    let n1d: int = f3 * ((g1 * h2) * (h1 * g2));
    let n2d: int = g3 * ((h1 * f2) * (f1 * h2));
    let n3d: int = h3 * ((f1 * g2) * (g1 * f2));
    let m1n: int = x1 * (p1 - p2);
    let m2n: int = y1 * (p3 - p4);
    let m3n: int = z1 * (p5 - p6);
    let n1n: int = x3 * (r1 - r2);
    let n2n: int = y3 * (r3 - r4);
    let n3n: int = z3 * (r5 - r6);
    let t1: int = ((x1 * p1) * m2d) * m3d;
    let t2: int = ((x1 * p2) * m2d) * m3d;
    let t3: int = ((y1 * p3) * m1d) * m3d;
    let t4: int = ((y1 * p4) * m1d) * m3d;
    let t5: int = (z1 * p5) * (m1d * m2d);
    let t6: int = (z1 * p6) * (m1d * m2d);
    let s1: int = ((x3 * r1) * n2d) * n3d;
    let s2: int = ((x3 * r2) * n2d) * n3d;
    let s3: int = ((y3 * r3) * n1d) * n3d;
    let s4: int = ((y3 * r4) * n1d) * n3d;
    let s5: int = (z3 * r5) * (n1d * n2d);
    let s6: int = (z3 * r6) * (n1d * n2d);
    let xv = r3_dot(u, r3_cross(v, w));
    let yv = r3_dot(w, r3_cross(u, v));
    let xn: int = xv.n;
    let yn: int = yv.n;
    let xd: int = xv.d;
    let yd: int = yv.d;
    assert(xn == (m1n * m2d + m2n * m1d) * m3d + m3n * (m1d * m2d));
    assert(xd == (m1d * m2d) * m3d);
    assert(yn == (n1n * n2d + n2n * n1d) * n3d + n3n * (n1d * n2d));
    assert(yd == (n1d * n2d) * n3d);
    assert((m1n * m2d + m2n * m1d) * m3d == (m1n * m2d) * m3d + (m2n * m1d) * m3d)
        by (nonlinear_arith);
    assert((m1n * m2d) * m3d == t1 - t2) by (nonlinear_arith)
        requires
            m1n == x1 * (p1 - p2),
            t1 == ((x1 * p1) * m2d) * m3d,
            t2 == ((x1 * p2) * m2d) * m3d,
    ;
    assert((m2n * m1d) * m3d == t3 - t4) by (nonlinear_arith)
        requires
            m2n == y1 * (p3 - p4),
            t3 == ((y1 * p3) * m1d) * m3d,
            t4 == ((y1 * p4) * m1d) * m3d,
    ;
    assert(m3n * (m1d * m2d) == t5 - t6) by (nonlinear_arith)
        requires
            m3n == z1 * (p5 - p6),
            t5 == (z1 * p5) * (m1d * m2d),
            t6 == (z1 * p6) * (m1d * m2d),
    ;
    assert(xn == ((t1 - t2) + (t3 - t4)) + (t5 - t6));
    assert((n1n * n2d + n2n * n1d) * n3d == (n1n * n2d) * n3d + (n2n * n1d) * n3d)
        by (nonlinear_arith);
    assert((n1n * n2d) * n3d == s1 - s2) by (nonlinear_arith)
        requires
            n1n == x3 * (r1 - r2),
            s1 == ((x3 * r1) * n2d) * n3d,
            s2 == ((x3 * r2) * n2d) * n3d,
    ;
    assert((n2n * n1d) * n3d == s3 - s4) by (nonlinear_arith)
        requires
            n2n == y3 * (r3 - r4),
            s3 == ((y3 * r3) * n1d) * n3d,
            s4 == ((y3 * r4) * n1d) * n3d,
    ;
    assert(n3n * (n1d * n2d) == s5 - s6) by (nonlinear_arith)
        requires
            n3n == z3 * (r5 - r6),
            s5 == (z3 * r5) * (n1d * n2d),
            s6 == (z3 * r6) * (n1d * n2d),
    ;
    assert(yn == ((s1 - s2) + (s3 - s4)) + (s5 - s6));
    assert(xn * yd == ((t1 * yd - t2 * yd) + (t3 * yd - t4 * yd)) + (t5 * yd - t6 * yd))
        by (nonlinear_arith)
        requires
            xn == ((t1 - t2) + (t3 - t4)) + (t5 - t6),
    ;
    assert(yn * xd == ((s1 * xd - s2 * xd) + (s3 * xd - s4 * xd)) + (s5 * xd - s6 * xd))
        by (nonlinear_arith)
        requires
            yn == ((s1 - s2) + (s3 - s4)) + (s5 - s6),
    ;
    // t1 and s5 carry the same monomial
    let k1: int = (x1 * (y2 * z3)) * (h2 * g3);
    let l5: int = (x1 * (y2 * z3)) * (g1 * f2);
    assert(t1 == k1 * (m2d * m3d)) by (nonlinear_arith)
        requires
            t1 == ((x1 * p1) * m2d) * m3d,
            p1 == (y2 * z3) * (h2 * g3),
            k1 == (x1 * (y2 * z3)) * (h2 * g3),
    ;
    assert(s5 == l5 * (n1d * n2d)) by (nonlinear_arith)
        requires
            s5 == (z3 * r5) * (n1d * n2d),
            r5 == (x1 * y2) * (g1 * f2),
            l5 == (x1 * (y2 * z3)) * (g1 * f2),
    ;
    lemma_mul_pull_last(k1, m2d, m3d, n1d, n2d, n3d);
    lemma_mul_pull_first(l5, n1d, n2d, m1d, m2d, m3d);
    assert((h2 * g3) * n3d == (g1 * f2) * m1d) by (nonlinear_arith)
        requires
            n3d == h3 * ((f1 * g2) * (g1 * f2)),
            m1d == f1 * ((g2 * h3) * (h2 * g3)),
    ;
    assert(k1 * n3d == (x1 * (y2 * z3)) * ((h2 * g3) * n3d)) by (nonlinear_arith)
        requires
            k1 == (x1 * (y2 * z3)) * (h2 * g3),
    ;
    assert(l5 * m1d == (x1 * (y2 * z3)) * ((g1 * f2) * m1d)) by (nonlinear_arith)
        requires
            l5 == (x1 * (y2 * z3)) * (g1 * f2),
    ;
    lemma_mul_swap((m2d * m3d), (n1d * n2d));
    assert(t1 * yd == s5 * xd);
    // t2 and s4 carry the same monomial
    let k2: int = (x1 * (z2 * y3)) * (g2 * h3);
    let l4: int = (x1 * (z2 * y3)) * (h1 * f2);
    assert(t2 == k2 * (m2d * m3d)) by (nonlinear_arith)
        requires
            t2 == ((x1 * p2) * m2d) * m3d,
            p2 == (z2 * y3) * (g2 * h3),
            k2 == (x1 * (z2 * y3)) * (g2 * h3),
    ;
    assert(s4 == l4 * (n1d * n3d)) by (nonlinear_arith)
        requires
            s4 == ((y3 * r4) * n1d) * n3d,
            r4 == (x1 * z2) * (h1 * f2),
            l4 == (x1 * (z2 * y3)) * (h1 * f2),
    ;
    lemma_mul_pull_mid(k2, m2d, m3d, n1d, n2d, n3d);
    lemma_mul_pull_first(l4, n1d, n3d, m1d, m2d, m3d);
    assert((g2 * h3) * n2d == (h1 * f2) * m1d) by (nonlinear_arith)
        requires
            n2d == g3 * ((h1 * f2) * (f1 * h2)),
            m1d == f1 * ((g2 * h3) * (h2 * g3)),
    ;
    assert(k2 * n2d == (x1 * (z2 * y3)) * ((g2 * h3) * n2d)) by (nonlinear_arith)
        requires
            k2 == (x1 * (z2 * y3)) * (g2 * h3),
    ;
    assert(l4 * m1d == (x1 * (z2 * y3)) * ((h1 * f2) * m1d)) by (nonlinear_arith)
        requires
            l4 == (x1 * (z2 * y3)) * (h1 * f2),
    ;
    lemma_mul_swap((m2d * m3d), (n1d * n3d));
    assert(t2 * yd == s4 * xd);
    // t3 and s1 carry the same monomial
    let k3: int = (y1 * (z2 * x3)) * (f2 * h3);
    let l1: int = (y1 * (z2 * x3)) * (h1 * g2);
    assert(t3 == k3 * (m1d * m3d)) by (nonlinear_arith)
        requires
            t3 == ((y1 * p3) * m1d) * m3d,
            p3 == (z2 * x3) * (f2 * h3),
            k3 == (y1 * (z2 * x3)) * (f2 * h3),
    ;
    assert(s1 == l1 * (n2d * n3d)) by (nonlinear_arith)
        requires
            s1 == ((x3 * r1) * n2d) * n3d,
            r1 == (y1 * z2) * (h1 * g2),
            l1 == (y1 * (z2 * x3)) * (h1 * g2),
    ;
    lemma_mul_pull_first(k3, m1d, m3d, n1d, n2d, n3d);
    lemma_mul_pull_mid(l1, n2d, n3d, m1d, m2d, m3d);
    assert((f2 * h3) * n1d == (h1 * g2) * m2d) by (nonlinear_arith)
        requires
            n1d == f3 * ((g1 * h2) * (h1 * g2)),
            m2d == g1 * ((h2 * f3) * (f2 * h3)),
    ;
    assert(k3 * n1d == (y1 * (z2 * x3)) * ((f2 * h3) * n1d)) by (nonlinear_arith)
        requires
            k3 == (y1 * (z2 * x3)) * (f2 * h3),
    ;
    assert(l1 * m2d == (y1 * (z2 * x3)) * ((h1 * g2) * m2d)) by (nonlinear_arith)
        requires
            l1 == (y1 * (z2 * x3)) * (h1 * g2),
    ;
    lemma_mul_swap((m1d * m3d), (n2d * n3d));
    assert(t3 * yd == s1 * xd);
    // t4 and s6 carry the same monomial
    let k4: int = (y1 * (x2 * z3)) * (h2 * f3);
    let l6: int = (y1 * (x2 * z3)) * (f1 * g2);
    assert(t4 == k4 * (m1d * m3d)) by (nonlinear_arith)
        requires
            t4 == ((y1 * p4) * m1d) * m3d,
            p4 == (x2 * z3) * (h2 * f3),
            k4 == (y1 * (x2 * z3)) * (h2 * f3),
    ;
    assert(s6 == l6 * (n1d * n2d)) by (nonlinear_arith)
        requires
            s6 == (z3 * r6) * (n1d * n2d),
            r6 == (y1 * x2) * (f1 * g2),
            l6 == (y1 * (x2 * z3)) * (f1 * g2),
    ;
    lemma_mul_pull_last(k4, m1d, m3d, n1d, n2d, n3d);
    lemma_mul_pull_mid(l6, n1d, n2d, m1d, m2d, m3d);
    assert((h2 * f3) * n3d == (f1 * g2) * m2d) by (nonlinear_arith)
        requires
            n3d == h3 * ((f1 * g2) * (g1 * f2)),
            m2d == g1 * ((h2 * f3) * (f2 * h3)),
    ;
    assert(k4 * n3d == (y1 * (x2 * z3)) * ((h2 * f3) * n3d)) by (nonlinear_arith)
        requires
            k4 == (y1 * (x2 * z3)) * (h2 * f3),
    ;
    assert(l6 * m2d == (y1 * (x2 * z3)) * ((f1 * g2) * m2d)) by (nonlinear_arith)
        requires
            l6 == (y1 * (x2 * z3)) * (f1 * g2),
    ;
    lemma_mul_swap((m1d * m3d), (n1d * n2d));
    assert(t4 * yd == s6 * xd);
    // t5 and s3 carry the same monomial
    let k5: int = (z1 * (x2 * y3)) * (g2 * f3);
    let l3: int = (z1 * (x2 * y3)) * (f1 * h2);
    assert(t5 == k5 * (m1d * m2d)) by (nonlinear_arith)
        requires
            t5 == (z1 * p5) * (m1d * m2d),
            p5 == (x2 * y3) * (g2 * f3),
            k5 == (z1 * (x2 * y3)) * (g2 * f3),
    ;
    assert(s3 == l3 * (n1d * n3d)) by (nonlinear_arith)
        requires
            s3 == ((y3 * r3) * n1d) * n3d,
            r3 == (z1 * x2) * (f1 * h2),
            l3 == (z1 * (x2 * y3)) * (f1 * h2),
    ;
    lemma_mul_pull_mid(k5, m1d, m2d, n1d, n2d, n3d);
    lemma_mul_pull_last(l3, n1d, n3d, m1d, m2d, m3d);
    assert((g2 * f3) * n2d == (f1 * h2) * m3d) by (nonlinear_arith)
        requires
            n2d == g3 * ((h1 * f2) * (f1 * h2)),
            m3d == h1 * ((f2 * g3) * (g2 * f3)),
    ;
    assert(k5 * n2d == (z1 * (x2 * y3)) * ((g2 * f3) * n2d)) by (nonlinear_arith)
        requires
            k5 == (z1 * (x2 * y3)) * (g2 * f3),
    ;
    assert(l3 * m3d == (z1 * (x2 * y3)) * ((f1 * h2) * m3d)) by (nonlinear_arith)
        requires
            l3 == (z1 * (x2 * y3)) * (f1 * h2),
    ;
    lemma_mul_swap((m1d * m2d), (n1d * n3d));
    assert(t5 * yd == s3 * xd);
    // t6 and s2 carry the same monomial
    let k6: int = (z1 * (y2 * x3)) * (f2 * g3);
    let l2: int = (z1 * (y2 * x3)) * (g1 * h2);
    assert(t6 == k6 * (m1d * m2d)) by (nonlinear_arith)
        requires
            t6 == (z1 * p6) * (m1d * m2d),
            p6 == (y2 * x3) * (f2 * g3),
            k6 == (z1 * (y2 * x3)) * (f2 * g3),
    ;
    assert(s2 == l2 * (n2d * n3d)) by (nonlinear_arith)
        requires
            s2 == ((x3 * r2) * n2d) * n3d,
            r2 == (z1 * y2) * (g1 * h2),
            l2 == (z1 * (y2 * x3)) * (g1 * h2),
    ;
    lemma_mul_pull_first(k6, m1d, m2d, n1d, n2d, n3d);
    lemma_mul_pull_last(l2, n2d, n3d, m1d, m2d, m3d);
    assert((f2 * g3) * n1d == (g1 * h2) * m3d) by (nonlinear_arith)
        requires
            n1d == f3 * ((g1 * h2) * (h1 * g2)),
            m3d == h1 * ((f2 * g3) * (g2 * f3)),
    ;
    assert(k6 * n1d == (z1 * (y2 * x3)) * ((f2 * g3) * n1d)) by (nonlinear_arith)
        requires
            k6 == (z1 * (y2 * x3)) * (f2 * g3),
    ;
    assert(l2 * m3d == (z1 * (y2 * x3)) * ((g1 * h2) * m3d)) by (nonlinear_arith)
        requires
            l2 == (z1 * (y2 * x3)) * (g1 * h2),
    ;
    lemma_mul_swap((m1d * m2d), (n2d * n3d));
    assert(t6 * yd == s2 * xd);
    assert(xn * yd == yn * xd);
}

/// The cross product is orthogonal to both of its operands:
/// `dot(cross(a, b), a) == 0` and `dot(cross(a, b), b) == 0`.
pub proof fn lemma_vec3_cross_orthogonal(a: Vec3, b: Vec3)
    ensures
        rat_eq(r3_dot(r3_cross(a@, b@), a@), rat_zero()),
        rat_eq(r3_dot(r3_cross(a@, b@), b@), rat_zero()),
{
    let c = r3_cross(a@, b@);
    lemma_rat_mul_comm(c.x, a@.x);
    lemma_rat_mul_comm(c.y, a@.y);
    lemma_rat_mul_comm(c.z, a@.z);
    lemma_r3_orth_first(a@, b@);
    lemma_rat_mul_comm(c.x, b@.x);
    lemma_rat_mul_comm(c.y, b@.y);
    lemma_rat_mul_comm(c.z, b@.z);
    lemma_r3_orth_second(a@, b@);
}

/// The scalar product moves through a division of the right operand by
/// a scalar: `dot(p, w / t) == dot(p, w) / t` as rationals.
proof fn lemma_r3_dot_div(p: Rat3, q: Rat3, t: Rat)
    requires
        p.x.d > 0,
        p.y.d > 0,
        p.z.d > 0,
        q.x.d > 0,
        q.y.d > 0,
        q.z.d > 0,
        t.n != 0,
    ensures
        rat_eq(r3_dot(p, r3_div_scalar(q, t)), rat_div(r3_dot(p, q), t)),
{
    let i = rat_inv(t);
    lemma_rat_div_is_mul_inv(q.x, t);
    lemma_rat_div_is_mul_inv(q.y, t);
    lemma_rat_div_is_mul_inv(q.z, t);
    lemma_rat_mul_assoc(p.x, q.x, i);
    lemma_rat_mul_assoc(p.y, q.y, i);
    lemma_rat_mul_assoc(p.z, q.z, i);
    let ux = rat_mul(p.x, q.x);
    let uy = rat_mul(p.y, q.y);
    let uz = rat_mul(p.z, q.z);
    lemma_rat_dist_right(ux, uy, i);
    lemma_rat_add_cong(
        rat_add(rat_mul(ux, i), rat_mul(uy, i)),
        rat_mul(rat_add(ux, uy), i),
        rat_mul(uz, i),
        rat_mul(uz, i),
    );
    lemma_rat_dist_right(rat_add(ux, uy), uz, i);
    assert(i.d != 0);
    lemma_pos_prod(p.x.d, q.x.d);
    lemma_pos_prod(p.y.d, q.y.d);
    lemma_pos_prod(p.z.d, q.z.d);
    lemma_pos_prod(ux.d, uy.d);
    lemma_nonzero_prod(ux.d * uy.d, i.d);
    lemma_nonzero_prod(uz.d, i.d);
    lemma_nonzero_prod((ux.d * uy.d) * i.d, uz.d * i.d);
    lemma_rat_eq_trans(
        rat_add(rat_add(rat_mul(ux, i), rat_mul(uy, i)), rat_mul(uz, i)),
        rat_add(rat_mul(rat_add(ux, uy), i), rat_mul(uz, i)),
        rat_mul(rat_add(rat_add(ux, uy), uz), i),
    );
    lemma_rat_div_is_mul_inv(r3_dot(p, q), t);
}

/// The denominator of a scalar product of vectors with positive
/// component denominators is positive.
proof fn lemma_r3_dot_den_pos(p: Rat3, q: Rat3)
    requires
        p.x.d > 0,
        p.y.d > 0,
        p.z.d > 0,
        q.x.d > 0,
        q.y.d > 0,
        q.z.d > 0,
    ensures
        r3_dot(p, q).d > 0,
{
    lemma_pos_prod(p.x.d, q.x.d);
    lemma_pos_prod(p.y.d, q.y.d);
    lemma_pos_prod(p.z.d, q.z.d);
    lemma_pos_prod(p.x.d * q.x.d, p.y.d * q.y.d);
    lemma_pos_prod((p.x.d * q.x.d) * (p.y.d * q.y.d), p.z.d * q.z.d);
}

/// The denominators of a cross product of vectors with positive
/// component denominators are positive.
proof fn lemma_r3_cross_den_pos(p: Rat3, q: Rat3)
    requires
        p.x.d > 0,
        p.y.d > 0,
        p.z.d > 0,
        q.x.d > 0,
        q.y.d > 0,
        q.z.d > 0,
    ensures
        r3_cross(p, q).x.d > 0,
        r3_cross(p, q).y.d > 0,
        r3_cross(p, q).z.d > 0,
{
    lemma_pos_prod(p.y.d, q.z.d);
    lemma_pos_prod(p.z.d, q.y.d);
    lemma_pos_prod(p.y.d * q.z.d, p.z.d * q.y.d);
    lemma_pos_prod(p.z.d, q.x.d);
    lemma_pos_prod(p.x.d, q.z.d);
    lemma_pos_prod(p.z.d * q.x.d, p.x.d * q.z.d);
    lemma_pos_prod(p.x.d, q.y.d);
    lemma_pos_prod(p.y.d, q.x.d);
    lemma_pos_prod(p.x.d * q.y.d, p.y.d * q.x.d);
}

/// Dual basis law: for a basis `(a, b, c)` of nonzero triple product,
/// the triple `(b1, b2, b3)` that `dual_basis` returns satisfies
/// `dot(a_i, b_j) == 1` when `i == j` and `== 0` otherwise.
pub proof fn lemma_vec3_dual_basis(a: Vec3, b: Vec3, c: Vec3)
    requires
        a.wf(),
        b.wf(),
        c.wf(),
        !rat_eq(r3_triple(a@, b@, c@), rat_zero()),
    ensures
        ({
            let t = r3_triple(a@, b@, c@);
            let b1 = r3_div_scalar(r3_cross(b@, c@), t);
            let b2 = r3_div_scalar(r3_cross(c@, a@), t);
            let b3 = r3_div_scalar(r3_cross(a@, b@), t);
            rat_eq(r3_dot(a@, b1), rat_one()) && rat_eq(r3_dot(b@, b1), rat_zero()) && rat_eq(
                r3_dot(c@, b1),
                rat_zero(),
            ) && rat_eq(r3_dot(a@, b2), rat_zero()) && rat_eq(r3_dot(b@, b2), rat_one()) && rat_eq(
                r3_dot(c@, b2),
                rat_zero(),
            ) && rat_eq(r3_dot(a@, b3), rat_zero()) && rat_eq(r3_dot(b@, b3), rat_zero()) && rat_eq(
                r3_dot(c@, b3),
                rat_one(),
            )
        }),
{
    let t = r3_triple(a@, b@, c@);
    lemma_rat_zero_iff_num(t);
    assert(t.n != 0);
    let w1 = r3_cross(b@, c@);
    let w2 = r3_cross(c@, a@);
    let w3 = r3_cross(a@, b@);
    lemma_r3_cross_den_pos(b@, c@);
    lemma_r3_cross_den_pos(c@, a@);
    lemma_r3_cross_den_pos(a@, b@);
    lemma_r3_dot_den_pos(a@, w1);
    assert(t.d > 0);
    lemma_nonzero_prod(t.d, t.n);
    lemma_rat_div_self(t);

    // dot(a, b1) == (a . (b x c)) / t == t / t == 1
    lemma_r3_dot_div(a@, w1, t);
    lemma_rat_eq_trans(r3_dot(a@, r3_div_scalar(w1, t)), rat_div(t, t), rat_one());

    // dot(b, b1) == (b . (b x c)) / t == 0 / t == 0
    lemma_r3_dot_div(b@, w1, t);
    lemma_r3_orth_first(b@, c@);
    lemma_rat_zero_div(r3_dot(b@, w1), t);
    lemma_r3_dot_den_pos(b@, w1);
    lemma_nonzero_prod(r3_dot(b@, w1).d, t.n);
    lemma_rat_eq_trans(
        r3_dot(b@, r3_div_scalar(w1, t)),
        rat_div(r3_dot(b@, w1), t),
        rat_zero(),
    );

    // dot(c, b1) == (c . (b x c)) / t == 0 / t == 0
    lemma_r3_dot_div(c@, w1, t);
    lemma_r3_orth_second(b@, c@);
    lemma_rat_zero_div(r3_dot(c@, w1), t);
    lemma_r3_dot_den_pos(c@, w1);
    lemma_nonzero_prod(r3_dot(c@, w1).d, t.n);
    lemma_rat_eq_trans(
        r3_dot(c@, r3_div_scalar(w1, t)),
        rat_div(r3_dot(c@, w1), t),
        rat_zero(),
    );

    // dot(a, b2) == (a . (c x a)) / t == 0 / t == 0
    lemma_r3_dot_div(a@, w2, t);
    lemma_r3_orth_second(c@, a@);
    lemma_rat_zero_div(r3_dot(a@, w2), t);
    lemma_r3_dot_den_pos(a@, w2);
    lemma_nonzero_prod(r3_dot(a@, w2).d, t.n);
    lemma_rat_eq_trans(
        r3_dot(a@, r3_div_scalar(w2, t)),
        rat_div(r3_dot(a@, w2), t),
        rat_zero(),
    );

    // dot(b, b2) == (b . (c x a)) / t == t / t == 1, cycling the triple
    lemma_r3_dot_div(b@, w2, t);
    lemma_r3_triple_cyclic(b@, c@, a@);
    lemma_rat_div_cong_left(r3_dot(b@, w2), t, t);
    lemma_r3_dot_den_pos(b@, w2);
    lemma_nonzero_prod(r3_dot(b@, w2).d, t.n);
    lemma_rat_eq_trans(
        r3_dot(b@, r3_div_scalar(w2, t)),
        rat_div(r3_dot(b@, w2), t),
        rat_div(t, t),
    );
    lemma_rat_eq_trans(r3_dot(b@, r3_div_scalar(w2, t)), rat_div(t, t), rat_one());

    // dot(c, b2) == (c . (c x a)) / t == 0 / t == 0
    lemma_r3_dot_div(c@, w2, t);
    lemma_r3_orth_first(c@, a@);
    lemma_rat_zero_div(r3_dot(c@, w2), t);
    lemma_r3_dot_den_pos(c@, w2);
    lemma_nonzero_prod(r3_dot(c@, w2).d, t.n);
    lemma_rat_eq_trans(
        r3_dot(c@, r3_div_scalar(w2, t)),
        rat_div(r3_dot(c@, w2), t),
        rat_zero(),
    );

    // dot(a, b3) == (a . (a x b)) / t == 0 / t == 0
    lemma_r3_dot_div(a@, w3, t);
    lemma_r3_orth_first(a@, b@);
    lemma_rat_zero_div(r3_dot(a@, w3), t);
    lemma_r3_dot_den_pos(a@, w3);
    lemma_nonzero_prod(r3_dot(a@, w3).d, t.n);
    lemma_rat_eq_trans(
        r3_dot(a@, r3_div_scalar(w3, t)),
        rat_div(r3_dot(a@, w3), t),
        rat_zero(),
    );

    // dot(b, b3) == (b . (a x b)) / t == 0 / t == 0
    lemma_r3_dot_div(b@, w3, t);
    lemma_r3_orth_second(a@, b@);
    lemma_rat_zero_div(r3_dot(b@, w3), t);
    lemma_r3_dot_den_pos(b@, w3);
    lemma_nonzero_prod(r3_dot(b@, w3).d, t.n);
    lemma_rat_eq_trans(
        r3_dot(b@, r3_div_scalar(w3, t)),
        rat_div(r3_dot(b@, w3), t),
        rat_zero(),
    );

    // dot(c, b3) == (c . (a x b)) / t == t / t == 1, cycling the triple
    lemma_r3_dot_div(c@, w3, t);
    lemma_r3_triple_cyclic(a@, b@, c@);
    lemma_rat_div_cong_left(r3_dot(c@, w3), t, t);
    lemma_r3_dot_den_pos(c@, w3);
    lemma_nonzero_prod(r3_dot(c@, w3).d, t.n);
    lemma_rat_eq_trans(
        r3_dot(c@, r3_div_scalar(w3, t)),
        rat_div(r3_dot(c@, w3), t),
        rat_div(t, t),
    );
    lemma_rat_eq_trans(r3_dot(c@, r3_div_scalar(w3, t)), rat_div(t, t), rat_one());
}

impl PartialEq for Vec3 {
    /// Two vectors are equal exactly when their components denote the
    /// same rationals.
    fn eq(&self, other: &Self) -> (r: bool) {
        self.x == other.x && self.y == other.y && self.z == other.z
    }
}

impl vstd::std_specs::cmp::PartialEqSpecImpl for Vec3 {
    open spec fn obeys_eq_spec() -> bool {
        true
    }

    open spec fn eq_spec(&self, other: &Self) -> bool {
        r3_eq(self@, other@)
    }
}

} // verus!
