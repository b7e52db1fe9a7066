//! The executable scalar of the library: an exact rational number held
//! as a 64-bit numerator over a positive 64-bit denominator.  Every
//! operation is verified against the model of `crate::rat`; operations
//! whose exact result would leave the machine range are excluded by
//! precondition rather than rounded.

use vstd::prelude::*;

use crate::rat::{
    lemma_pos_neg_prod, lemma_pos_prod, rat_add, rat_div, rat_eq, rat_int, rat_mul, rat_neg,
    rat_sub, rat_zero, Rat,
};
use crate::GeomError;

verus! {

/// `x` lies in the symmetric machine range of a numerator or
/// denominator.  The range leaves out `i64::MIN`, so that every held
/// value can also be negated and written out without leaving it.
pub open spec fn fits(x: int) -> bool {
    -0x7fff_ffff_ffff_ffff <= x <= 0x7fff_ffff_ffff_ffff
}

/// The exact sum of `a` and `b` stays in the machine range.
pub open spec fn add_fits(a: Rat, b: Rat) -> bool {
    fits(a.n * b.d + b.n * a.d) && fits(a.d * b.d)
}

/// The exact difference of `a` and `b` stays in the machine range.
pub open spec fn sub_fits(a: Rat, b: Rat) -> bool {
    fits(a.n * b.d - b.n * a.d) && fits(a.d * b.d)
}

/// The exact product of `a` and `b` stays in the machine range.
pub open spec fn mul_fits(a: Rat, b: Rat) -> bool {
    fits(a.n * b.n) && fits(a.d * b.d)
}

/// The exact quotient of `a` by `b` stays in the machine range.
pub open spec fn div_fits(a: Rat, b: Rat) -> bool {
    fits(a.n * b.d) && fits(a.d * b.n)
}

/// An exact rational scalar `num / den`.
#[derive(Debug, Clone, Copy)]
pub struct Scalar {
    /// numerator of the scalar
    pub num: i64,
    /// denominator of the scalar; valid values keep it positive
    pub den: i64,
}

impl View for Scalar {
    type V = Rat;

    open spec fn view(&self) -> Rat {
        Rat { n: self.num as int, d: self.den as int }
    }
}

/// The product of two values of the full `i64` range stays within
/// `i128`.
proof fn lemma_i64_prod_in_i128(x: int, y: int)
    by (nonlinear_arith)
    requires
        -0x8000_0000_0000_0000 <= x <= 0x7fff_ffff_ffff_ffff,
        -0x8000_0000_0000_0000 <= y <= 0x7fff_ffff_ffff_ffff,
    ensures
        -(0x8000_0000_0000_0000 * 0x8000_0000_0000_0000) <= x * y <= 0x8000_0000_0000_0000
            * 0x8000_0000_0000_0000,
{
}

impl Scalar {
    /// Valid scalars keep a positive denominator and a numerator
    /// strictly above `i64::MIN`.  Constructors establish this and
    /// every operation preserves it.
    pub open spec fn wf(self) -> bool {
        self.den > 0 && self.num > i64::MIN
    }

    /// The scalar equal to the integer `n`.
    pub fn from_int(n: i64) -> (r: Scalar)
        requires
            n > i64::MIN,
        ensures
            r@ == rat_int(n as int),
            r.wf(),
    {
        Scalar { num: n, den: 1 }
    }

    /// The scalar `num / den`.
    pub fn ratio(num: i64, den: i64) -> (r: Scalar)
        requires
            num > i64::MIN,
            den > 0,
        ensures
            r@ == (Rat { n: num as int, d: den as int }),
            r.wf(),
    {
        Scalar { num, den }
    }

    /// Whether the scalar is zero.
    pub fn is_zero(&self) -> (r: bool)
        ensures
            r == rat_eq(self@, rat_zero()),
    {
        self.num == 0
    }

    /// The exact sum `self + rhs`.
    pub fn add(self, rhs: Scalar) -> (r: Scalar)
        requires
            self.wf(),
            rhs.wf(),
            add_fits(self@, rhs@),
        ensures
            r@ == rat_add(self@, rhs@),
            r.wf(),
    {
        proof {
            lemma_i64_prod_in_i128(self.num as int, rhs.den as int);
            lemma_i64_prod_in_i128(rhs.num as int, self.den as int);
            lemma_i64_prod_in_i128(self.den as int, rhs.den as int);
            lemma_pos_prod(self.den as int, rhs.den as int);
        }
        let n: i128 = (self.num as i128) * (rhs.den as i128) + (rhs.num as i128) * (self.den
            as i128);
        let d: i128 = (self.den as i128) * (rhs.den as i128);
        Scalar { num: n as i64, den: d as i64 }
    }

    /// The exact difference `self - rhs`.
    pub fn sub(self, rhs: Scalar) -> (r: Scalar)
        requires
            self.wf(),
            rhs.wf(),
            sub_fits(self@, rhs@),
        ensures
            r@ == rat_sub(self@, rhs@),
            r.wf(),
    {
        proof {
            lemma_i64_prod_in_i128(self.num as int, rhs.den as int);
            lemma_i64_prod_in_i128(rhs.num as int, self.den as int);
            lemma_i64_prod_in_i128(self.den as int, rhs.den as int);
            lemma_pos_prod(self.den as int, rhs.den as int);
        }
        let n: i128 = (self.num as i128) * (rhs.den as i128) - (rhs.num as i128) * (self.den
            as i128);
        let d: i128 = (self.den as i128) * (rhs.den as i128);
        Scalar { num: n as i64, den: d as i64 }
    }

    /// The exact product `self * rhs`.
    pub fn mul(self, rhs: Scalar) -> (r: Scalar)
        requires
            self.wf(),
            rhs.wf(),
            mul_fits(self@, rhs@),
        ensures
            r@ == rat_mul(self@, rhs@),
            r.wf(),
    {
        proof {
            lemma_i64_prod_in_i128(self.num as int, rhs.num as int);
            lemma_i64_prod_in_i128(self.den as int, rhs.den as int);
            lemma_pos_prod(self.den as int, rhs.den as int);
        }
        let n: i128 = (self.num as i128) * (rhs.num as i128);
        let d: i128 = (self.den as i128) * (rhs.den as i128);
        Scalar { num: n as i64, den: d as i64 }
    }

    /// The exact quotient `self / rhs`, or the division failure when
    /// `rhs` is zero.
    pub fn div(self, rhs: Scalar) -> (r: Result<Scalar, GeomError>)
        requires
            self.wf(),
            rhs.wf(),
            div_fits(self@, rhs@),
        ensures
            rat_eq(rhs@, rat_zero()) ==> r == Err::<Scalar, GeomError>(GeomError::DivisionByZero),
            !rat_eq(rhs@, rat_zero()) ==> (r matches Ok(s) && s@ == rat_div(self@, rhs@)
                && s.wf()),
    {
        if rhs.num == 0 {
            proof {
                assert(rat_eq(rhs@, rat_zero())) by (nonlinear_arith)
                    requires
                        rhs@.n == 0,
                ;
            }
            return Err(GeomError::DivisionByZero);
        }
        proof {
            assert(!rat_eq(rhs@, rat_zero())) by (nonlinear_arith)
                requires
                    rhs@.n != 0,
            ;
        }
        proof {
            lemma_i64_prod_in_i128(self.num as int, rhs.den as int);
            lemma_i64_prod_in_i128(self.den as int, rhs.num as int);
        }
        let n: i128 = (self.num as i128) * (rhs.den as i128);
        let d: i128 = (self.den as i128) * (rhs.num as i128);
        if rhs.num < 0 {
            proof {
                lemma_pos_neg_prod(self.den as int, rhs.num as int);
            }
            Ok(Scalar { num: (-n) as i64, den: (-d) as i64 })
        } else {
            proof {
                lemma_pos_prod(self.den as int, rhs.num as int);
            }
            Ok(Scalar { num: n as i64, den: d as i64 })
        }
    }

    /// The exact negation `-self`.
    pub fn neg(self) -> (r: Scalar)
        requires
            self.wf(),
        ensures
            r@ == rat_neg(self@),
            r.wf(),
    {
        Scalar { num: -self.num, den: self.den }
    }
}

impl PartialEq for Scalar {
    /// Two scalars are equal exactly when they denote the same
    /// rational, whatever representatives they hold.
    fn eq(&self, other: &Self) -> (r: bool) {
        proof {
            lemma_i64_prod_in_i128(self.num as int, other.den as int);
            lemma_i64_prod_in_i128(other.num as int, self.den as int);
        }
        (self.num as i128) * (other.den as i128) == (other.num as i128) * (self.den as i128)
    }
}

impl vstd::std_specs::cmp::PartialEqSpecImpl for Scalar {
    open spec fn obeys_eq_spec() -> bool {
        true
    }

    open spec fn eq_spec(&self, other: &Self) -> bool {
        rat_eq(self@, other@)
    }
}

} // verus!
