use linal::scalar::Scalar;
use linal::vec3::Vec3;
use linal::GeomError;

fn s(n: i64) -> Scalar {
    Scalar::from_int(n)
}

fn v(x: i64, y: i64, z: i64) -> Vec3 {
    Vec3::new(s(x), s(y), s(z))
}

#[test]
fn vec3_mul() {
    let a = v(1, 2, 3);
    let b = v(3, 6, 9);
    let r = a.scale(s(3));
    let mut z = a;
    let mut x = a;
    z = z.scale(s(3));
    x = x.mul(b);
    assert_eq!(r, b);
    assert_eq!(z, b);
    assert_eq!(x, v(3, 12, 27));
}

#[test]
fn vec3_div() {
    let a = v(10, 20, 30);
    let b = v(1, 2, 3);
    let mut z = a;
    z = z.div(s(10)).unwrap();
    assert_eq!(a.div(s(10)).unwrap(), b);
    assert_eq!(z, b);
}

#[test]
fn vec3_div_inf() {
    let a = v(1, 2, 3);
    let b = a.div(s(0));
    assert_eq!(b, Err(GeomError::DivisionByZero));
}

#[test]
fn vec3_add() {
    let a = v(1, 2, 3);
    let b = v(-3, 6, 4);
    let c = v(-2, 8, 7);
    let mut z = a;
    z = z.add(b);
    assert_eq!(a.add(b), c);
    assert_eq!(z, c);
}

#[test]
fn vec3_sub() {
    let a = v(1, 2, 3);
    let b = v(-3, 6, 4);
    let c = v(4, -4, -1);
    let mut z = a;
    z = z.sub(b);
    assert_eq!(a.sub(b), c);
    assert_eq!(z, c);
}

#[test]
fn vec3_dot() {
    let a = v(1, 2, 3);
    let b = v(-3, 6, 4);
    let c = s(21);
    assert_eq!(a.dot(b), c);
    assert_eq!(b.dot(a), c);
}

#[test]
fn vec3_cross() {
    let a = v(4, 0, 0);
    let b = v(3, 5, 0);
    let c = v(0, 0, 20);
    assert_eq!(a.cross(b), c);
    assert_eq!(b.cross(a), c.neg());
}

#[test]
fn vec3_cross_orthogonal() {
    let a = v(1, 2, 3);
    let b = v(-4, 5, 7);
    let c = a.cross(b);
    assert_eq!(c.dot(a), s(0));
    assert_eq!(c.dot(b), s(0));
}

#[test]
fn vec3_neg() {
    let a = v(1, 2, 3);
    let b = v(-1, -2, -3);
    assert_eq!(a.neg(), b);
}

#[test]
fn vec3_index() {
    let a = v(1, 2, 3);
    assert_eq!(a.at(0), s(1));
    assert_eq!(a.at(1), s(2));
    assert_eq!(a.at(2), s(3));
}

#[test]
fn vec3_index_mut() {
    let mut a = Vec3::zero();
    a.set_at(0, s(1));
    a.set_at(1, s(4));
    a.set_at(2, s(9));
    assert_eq!(a.at(0), s(1));
    assert_eq!(a.at(1), s(4));
    assert_eq!(a.at(2), s(9));
}

#[test]
fn vec3_parse() {
    let a = Vec3::from_text("1 2 3").unwrap();
    assert_eq!(a, v(1, 2, 3));
}

#[test]
fn vec3_parse_wrong_count() {
    assert_eq!(
        Vec3::from_text("1 2"),
        Err(GeomError::WrongTokenCount { expected: 3, found: 2 })
    );
}

#[test]
fn vec3_text_round_trip() {
    let a = Vec3::new(Scalar::ratio(-2, 7), s(0), Scalar::ratio(5, 3));
    let b = Vec3::from_text(a.to_text().as_str()).unwrap();
    assert_eq!(a, b);
    assert_eq!(a.to_text(), "-2/7 0 5/3");
}

#[test]
fn vec3_add_sub_cancel() {
    let a = v(7, -11, 13);
    let b = v(-4, 9, -2);
    assert_eq!(a.add(b).sub(b), a);
}

#[test]
fn vec3_scale_div_cancel() {
    let a = v(5, -6, 8);
    let k = s(-3);
    assert_eq!(a.scale(k).div(k).unwrap(), a);
}

#[test]
fn vec3_len_sq_neg() {
    let a = v(1, -2, 2);
    assert_eq!(a.neg().dot(a.neg()), a.dot(a));
    assert_eq!(Vec3::zero().dot(Vec3::zero()), s(0));
}

#[test]
fn vec3_sqr() {
    let a = v(2, 3, 4);
    assert_eq!(a.sqr(), v(4, 9, 16));
}

#[test]
fn vec3_dual_basis() {
    let a1 = v(2, 0, 0);
    let a2 = v(3, 4, 0);
    let a3 = v(3, 4, 5);
    let (b1, b2, b3) = Vec3::dual_basis((a1, a2, a3)).unwrap();
    assert_eq!(
        b1,
        Vec3::new(Scalar::ratio(1, 2), Scalar::ratio(-3, 8), s(0))
    );
    assert_eq!(
        b2,
        Vec3::new(s(0), Scalar::ratio(1, 4), Scalar::ratio(-1, 5))
    );
    assert_eq!(b3, Vec3::new(s(0), s(0), Scalar::ratio(1, 5)));
    assert_eq!(a1.dot(b1), s(1));
    assert_eq!(a1.dot(b2), s(0));
    assert_eq!(a1.dot(b3), s(0));
    assert_eq!(a2.dot(b1), s(0));
    assert_eq!(a2.dot(b2), s(1));
    assert_eq!(a2.dot(b3), s(0));
    assert_eq!(a3.dot(b1), s(0));
    assert_eq!(a3.dot(b2), s(0));
    assert_eq!(a3.dot(b3), s(1));
}

#[test]
fn vec3_dual_basis_degenerate() {
    let a1 = v(1, 0, 0);
    let a2 = v(0, 1, 0);
    let a3 = v(1, 1, 0);
    assert_eq!(
        Vec3::dual_basis((a1, a2, a3)),
        Err(GeomError::DegenerateBasis)
    );
}
