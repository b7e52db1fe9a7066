use linal::scalar::Scalar;
use linal::vec2::Vec2;
use linal::GeomError;

fn s(n: i64) -> Scalar {
    Scalar::from_int(n)
}

fn v(x: i64, y: i64) -> Vec2 {
    Vec2::new(s(x), s(y))
}

#[test]
fn vec2_mul() {
    let a = v(1, 2);
    let b = v(3, 6);
    let r = a.scale(s(3));
    let mut z = a;
    let mut x = a;
    z = z.scale(s(3));
    x = x.mul(b);
    assert_eq!(r, b);
    assert_eq!(z, b);
    assert_eq!(x, v(3, 12));
}

#[test]
fn vec2_div() {
    let a = v(10, 20);
    let b = v(1, 2);
    let mut z = a;
    z = z.div(s(10)).unwrap();
    assert_eq!(a.div(s(10)).unwrap(), b);
    assert_eq!(z, b);
}

#[test]
fn vec2_div_inf() {
    let a = v(1, 2);
    let b = a.div(s(0));
    assert_eq!(b, Err(GeomError::DivisionByZero));
}

#[test]
fn vec2_add() {
    let a = v(1, 2);
    let b = v(-3, 6);
    let c = v(-2, 8);
    assert_eq!(a.add(b), c);

    let mut z = a;
    z = z.add(b);
    assert_eq!(z, c);
}

#[test]
fn vec2_sub() {
    let a = v(1, 2);
    let b = v(-3, 6);
    let c = v(4, -4);
    let mut z = a;
    z = z.sub(b);
    assert_eq!(a.sub(b), c);
    assert_eq!(z, c);
}

#[test]
fn vec2_dot() {
    let a = v(1, 2);
    let b = v(-3, 6);
    let c = s(9);
    assert_eq!(a.dot(b), c);
    assert_eq!(b.dot(a), c);
}

#[test]
fn vec2_area() {
    let a = v(1, 2);
    let b = v(-3, 6);
    let c = s(12);
    assert_eq!(a.area(b), c);
    assert_eq!(b.area(a), c.neg());
}

#[test]
fn vec2_cross_z() {
    let a = v(1, 2);
    let b = s(2);
    let c = v(4, -2);
    assert_eq!(a.cross().scale(b), c);
}

#[test]
fn vec2_neg() {
    let a = v(1, 2);
    let b = v(-1, -2);
    assert_eq!(a.neg(), b);
}

#[test]
fn vec2_index() {
    let a = v(1, 2);
    assert_eq!(a.at(0), s(1));
    assert_eq!(a.at(1), s(2));
}

#[test]
fn vec2_index_mut() {
    let mut a = Vec2::zero();
    a.set_at(0, s(1));
    a.set_at(1, s(4));
    assert_eq!(a.at(0), s(1));
    assert_eq!(a.at(1), s(4));
}

#[test]
fn vec2_parse() {
    let a = Vec2::from_text("1 2").unwrap();
    assert_eq!(a, v(1, 2));
}

#[test]
fn vec2_parse_extra_token() {
    let r = Vec2::from_text("1 2 x");
    assert_eq!(r, Err(GeomError::WrongTokenCount { expected: 2, found: 3 }));
}

#[test]
fn vec2_parse_empty() {
    let r = Vec2::from_text("   ");
    assert_eq!(r, Err(GeomError::WrongTokenCount { expected: 2, found: 0 }));
}

#[test]
fn vec2_parse_bad_token() {
    assert_eq!(Vec2::from_text("1 x"), Err(GeomError::BadToken { index: 1 }));
    assert_eq!(Vec2::from_text("y 2"), Err(GeomError::BadToken { index: 0 }));
    assert_eq!(
        Vec2::from_text("1/0 2"),
        Err(GeomError::BadToken { index: 0 })
    );
    assert_eq!(
        Vec2::from_text("99999999999999999999 2"),
        Err(GeomError::BadToken { index: 0 })
    );
}

#[test]
fn vec2_parse_fractions() {
    let a = Vec2::from_text("1.5 -0.25").unwrap();
    assert_eq!(a, Vec2::new(Scalar::ratio(3, 2), Scalar::ratio(-1, 4)));
}

#[test]
fn vec2_text_round_trip() {
    let a = Vec2::new(Scalar::ratio(1, 2), s(-3));
    let b = Vec2::from_text(a.to_text().as_str()).unwrap();
    assert_eq!(a, b);
    assert_eq!(a.to_text(), "1/2 -3");
}

#[test]
fn vec2_add_sub_cancel() {
    let a = v(7, -11);
    let b = v(-4, 9);
    assert_eq!(a.add(b).sub(b), a);
}

#[test]
fn vec2_scale_div_cancel() {
    let a = v(5, -6);
    let k = s(7);
    assert_eq!(a.scale(k).div(k).unwrap(), a);
}

#[test]
fn vec2_len_sq_neg() {
    let a = v(3, -4);
    assert_eq!(a.neg().dot(a.neg()), a.dot(a));
    assert_eq!(Vec2::zero().dot(Vec2::zero()), s(0));
}

#[test]
fn vec2_area_is_dot_cross() {
    let a = v(2, 5);
    let b = v(-1, 3);
    assert_eq!(a.area(b), a.dot(b.cross()));
}

#[test]
fn vec2_sqr() {
    let a = v(2, 3);
    assert_eq!(a.sqr(), v(4, 9));
}

#[test]
fn vec2_dual_basis() {
    let a1 = v(2, 0);
    let a2 = v(3, 4);
    let (b1, b2) = Vec2::dual_basis((a1, a2)).unwrap();
    assert_eq!(b1, Vec2::new(Scalar::ratio(1, 2), Scalar::ratio(-3, 8)));
    assert_eq!(b2, Vec2::new(s(0), Scalar::ratio(1, 4)));
    assert_eq!(a1.dot(b1), s(1));
    assert_eq!(a1.dot(b2), s(0));
    assert_eq!(a2.dot(b1), s(0));
    assert_eq!(a2.dot(b2), s(1));
}

#[test]
fn vec2_dual_basis_degenerate() {
    let a1 = v(2, 1);
    let a2 = v(4, 2);
    assert_eq!(
        Vec2::dual_basis((a1, a2)),
        Err(GeomError::DegenerateBasis)
    );
}
