use linal::point::Point;
use linal::scalar::Scalar;
use linal::vec2::Vec2;
use linal::GeomError;

fn s(n: i64) -> Scalar {
    Scalar::from_int(n)
}

fn p(x: i64, y: i64) -> Point {
    Point::new(s(x), s(y))
}

fn v(x: i64, y: i64) -> Vec2 {
    Vec2::new(s(x), s(y))
}

#[test]
fn point_vec2_add() {
    let a = p(1, 2);
    let b = v(-3, 6);
    let c = p(-2, 8);
    assert_eq!(a.add(b), c);
}

#[test]
fn point_vec2_sub() {
    let a = p(1, 2);
    let b = v(-3, 6);
    let c = p(4, -4);
    assert_eq!(a.sub(b), c);
}

#[test]
fn point_sub() {
    let a = p(1, 2);
    let b = p(-3, 6);
    let c = v(4, -4);
    assert_eq!(a.sub_point(b), c);
}

#[test]
fn point_neg() {
    let a = p(1, 2);
    let b = p(-1, -2);
    assert_eq!(a.neg(), b);
}

#[test]
fn point_parse() {
    let a = Point::from_text("1 2").unwrap();
    assert_eq!(a, p(1, 2));
}

#[test]
fn point_text_round_trip() {
    let a = Point::new(Scalar::ratio(-1, 2), s(6));
    let b = Point::from_text(a.to_text().as_str()).unwrap();
    assert_eq!(a, b);
}

#[test]
fn point_conversions() {
    let a = p(3, -5);
    assert_eq!(a.position(), v(3, -5));
    assert_eq!(Point::from_vec2(v(3, -5)), a);
    assert_eq!(Point::zero(), p(0, 0));
}

#[test]
fn scalar_arithmetic() {
    let a = Scalar::ratio(1, 2);
    let b = Scalar::ratio(1, 3);
    assert_eq!(a.add(b), Scalar::ratio(5, 6));
    assert_eq!(a.sub(b), Scalar::ratio(1, 6));
    assert_eq!(a.mul(b), Scalar::ratio(1, 6));
    assert_eq!(a.div(b).unwrap(), Scalar::ratio(3, 2));
    assert_eq!(a.neg(), Scalar::ratio(-1, 2));
    assert_eq!(s(4).div(s(0)), Err(GeomError::DivisionByZero));
}

#[test]
fn scalar_equality_by_value() {
    assert_eq!(Scalar::ratio(2, 4), Scalar::ratio(1, 2));
    assert_eq!(Scalar::ratio(-2, 4), Scalar::ratio(-1, 2));
    assert!(Scalar::ratio(1, 2) != Scalar::ratio(1, 3));
}

#[test]
fn scalar_parse_forms() {
    assert_eq!(Scalar::from_text("42").unwrap(), s(42));
    assert_eq!(Scalar::from_text("-7").unwrap(), s(-7));
    assert_eq!(Scalar::from_text("0.375").unwrap(), Scalar::ratio(3, 8));
    assert_eq!(Scalar::from_text("-10/4").unwrap(), Scalar::ratio(-5, 2));
    assert!(Scalar::from_text("").is_none());
    assert!(Scalar::from_text("1.").is_none());
    assert!(Scalar::from_text("1/0").is_none());
    assert!(Scalar::from_text("--3").is_none());
    assert!(Scalar::from_text("2x").is_none());
}

#[test]
fn scalar_text_round_trip() {
    for (num, den) in [(1i64, 2i64), (-3, 8), (0, 1), (17, 1), (-9, 5)] {
        let a = Scalar::ratio(num, den);
        let b = Scalar::from_text(a.to_text().as_str()).unwrap();
        assert_eq!(a, b);
    }
}
