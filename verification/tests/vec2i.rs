use age::math::vec2i::{v2i, Vec2i};

#[test]
fn vec_defaults_to_zero() {
    assert!(Vec2i::default() == Vec2i::zero());
}

#[test]
fn vec2_has_value_one() {
    assert_eq!(Vec2i::splat(1), Vec2i::one());
}

#[test]
fn vec2_can_be_destructured() {
    assert_eq!((2, 3), v2i(2, 3).into());
}

#[test]
fn vec2_can_be_negated() {
    assert_eq!(-v2i(1, 2), v2i(-1, -2));
}

#[test]
fn vec2_scalar_mul() {
    let mut v2i_assign = v2i(1, 2);
    v2i_assign *= 5;
    let v2i = v2i(1, 2) * 5;

    assert_eq!(v2i, v2i_assign);
}

#[test]
fn vec2_scalar_div() {
    let mut v2i_assign = v2i(6, 10);
    v2i_assign /= 2;
    let v2i = v2i(6, 10) / 2;

    assert_eq!(v2i, v2i_assign);
}

#[test]
fn vec2_add() {
    let mut v2i_assign = v2i(5, 10);
    v2i_assign += v2i(2, 4);
    let v2i = v2i(5, 10) + v2i(2, 4);

    assert_eq!(v2i, v2i_assign);
}

#[test]
fn vec2_sub() {
    let mut v2i_assign = v2i(5, 10);
    v2i_assign -= v2i(2, 4);
    let v2i = v2i(5, 10) - v2i(2, 4);

    assert_eq!(v2i, v2i_assign);
}

#[test]
fn vec2_mul() {
    let mut v2i_assign = v2i(5, 10);
    v2i_assign *= v2i(2, 4);
    let v2i = v2i(5, 10) * v2i(2, 4);

    assert_eq!(v2i, v2i_assign);
}

#[test]
fn vec2_div() {
    let mut v2i_assign = v2i(5, 10);
    v2i_assign /= v2i(2, 4);
    let v2i = v2i(5, 10) / v2i(2, 4);

    assert_eq!(v2i, v2i_assign);
}

#[test]
fn vec2i_products_and_perpendicular() {
    assert_eq!(v2i(2, 3).dot(v2i(4, -5)), -7);
    assert_eq!(v2i(3, 4).len_sq(), 25);
    assert_eq!(v2i(1, 2).perp(), v2i(-2, 1));
    assert_eq!(Vec2i::new(7, 8), v2i(7, 8));
}

#[test]
fn vec2i_conversions() {
    let a: [i32; 2] = v2i(5, 6).into();
    assert_eq!(a, [5, 6]);
    assert_eq!(Vec2i::from((1, 2)), v2i(1, 2));
    assert_eq!(Vec2i::from([3, 4]), v2i(3, 4));
}

#[test]
fn vec2i_division_rounds_toward_zero() {
    assert_eq!(v2i(7, -7) / 2, v2i(3, -3));
    assert_eq!(v2i(7, -7) / -2, v2i(-3, 3));
    assert_eq!(v2i(-9, 9) / v2i(4, -4), v2i(-2, -2));
}

#[test]
fn vec2i_compound_division_by_zero_keeps_the_component() {
    let mut v = v2i(6, 10);
    v /= v2i(0, 5);
    assert_eq!(v, v2i(6, 2));
    let mut w = v2i(i32::MIN, 4);
    w /= -1;
    assert_eq!(w, v2i(i32::MIN, -4));
}

#[test]
fn vec2i_compound_arithmetic_wraps() {
    let mut v = v2i(i32::MAX, 1);
    v += v2i(1, 1);
    assert_eq!(v, v2i(i32::MIN, 2));
    let mut w = v2i(i32::MIN, 0);
    w -= v2i(1, 0);
    assert_eq!(w, v2i(i32::MAX, 0));
    let mut m = v2i(0x4000_0000, 3);
    m *= 2;
    assert_eq!(m, v2i(i32::MIN, 6));
}
