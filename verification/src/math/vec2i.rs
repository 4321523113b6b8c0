use vstd::prelude::*;
use vstd::std_specs::ops::AddSpec;
use vstd::std_specs::ops::NegSpec;

verus! {

/// The magnitude of `a`.
pub open spec fn abs(a: int) -> int {
    if a < 0 { -a } else { a }
}

/// Integer division rounded toward zero, the way Rust divides signed
/// integers: the quotient of the magnitudes, negative when the signs differ.
pub open spec fn trunc_div(a: int, b: int) -> int {
    if (a < 0) != (b < 0) {
        -(abs(a) / abs(b))
    } else {
        abs(a) / abs(b)
    }
}

/// Whether `a` fits in an `i32`.
pub open spec fn fits_i32(a: int) -> bool {
    i32::MIN <= a <= i32::MAX
}

/// Whether `a / b` is defined on `i32`: a non-zero divisor and no `MIN / -1`.
pub open spec fn div_ok(a: i32, b: i32) -> bool {
    b != 0 && !(a == i32::MIN && b == -1)
}

/// Builds a vector from its two components.
pub fn v2i(x: i32, y: i32) -> (v: Vec2i)
    ensures
        v.x == x,
        v.y == y,
{
    Vec2i::new(x, y)
}

/// A two dimensional vector of signed 32 bit integers.
#[derive(Debug, Clone, Copy, PartialEq, Eq, PartialOrd, Structural)]
pub struct Vec2i {
    pub x: i32,
    pub y: i32,
}

impl Vec2i {
    /// The vector with both components zero.
    pub fn zero() -> (v: Self)
        ensures
            v.x == 0 && v.y == 0,
    {
        Vec2i { x: 0, y: 0 }
    }

    /// The vector with both components one.
    pub fn one() -> (v: Self)
        ensures
            v.x == 1 && v.y == 1,
    {
        Vec2i { x: 1, y: 1 }
    }

    /// Builds a vector from its two components.
    pub fn new(x: i32, y: i32) -> (v: Self)
        ensures
            v.x == x,
            v.y == y,
    {
        Self { x, y }
    }

    /// Builds a vector whose two components are both `x`.
    pub fn splat(x: i32) -> (v: Self)
        ensures
            v.x == x,
            v.y == x,
    {
        v2i(x, x)
    }

    /// The dot product over the integers.
    pub open spec fn dot_spec(self, v: Vec2i) -> int {
        self.x * v.x + self.y * v.y
    }

    /// Whether every product and sum of the dot product stays within `i32`.
    pub open spec fn dot_fits(self, v: Vec2i) -> bool {
        &&& fits_i32(self.x * v.x)
        &&& fits_i32(self.y * v.y)
        &&& fits_i32(self.dot_spec(v))
    }

    /// The dot product of two vectors.
    pub fn dot(&self, v: Vec2i) -> (r: i32)
        requires
            self.dot_fits(v),
        ensures
            r == self.dot_spec(v),
    {
        self.x * v.x + self.y * v.y
    }

    /// The squared length of the vector.
    pub fn len_sq(&self) -> (r: i32)
        requires
            self.dot_fits(*self),
        ensures
            r == self.x * self.x + self.y * self.y,
    {
        self.dot(*self)
    }

    /// The vector turned a quarter turn: `(-y, x)`.
    pub fn perp(&self) -> (r: Self)
        requires
            self.y != i32::MIN,
        ensures
            r.x == -self.y,
            r.y == self.x,
    {
        v2i(-self.y, self.x)
    }
}

impl core::default::Default for Vec2i {
    fn default() -> (v: Self)
        ensures
            v.x == 0 && v.y == 0,
    {
        Vec2i { x: 0, y: 0 }
    }
}

impl core::convert::From<Vec2i> for (i32, i32) {
    fn from(v: Vec2i) -> (r: (i32, i32)) {
        (v.x, v.y)
    }
}

impl vstd::std_specs::convert::FromSpecImpl<Vec2i> for (i32, i32) {
    open spec fn obeys_from_spec() -> bool {
        true
    }

    open spec fn from_spec(v: Vec2i) -> (i32, i32) {
        (v.x, v.y)
    }
}

impl core::convert::From<Vec2i> for [i32; 2] {
    fn from(v: Vec2i) -> (r: [i32; 2]) {
        [v.x, v.y]
    }
}

impl vstd::std_specs::convert::FromSpecImpl<Vec2i> for [i32; 2] {
    open spec fn obeys_from_spec() -> bool {
        true
    }

    open spec fn from_spec(v: Vec2i) -> [i32; 2] {
        [v.x, v.y]
    }
}

impl core::convert::From<(i32, i32)> for Vec2i {
    fn from(t: (i32, i32)) -> (r: Vec2i) {
        v2i(t.0, t.1)
    }
}

impl vstd::std_specs::convert::FromSpecImpl<(i32, i32)> for Vec2i {
    open spec fn obeys_from_spec() -> bool {
        true
    }

    open spec fn from_spec(t: (i32, i32)) -> Vec2i {
        Vec2i { x: t.0, y: t.1 }
    }
}

impl core::convert::From<[i32; 2]> for Vec2i {
    fn from(a: [i32; 2]) -> (r: Vec2i) {
        v2i(a[0], a[1])
    }
}

impl vstd::std_specs::convert::FromSpecImpl<[i32; 2]> for Vec2i {
    open spec fn obeys_from_spec() -> bool {
        true
    }

    open spec fn from_spec(a: [i32; 2]) -> Vec2i {
        Vec2i { x: a[0], y: a[1] }
    }
}

impl core::ops::Neg for Vec2i {
    type Output = Vec2i;

    fn neg(self) -> (r: Vec2i) {
        v2i(-self.x, -self.y)
    }
}

impl vstd::std_specs::ops::NegSpecImpl for Vec2i {
    open spec fn obeys_neg_spec() -> bool {
        true
    }

    open spec fn neg_req(self) -> bool {
        self.x != i32::MIN && self.y != i32::MIN
    }

    open spec fn neg_spec(self) -> Vec2i {
        Vec2i { x: -self.x as i32, y: -self.y as i32 }
    }
}

impl core::ops::Mul<i32> for Vec2i {
    type Output = Vec2i;

    fn mul(self, s: i32) -> (r: Vec2i) {
        v2i(self.x * s, self.y * s)
    }
}

impl vstd::std_specs::ops::MulSpecImpl<i32> for Vec2i {
    open spec fn obeys_mul_spec() -> bool {
        true
    }

    open spec fn mul_req(self, s: i32) -> bool {
        fits_i32(self.x * s) && fits_i32(self.y * s)
    }

    open spec fn mul_spec(self, s: i32) -> Vec2i {
        Vec2i { x: (self.x * s) as i32, y: (self.y * s) as i32 }
    }
}

impl core::ops::MulAssign<i32> for Vec2i {
    /// Multiplies both components by `s`, wrapping around on overflow.
    fn mul_assign(&mut self, s: i32)
        ensures
            final(self).x == old(self).x.wrapping_mul(s),
            final(self).y == old(self).y.wrapping_mul(s),
    {
        self.x = self.x.wrapping_mul(s);
        self.y = self.y.wrapping_mul(s);
    }
}

impl core::ops::Div<i32> for Vec2i {
    type Output = Vec2i;

    fn div(self, s: i32) -> (r: Vec2i) {
        v2i(div_i32(self.x, s), div_i32(self.y, s))
    }
}

impl vstd::std_specs::ops::DivSpecImpl<i32> for Vec2i {
    open spec fn obeys_div_spec() -> bool {
        true
    }

    open spec fn div_req(self, s: i32) -> bool {
        div_ok(self.x, s) && div_ok(self.y, s)
    }

    open spec fn div_spec(self, s: i32) -> Vec2i {
        Vec2i { x: trunc_div(self.x as int, s as int) as i32, y: trunc_div(self.y as int, s as int) as i32 }
    }
}

/// Signed division rounded toward zero, computed on the magnitudes.
pub fn div_i32(a: i32, b: i32) -> (r: i32)
    requires
        div_ok(a, b),
    ensures
        r == trunc_div(a as int, b as int),
{
    let aa: i64 = if a < 0 { -(a as i64) } else { a as i64 };
    let bb: i64 = if b < 0 { -(b as i64) } else { b as i64 };
    let q: i64 = aa / bb;
    proof {
        assert(0 <= q <= aa) by (nonlinear_arith)
            requires q == aa / bb, aa >= 0, bb >= 1;
        if aa == 0x8000_0000 && (a < 0) == (b < 0) {
            assert(bb >= 2);
            assert(q <= aa / 2) by (nonlinear_arith)
                requires q == aa / bb, aa >= 0, bb >= 2;
        }
    }
    if (a < 0) != (b < 0) {
        (-q) as i32
    } else {
        q as i32
    }
}

/// Divides `a` by `b` where that is defined on `i32`, and leaves `a` as it is
/// where it is not (a zero divisor, or `MIN / -1`, whose wrapped result is `MIN`).
fn div_or_keep(a: i32, b: i32) -> (r: i32)
    ensures
        div_ok(a, b) ==> r == trunc_div(a as int, b as int),
        !div_ok(a, b) ==> r == a,
{
    if b != 0 && !(a == i32::MIN && b == -1) {
        div_i32(a, b)
    } else {
        a
    }
}

impl core::ops::DivAssign<i32> for Vec2i {
    /// Divides both components by `s`; a component whose division is not
    /// defined on `i32` stays as it is.
    fn div_assign(&mut self, s: i32)
        ensures
            final(self).x == (if div_ok(old(self).x, s) { trunc_div(old(self).x as int, s as int) as i32 } else { old(self).x }),
            final(self).y == (if div_ok(old(self).y, s) { trunc_div(old(self).y as int, s as int) as i32 } else { old(self).y }),
    {
        self.x = div_or_keep(self.x, s);
        self.y = div_or_keep(self.y, s);
    }
}

impl core::ops::Add for Vec2i {
    type Output = Vec2i;

    fn add(self, v: Self) -> (r: Vec2i) {
        v2i(self.x + v.x, self.y + v.y)
    }
}

impl vstd::std_specs::ops::AddSpecImpl for Vec2i {
    open spec fn obeys_add_spec() -> bool {
        true
    }

    open spec fn add_req(self, v: Vec2i) -> bool {
        fits_i32(self.x + v.x) && fits_i32(self.y + v.y)
    }

    open spec fn add_spec(self, v: Vec2i) -> Vec2i {
        Vec2i { x: (self.x + v.x) as i32, y: (self.y + v.y) as i32 }
    }
}

impl core::ops::AddAssign for Vec2i {
    /// Adds `v` component-wise, wrapping around on overflow.
    fn add_assign(&mut self, v: Self)
        ensures
            final(self).x == old(self).x.wrapping_add(v.x),
            final(self).y == old(self).y.wrapping_add(v.y),
    {
        self.x = self.x.wrapping_add(v.x);
        self.y = self.y.wrapping_add(v.y);
    }
}

impl core::ops::Sub for Vec2i {
    type Output = Vec2i;

    fn sub(self, v: Self) -> (r: Vec2i) {
        v2i(self.x - v.x, self.y - v.y)
    }
}

impl vstd::std_specs::ops::SubSpecImpl for Vec2i {
    open spec fn obeys_sub_spec() -> bool {
        true
    }

    open spec fn sub_req(self, v: Vec2i) -> bool {
        fits_i32(self.x - v.x) && fits_i32(self.y - v.y)
    }

    open spec fn sub_spec(self, v: Vec2i) -> Vec2i {
        Vec2i { x: (self.x - v.x) as i32, y: (self.y - v.y) as i32 }
    }
}

impl core::ops::SubAssign for Vec2i {
    /// Subtracts `v` component-wise, wrapping around on overflow.
    fn sub_assign(&mut self, v: Self)
        ensures
            final(self).x == old(self).x.wrapping_sub(v.x),
            final(self).y == old(self).y.wrapping_sub(v.y),
    {
        self.x = self.x.wrapping_sub(v.x);
        self.y = self.y.wrapping_sub(v.y);
    }
}

impl core::ops::Mul for Vec2i {
    type Output = Vec2i;

    fn mul(self, v: Self) -> (r: Vec2i) {
        v2i(self.x * v.x, self.y * v.y)
    }
}

impl vstd::std_specs::ops::MulSpecImpl for Vec2i {
    open spec fn obeys_mul_spec() -> bool {
        true
    }

    open spec fn mul_req(self, v: Vec2i) -> bool {
        fits_i32(self.x * v.x) && fits_i32(self.y * v.y)
    }

    open spec fn mul_spec(self, v: Vec2i) -> Vec2i {
        Vec2i { x: (self.x * v.x) as i32, y: (self.y * v.y) as i32 }
    }
}

impl core::ops::MulAssign for Vec2i {
    /// Multiplies component-wise, wrapping around on overflow.
    fn mul_assign(&mut self, v: Self)
        ensures
            final(self).x == old(self).x.wrapping_mul(v.x),
            final(self).y == old(self).y.wrapping_mul(v.y),
    {
        self.x = self.x.wrapping_mul(v.x);
        self.y = self.y.wrapping_mul(v.y);
    }
}

impl core::ops::Div for Vec2i {
    type Output = Vec2i;

    fn div(self, v: Self) -> (r: Vec2i) {
        v2i(div_i32(self.x, v.x), div_i32(self.y, v.y))
    }
}

impl vstd::std_specs::ops::DivSpecImpl for Vec2i {
    open spec fn obeys_div_spec() -> bool {
        true
    }

    open spec fn div_req(self, v: Vec2i) -> bool {
        div_ok(self.x, v.x) && div_ok(self.y, v.y)
    }

    open spec fn div_spec(self, v: Vec2i) -> Vec2i {
        Vec2i { x: trunc_div(self.x as int, v.x as int) as i32, y: trunc_div(self.y as int, v.y as int) as i32 }
    }
}

impl core::ops::DivAssign for Vec2i {
    /// Divides component-wise; a component whose division is not defined on
    /// `i32` stays as it is.
    fn div_assign(&mut self, v: Self)
        ensures
            final(self).x == (if div_ok(old(self).x, v.x) { trunc_div(old(self).x as int, v.x as int) as i32 } else { old(self).x }),
            final(self).y == (if div_ok(old(self).y, v.y) { trunc_div(old(self).y as int, v.y as int) as i32 } else { old(self).y }),
    {
        self.x = div_or_keep(self.x, v.x);
        self.y = div_or_keep(self.y, v.y);
    }
}

} // verus!
verus! {

/// Negating a vector with no `i32::MIN` component negates each component:
/// it is the additive inverse, adding it to the vector gives zero, and
/// negating twice gives the vector back.
pub proof fn lemma_neg_inverse(v: Vec2i)
    requires
        v.x != i32::MIN,
        v.y != i32::MIN,
    ensures
        v.neg_req(),
        v.neg_spec().x as int == -(v.x as int),
        v.neg_spec().y as int == -(v.y as int),
        v.add_req(v.neg_spec()),
        v.add_spec(v.neg_spec()) == (Vec2i { x: 0, y: 0 }),
        v.neg_spec().neg_req(),
        v.neg_spec().neg_spec() == v,
{
}

} // verus!
