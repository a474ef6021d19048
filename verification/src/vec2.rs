//! Two-dimensional vectors of fixed-point scalars.

use crate::fixed::{
    ceil_sqrt, fixed_mul, lemma_ceil_sqrt_bounds, lemma_square_monotonic, magnitude, product,
    quotient, ratio, root_up, sat_add, sat_sub, saturate, ONE, ONE_SQUARED,
};
use vstd::prelude::*;

verus! {

/// A point or a displacement in the plane.
#[derive(Clone, Copy, Debug, PartialEq, Eq, Structural)]
pub struct Vec2 {
    pub x: i64,
    pub y: i64,
}

/// The vector whose components are both zero.
pub open spec fn zero_vector() -> Vec2 {
    Vec2 { x: 0, y: 0 }
}

/// The component-wise sum of `a` and `b`.
pub open spec fn vector_sum(a: Vec2, b: Vec2) -> Vec2 {
    Vec2 { x: saturate(a.x + b.x) as i64, y: saturate(a.y + b.y) as i64 }
}

/// The component-wise difference `a - b`.
pub open spec fn vector_difference(a: Vec2, b: Vec2) -> Vec2 {
    Vec2 { x: saturate(a.x - b.x) as i64, y: saturate(a.y - b.y) as i64 }
}

/// The vector `v` with each component multiplied by the scalar `s`.
pub open spec fn scaled(s: i64, v: Vec2) -> Vec2 {
    Vec2 { x: product(s as int, v.x as int) as i64, y: product(s as int, v.y as int) as i64 }
}

/// The square of the length of `v`, in squared storage units.
pub open spec fn norm_squared(v: Vec2) -> int {
    v.x * v.x + v.y * v.y
}

/// The length of `v` in storage units, rounded up.
pub open spec fn norm(v: Vec2) -> int {
    ceil_sqrt(norm_squared(v) as nat) as int
}

/// The vector of length one that points where `v` points, each component
/// rounded toward zero; the zero vector where `v` is zero.
pub open spec fn unit(v: Vec2) -> Vec2 {
    if norm_squared(v) == 0 {
        zero_vector()
    } else {
        Vec2 {
            x: quotient(v.x * ONE, norm(v)) as i64,
            y: quotient(v.y * ONE, norm(v)) as i64,
        }
    }
}

/// `v` where it is no longer than one, else the unit vector along it.
pub open spec fn capped(v: Vec2) -> Vec2 {
    if norm_squared(v) > ONE * ONE {
        unit(v)
    } else {
        v
    }
}

/// The rounded-up length of a non-zero vector is positive and no smaller
/// than the size of either component.
pub proof fn lemma_norm_covers_components(v: Vec2)
    ensures
        magnitude(v.x as int) <= norm(v),
        magnitude(v.y as int) <= norm(v),
        norm_squared(v) <= norm(v) * norm(v),
        norm_squared(v) >= 0,
        norm_squared(v) > 0 ==> norm(v) > 0,
        norm_squared(v) == 0 <==> v == zero_vector(),
{
    let mx = magnitude(v.x as int);
    let my = magnitude(v.y as int);
    assert(mx * mx == v.x * v.x) by (nonlinear_arith)
        requires
            mx == v.x || mx == -v.x,
    ;
    assert(my * my == v.y * v.y) by (nonlinear_arith)
        requires
            my == v.y || my == -v.y,
    ;
    assert(mx * mx >= 0 && (mx > 0 <==> mx * mx > 0)) by (nonlinear_arith)
        requires
            mx >= 0,
    ;
    assert(my * my >= 0 && (my > 0 <==> my * my > 0)) by (nonlinear_arith)
        requires
            my >= 0,
    ;
    let n = norm_squared(v) as nat;
    lemma_ceil_sqrt_bounds(n, mx);
    lemma_ceil_sqrt_bounds(n, my);
}

/// Each component of a unit vector lies between minus one and one.
pub proof fn lemma_unit_components(v: Vec2)
    requires
        norm_squared(v) != 0,
    ensures
        -ONE <= quotient(v.x * ONE, norm(v)) <= ONE,
        -ONE <= quotient(v.y * ONE, norm(v)) <= ONE,
        magnitude(quotient(v.x * ONE, norm(v))) * norm(v) <= magnitude(v.x as int) * ONE,
        magnitude(quotient(v.y * ONE, norm(v))) * norm(v) <= magnitude(v.y as int) * ONE,
{
    lemma_norm_covers_components(v);
    lemma_quotient_of_scaled(v.x as int, norm(v));
    lemma_quotient_of_scaled(v.y as int, norm(v));
}

/// Dividing `c * ONE` by a length `len` that covers `c` gives at most one.
proof fn lemma_quotient_of_scaled(c: int, len: int)
    requires
        len > 0,
        magnitude(c) <= len,
    ensures
        -ONE <= quotient(c * ONE, len) <= ONE,
        magnitude(quotient(c * ONE, len)) * len <= magnitude(c) * ONE,
{
    let m = magnitude(c);
    let q = (m * ONE) / len;
    assert(magnitude(c * ONE) == m * ONE) by (nonlinear_arith)
        requires
            m == magnitude(c),
    ;
    assert(c * ONE < 0 <==> c < 0) by (nonlinear_arith);
    assert(0 <= q <= ONE && q * len <= m * ONE) by (nonlinear_arith)
        requires
            q == (m * ONE) / len,
            0 <= m <= len,
            len > 0,
    ;
}

/// A unit vector is never longer than one.
pub proof fn lemma_unit_is_bounded(v: Vec2)
    ensures
        norm_squared(unit(v)) <= ONE * ONE,
{
    if norm_squared(v) != 0 {
        lemma_norm_covers_components(v);
        lemma_unit_components(v);
        let len = norm(v);
        let a = magnitude(quotient(v.x * ONE, len));
        let b = magnitude(quotient(v.y * ONE, len));
        let mx = magnitude(v.x as int);
        let my = magnitude(v.y as int);
        let u = unit(v);
        assert(u.x * u.x == a * a) by (nonlinear_arith)
            requires
                a == u.x || a == -u.x,
        ;
        assert(u.y * u.y == b * b) by (nonlinear_arith)
            requires
                b == u.y || b == -u.y,
        ;
        assert(mx * mx == v.x * v.x) by (nonlinear_arith)
            requires
                mx == v.x || mx == -v.x,
        ;
        assert(my * my == v.y * v.y) by (nonlinear_arith)
            requires
                my == v.y || my == -v.y,
        ;
        assert(a * len >= 0 && b * len >= 0) by (nonlinear_arith)
            requires
                a >= 0,
                b >= 0,
                len > 0,
        ;
        lemma_square_monotonic(a * len, mx * ONE);
        lemma_square_monotonic(b * len, my * ONE);
        assert((a * a + b * b) * (len * len) == (a * len) * (a * len) + (b * len) * (b * len))
            by (nonlinear_arith);
        assert((mx * ONE) * (mx * ONE) + (my * ONE) * (my * ONE) == (mx * mx + my * my) * (ONE
            * ONE)) by (nonlinear_arith);
        let n = norm_squared(v);
        assert(n * (ONE * ONE) <= (len * len) * (ONE * ONE)) by (nonlinear_arith)
            requires
                n <= len * len,
        ;
        assert(a * a + b * b <= ONE * ONE) by (nonlinear_arith)
            requires
                (a * a + b * b) * (len * len) <= (ONE * ONE) * (len * len),
                len > 0,
        ;
    }
}

/// The unit vector along a vector longer than one falls short of length one
/// by less than four storage units: what the rounding of the length and of
/// the two quotients can take away.
pub proof fn lemma_unit_is_nearly_one(v: Vec2)
    requires
        norm_squared(v) > ONE * ONE,
    ensures
        norm_squared(unit(v)) >= (ONE - 4) * (ONE - 4),
{
    lemma_norm_covers_components(v);
    lemma_unit_components(v);
    lemma_ceil_sqrt_bounds(norm_squared(v) as nat, 0);
    let n = norm_squared(v);
    let len = norm(v);
    let u = unit(v);
    let a = magnitude(u.x as int);
    let b = magnitude(u.y as int);
    let mx = magnitude(v.x as int);
    let my = magnitude(v.y as int);
    lemma_quotient_remainder(v.x as int, len);
    lemma_quotient_remainder(v.y as int, len);
    assert(len > ONE) by {
        if len <= ONE {
            lemma_square_monotonic(len, ONE as int);
        }
    }
    assert((len - 1) * (len - 1) < n);
    // What the quotients leave behind is less than the divisor.
    assert(mx * ONE < (a + 1) * len && my * ONE < (b + 1) * len) by (nonlinear_arith)
        requires
            magnitude(v.x * ONE - u.x * len) <= len - 1,
            magnitude(v.y * ONE - u.y * len) <= len - 1,
            a == magnitude(u.x as int),
            b == magnitude(u.y as int),
            mx == magnitude(v.x as int),
            my == magnitude(v.y as int),
            v.x >= 0 ==> u.x >= 0,
            v.x <= 0 ==> u.x <= 0,
            v.y >= 0 ==> u.y >= 0,
            v.y <= 0 ==> u.y <= 0,
            len > 0,
    ;
    assert((mx * ONE) * (mx * ONE) < ((a + 1) * len) * ((a + 1) * len)) by (nonlinear_arith)
        requires
            0 <= mx * ONE < (a + 1) * len,
    ;
    assert((my * ONE) * (my * ONE) < ((b + 1) * len) * ((b + 1) * len)) by (nonlinear_arith)
        requires
            0 <= my * ONE < (b + 1) * len,
    ;
    assert(mx * mx == v.x * v.x) by (nonlinear_arith)
        requires
            mx == v.x || mx == -v.x,
    ;
    assert(my * my == v.y * v.y) by (nonlinear_arith)
        requires
            my == v.y || my == -v.y,
    ;
    let reach = (a + 1) * (a + 1) + (b + 1) * (b + 1);
    assert(n * (ONE * ONE) == (mx * ONE) * (mx * ONE) + (my * ONE) * (my * ONE))
        by (nonlinear_arith)
        requires
            n == mx * mx + my * my,
    ;
    assert(reach * (len * len) == ((a + 1) * len) * ((a + 1) * len) + ((b + 1) * len) * ((b + 1)
        * len)) by (nonlinear_arith)
        requires
            reach == (a + 1) * (a + 1) + (b + 1) * (b + 1),
    ;
    assert(((len - 1) * ONE) * ((len - 1) * ONE) < n * (ONE * ONE)) by (nonlinear_arith)
        requires
            (len - 1) * (len - 1) < n,
    ;
    assert(reach > (ONE - 1) * (ONE - 1)) by {
        if reach <= (ONE - 1) * (ONE - 1) {
            assert(reach * (len * len) <= ((ONE - 1) * len) * ((ONE - 1) * len))
                by (nonlinear_arith)
                requires
                    reach <= (ONE - 1) * (ONE - 1),
                    len > 0,
            ;
            assert(0 <= (ONE - 1) * len <= (len - 1) * ONE) by (nonlinear_arith)
                requires
                    len > ONE,
            ;
            lemma_square_monotonic((ONE - 1) * len, (len - 1) * ONE);
        }
    }
    assert(u.x * u.x == a * a) by (nonlinear_arith)
        requires
            a == u.x || a == -u.x,
    ;
    assert(u.y * u.y == b * b) by (nonlinear_arith)
        requires
            b == u.y || b == -u.y,
    ;
    assert(a * a + b * b == reach - 2 * a - 2 * b - 2) by (nonlinear_arith)
        requires
            reach == (a + 1) * (a + 1) + (b + 1) * (b + 1),
    ;
    assert(a <= ONE && b <= ONE);
}

/// A capped vector is never longer than one. A vector that was no longer
/// than one is left as it was; a longer one is cut to length one, up to
/// rounding.
pub proof fn lemma_capped_is_bounded(v: Vec2)
    ensures
        norm_squared(capped(v)) <= ONE * ONE,
        norm_squared(v) <= ONE * ONE ==> capped(v) == v,
        norm_squared(v) > ONE * ONE ==> capped(v) == unit(v) && norm_squared(capped(v)) >= (ONE
            - 4) * (ONE - 4),
{
    lemma_unit_is_bounded(v);
    if norm_squared(v) > ONE * ONE {
        lemma_unit_is_nearly_one(v);
    }
}

/// A unit vector points where its argument points: no component changes
/// sign, and the two vectors are parallel up to the rounding of the quotients.
pub proof fn lemma_unit_keeps_direction(v: Vec2)
    ensures
        v.x >= 0 ==> unit(v).x >= 0,
        v.x <= 0 ==> unit(v).x <= 0,
        v.y >= 0 ==> unit(v).y >= 0,
        v.y <= 0 ==> unit(v).y <= 0,
        magnitude(unit(v).x * v.y - unit(v).y * v.x) <= magnitude(v.x as int) + magnitude(
            v.y as int,
        ),
{
    if norm_squared(v) != 0 {
        lemma_norm_covers_components(v);
        lemma_unit_components(v);
        let len = norm(v);
        let u = unit(v);
        let rx = v.x * ONE - u.x * len;
        let ry = v.y * ONE - u.y * len;
        lemma_quotient_remainder(v.x as int, len);
        lemma_quotient_remainder(v.y as int, len);
        let cross = u.x * v.y - u.y * v.x;
        assert(cross * len == ry * v.x - rx * v.y) by (nonlinear_arith)
            requires
                rx == v.x * ONE - u.x * len,
                ry == v.y * ONE - u.y * len,
                cross == u.x * v.y - u.y * v.x,
        ;
        let mx = magnitude(v.x as int);
        let my = magnitude(v.y as int);
        assert(magnitude(ry * v.x) <= (len - 1) * mx) by (nonlinear_arith)
            requires
                magnitude(ry) <= len - 1,
                mx == magnitude(v.x as int),
        ;
        assert(magnitude(rx * v.y) <= (len - 1) * my) by (nonlinear_arith)
            requires
                magnitude(rx) <= len - 1,
                my == magnitude(v.y as int),
        ;
        assert(magnitude(cross) <= mx + my) by (nonlinear_arith)
            requires
                magnitude(cross * len) <= (len - 1) * mx + (len - 1) * my,
                len > 0,
                mx >= 0,
                my >= 0,
        ;
    }
}

/// The remainder that a rounded quotient leaves is smaller than the divisor.
proof fn lemma_quotient_remainder(c: int, len: int)
    requires
        len > 0,
    ensures
        magnitude(c * ONE - quotient(c * ONE, len) * len) <= len - 1,
        c >= 0 ==> quotient(c * ONE, len) >= 0,
        c <= 0 ==> quotient(c * ONE, len) <= 0,
{
    let m = magnitude(c);
    let q = (m * ONE) / len;
    assert(magnitude(c * ONE) == m * ONE) by (nonlinear_arith)
        requires
            m == magnitude(c),
    ;
    assert(c * ONE < 0 <==> c < 0) by (nonlinear_arith);
    assert(0 <= m * ONE - q * len <= len - 1 && q >= 0) by (nonlinear_arith)
        requires
            q == (m * ONE) / len,
            0 <= m,
            len > 0,
    ;
    if c < 0 {
        assert(c * ONE - (-q) * len == -(m * ONE - q * len)) by (nonlinear_arith)
            requires
                m == -c,
        ;
    } else {
        assert(c * ONE - q * len == m * ONE - q * len) by (nonlinear_arith)
            requires
                m == c,
        ;
    }
}

impl Vec2 {
    /// The vector with the given components.
    pub fn new(x: i64, y: i64) -> (v: Vec2)
        ensures
            v == (Vec2 { x, y }),
    {
        Vec2 { x, y }
    }

    /// The zero vector.
    pub fn zero() -> (v: Vec2)
        ensures
            v == zero_vector(),
    {
        Vec2 { x: 0, y: 0 }
    }

    /// The sum of two vectors.
    pub fn add(self, other: Vec2) -> (v: Vec2)
        ensures
            v == vector_sum(self, other),
    {
        Vec2 { x: sat_add(self.x, other.x), y: sat_add(self.y, other.y) }
    }

    /// The difference of two vectors.
    pub fn sub(self, other: Vec2) -> (v: Vec2)
        ensures
            v == vector_difference(self, other),
    {
        Vec2 { x: sat_sub(self.x, other.x), y: sat_sub(self.y, other.y) }
    }

    /// The square of the vector's length, in squared storage units.
    pub fn length_squared(self) -> (n: u128)
        ensures
            n == norm_squared(self),
            n <= 0x8000_0000_0000_0000_0000_0000_0000_0000,
    {
        let x: i128 = self.x as i128;
        let y: i128 = self.y as i128;
        assert(0 <= x * x <= 0x4000_0000_0000_0000_0000_0000_0000_0000) by (nonlinear_arith)
            requires
                -0x8000_0000_0000_0000 <= x <= 0x7fff_ffff_ffff_ffff,
        ;
        assert(0 <= y * y <= 0x4000_0000_0000_0000_0000_0000_0000_0000) by (nonlinear_arith)
            requires
                -0x8000_0000_0000_0000 <= y <= 0x7fff_ffff_ffff_ffff,
        ;
        (x * x) as u128 + (y * y) as u128
    }

    /// The vector's length in storage units, rounded up.
    pub fn length(self) -> (len: u128)
        ensures
            len == norm(self),
    {
        root_up(self.length_squared())
    }

    /// The unit vector along this one; the zero vector for the zero vector.
    pub fn normalize(self) -> (v: Vec2)
        ensures
            v == unit(self),
    {
        let n = self.length_squared();
        if n == 0 {
            return Vec2::zero();
        }
        let len = root_up(n);
        proof {
            lemma_norm_covers_components(self);
            lemma_unit_components(self);
        }
        assert(-0x8000_0000_0000_0000 * ONE <= self.x * ONE <= 0x8000_0000_0000_0000 * ONE
            && -0x8000_0000_0000_0000 * ONE <= self.y * ONE <= 0x8000_0000_0000_0000 * ONE)
            by (nonlinear_arith)
            requires
                -0x8000_0000_0000_0000 <= self.x <= 0x7fff_ffff_ffff_ffff,
                -0x8000_0000_0000_0000 <= self.y <= 0x7fff_ffff_ffff_ffff,
        ;
        Vec2 {
            x: ratio(self.x as i128 * ONE as i128, len),
            y: ratio(self.y as i128 * ONE as i128, len),
        }
    }

    /// This vector where it is no longer than one, else the unit vector
    /// along it.
    pub fn cap_length(self) -> (v: Vec2)
        ensures
            v == capped(self),
            norm_squared(v) <= ONE * ONE,
    {
        proof {
            lemma_capped_is_bounded(self);
        }
        if self.length_squared() > ONE_SQUARED {
            self.normalize()
        } else {
            self
        }
    }
}

/// The vector `v` with each component multiplied by the scalar `s`.
pub fn scale(s: i64, v: Vec2) -> (r: Vec2)
    ensures
        r == scaled(s, v),
{
    Vec2 { x: fixed_mul(s, v.x), y: fixed_mul(s, v.y) }
}

} // verus!
