//! Three-component vectors: `Vector3` holds fixed-point coordinates,
//! `WideVector` holds intermediate results that outgrow an `i32`, and
//! `IntVector` is the triple of mathematical integers that contracts speak of.
use vstd::prelude::*;
use crate::fixed::{
    div_round, floor_sqrt, is_floor_sqrt, isqrt, lemma_floor_sqrt_exists, lemma_mul_bound,
    lemma_round_div_square, lemma_round_div_within, magnitude, round_div, saturate, saturated,
    ONE, WIDE_MAX,
};

verus! {

/// A triple of mathematical integers.
pub struct IntVector {
    pub x: int,
    pub y: int,
    pub z: int,
}

impl IntVector {
    pub open spec fn zero() -> IntVector {
        IntVector { x: 0, y: 0, z: 0 }
    }

    pub open spec fn plus(self, other: IntVector) -> IntVector {
        IntVector { x: self.x + other.x, y: self.y + other.y, z: self.z + other.z }
    }

    pub open spec fn minus(self, other: IntVector) -> IntVector {
        IntVector { x: self.x - other.x, y: self.y - other.y, z: self.z - other.z }
    }

    /// Each component multiplied by `k`.
    pub open spec fn times(self, k: int) -> IntVector {
        IntVector { x: self.x * k, y: self.y * k, z: self.z * k }
    }

    pub open spec fn dot(self, other: IntVector) -> int {
        self.x * other.x + self.y * other.y + self.z * other.z
    }

    pub open spec fn cross(self, other: IntVector) -> IntVector {
        IntVector {
            x: self.y * other.z - self.z * other.y,
            y: self.z * other.x - self.x * other.z,
            z: self.x * other.y - self.y * other.x,
        }
    }

    /// The squared length.
    pub open spec fn norm2(self) -> int {
        self.dot(self)
    }

    /// Each component divided by a positive `d` and rounded to the nearest integer.
    pub open spec fn rounded(self, d: int) -> IntVector {
        IntVector { x: round_div(self.x, d), y: round_div(self.y, d), z: round_div(self.z, d) }
    }

    /// Each component brought into the range of an `i32`.
    pub open spec fn saturated(self) -> IntVector {
        IntVector { x: saturated(self.x), y: saturated(self.y), z: saturated(self.z) }
    }

    /// Whether no component exceeds `bound` in magnitude.
    pub open spec fn within(self, bound: int) -> bool {
        &&& -bound <= self.x <= bound
        &&& -bound <= self.y <= bound
        &&& -bound <= self.z <= bound
    }

    /// The vector of length `ONE` that points the way `self` does; the zero
    /// vector stays zero. The length is taken in units of 1/`ONE`, so that a
    /// vector of a single unit is still scaled accurately.
    pub open spec fn unit(self) -> IntVector {
        if self.norm2() == 0 {
            IntVector::zero()
        } else {
            let d = floor_sqrt(self.norm2() * ONE * ONE);
            IntVector {
                x: round_div(self.x * ONE * ONE, d),
                y: round_div(self.y * ONE * ONE, d),
                z: round_div(self.z * ONE * ONE, d),
            }
        }
    }
}

/// A point or direction in fixed-point coordinates.
#[derive(Clone, Copy, Debug, PartialEq, Eq, Structural, Hash)]
pub struct Vector3 {
    pub x: i32,
    pub y: i32,
    pub z: i32,
}

impl View for Vector3 {
    type V = IntVector;

    open spec fn view(&self) -> IntVector {
        IntVector { x: self.x as int, y: self.y as int, z: self.z as int }
    }
}

/// A vector whose components may outgrow an `i32`.
#[derive(Clone, Copy, Debug)]
pub struct WideVector {
    pub x: i128,
    pub y: i128,
    pub z: i128,
}

impl View for WideVector {
    type V = IntVector;

    open spec fn view(&self) -> IntVector {
        IntVector { x: self.x as int, y: self.y as int, z: self.z as int }
    }
}

/// The cross product stands at right angles to both of its factors.
pub proof fn lemma_cross_orthogonal(a: IntVector, b: IntVector)
    ensures
        a.dot(a.cross(b)) == 0,
        b.dot(a.cross(b)) == 0,
{
    let p = a.cross(b);
    assert(a.x * p.x + a.y * p.y + a.z * p.z == 0) by (nonlinear_arith)
        requires
            p.x == a.y * b.z - a.z * b.y,
            p.y == a.z * b.x - a.x * b.z,
            p.z == a.x * b.y - a.y * b.x,
    ;
    assert(b.x * p.x + b.y * p.y + b.z * p.z == 0) by (nonlinear_arith)
        requires
            p.x == a.y * b.z - a.z * b.y,
            p.y == a.z * b.x - a.x * b.z,
            p.z == a.x * b.y - a.y * b.x,
    ;
}

/// `(x - y)² = x² - 2xy + y²`.
proof fn lemma_square_of_difference(x: int, y: int)
    by (nonlinear_arith)
    ensures
        (x - y) * (x - y) == x * x - 2 * (x * y) + y * y,
{
}

/// `(x + y + z)² = x² + y² + z² + 2xy + 2xz + 2yz`.
proof fn lemma_square_of_sum(x: int, y: int, z: int)
    by (nonlinear_arith)
    ensures
        (x + y + z) * (x + y + z) == x * x + y * y + z * z + 2 * (x * y) + 2 * (x * z) + 2 * (y
            * z),
{
}

/// A sum of three times a sum of three is the sum of the nine products.
proof fn lemma_product_of_sums(x1: int, x2: int, x3: int, y1: int, y2: int, y3: int)
    by (nonlinear_arith)
    ensures
        (x1 + x2 + x3) * (y1 + y2 + y3) == x1 * y1 + x1 * y2 + x1 * y3 + x2 * y1 + x2 * y2 + x2
            * y3 + x3 * y1 + x3 * y2 + x3 * y3,
{
}

/// In a product of two products the second factors may change places.
proof fn lemma_mul_exchange(a: int, b: int, c: int, d: int)
    by (nonlinear_arith)
    ensures
        (a * b) * (c * d) == (a * d) * (c * b),
        (a * b) * (c * d) == (a * c) * (b * d),
{
}

/// The squared length of a cross product is the product of the squared
/// lengths less the squared dot product.
pub proof fn lemma_cross_norm(a: IntVector, b: IntVector)
    ensures
        a.cross(b).norm2() == a.norm2() * b.norm2() - a.dot(b) * a.dot(b),
        0 <= a.cross(b).norm2() <= a.norm2() * b.norm2(),
{
    let p = a.cross(b);
    // The nine products of a component of `a` and a component of `b`.
    let xx = a.x * b.x;
    let xy = a.x * b.y;
    let xz = a.x * b.z;
    let yx = a.y * b.x;
    let yy = a.y * b.y;
    let yz = a.y * b.z;
    let zx = a.z * b.x;
    let zy = a.z * b.y;
    let zz = a.z * b.z;
    lemma_square_of_difference(yz, zy);
    lemma_square_of_difference(zx, xz);
    lemma_square_of_difference(xy, yx);
    lemma_square_of_sum(xx, yy, zz);
    lemma_product_of_sums(a.x * a.x, a.y * a.y, a.z * a.z, b.x * b.x, b.y * b.y, b.z * b.z);
    lemma_mul_exchange(a.x, a.x, b.x, b.x);
    lemma_mul_exchange(a.x, a.x, b.y, b.y);
    lemma_mul_exchange(a.x, a.x, b.z, b.z);
    lemma_mul_exchange(a.y, a.y, b.x, b.x);
    lemma_mul_exchange(a.y, a.y, b.y, b.y);
    lemma_mul_exchange(a.y, a.y, b.z, b.z);
    lemma_mul_exchange(a.z, a.z, b.x, b.x);
    lemma_mul_exchange(a.z, a.z, b.y, b.y);
    lemma_mul_exchange(a.z, a.z, b.z, b.z);
    lemma_mul_exchange(a.x, b.x, a.y, b.y);
    lemma_mul_exchange(a.x, b.x, a.z, b.z);
    lemma_mul_exchange(a.y, b.y, a.z, b.z);
    assert(xx * yy == xy * yx);
    assert(xx * zz == xz * zx);
    assert(yy * zz == yz * zy);
    assert(a.norm2() * b.norm2() == xx * xx + xy * xy + xz * xz + yx * yx + yy * yy + yz * yz + zx
        * zx + zy * zy + zz * zz);
    assert(a.dot(b) * a.dot(b) == xx * xx + yy * yy + zz * zz + 2 * (xy * yx) + 2 * (xz * zx) + 2
        * (yz * zy));
    assert(p.norm2() == (yz - zy) * (yz - zy) + (zx - xz) * (zx - xz) + (xy - yx) * (xy - yx));
    assert(p.norm2() >= 0) by (nonlinear_arith)
        requires
            p.norm2() == p.x * p.x + p.y * p.y + p.z * p.z,
    ;
    assert(a.dot(b) * a.dot(b) >= 0) by (nonlinear_arith);
}

/// One component of `a × (a × b) = (a · b) a - |a|² b`.
proof fn lemma_double_cross_component(ax: int, ay: int, az: int, bx: int, by: int, bz: int)
    ensures
        ay * (ax * by - ay * bx) - az * (az * bx - ax * bz) == ax * (ax * bx + ay * by + az * bz)
            - bx * (ax * ax + ay * ay + az * az),
{
    assert(ay * (ax * by - ay * bx) == ay * (ax * by) - ay * (ay * bx)) by (nonlinear_arith);
    assert(az * (az * bx - ax * bz) == az * (az * bx) - az * (ax * bz)) by (nonlinear_arith);
    assert(ay * (ax * by) == ax * (ay * by)) by (nonlinear_arith);
    assert(az * (ax * bz) == ax * (az * bz)) by (nonlinear_arith);
    assert(ay * (ay * bx) == bx * (ay * ay)) by (nonlinear_arith);
    assert(az * (az * bx) == bx * (az * az)) by (nonlinear_arith);
    assert(ax * (ax * bx) == bx * (ax * ax)) by (nonlinear_arith);
    assert(ax * (ax * bx + ay * by + az * bz) == ax * (ax * bx) + ax * (ay * by) + ax * (az * bz))
        by (nonlinear_arith);
    assert(bx * (ax * ax + ay * ay + az * az) == bx * (ax * ax) + bx * (ay * ay) + bx * (az * az))
        by (nonlinear_arith);
}

/// A vector crossed twice with `a` is `a` scaled by the dot product, less
/// the vector scaled by `a`'s squared length: `a × (a × b) = (a · b) a - |a|² b`.
pub proof fn lemma_double_cross(a: IntVector, b: IntVector)
    ensures
        a.cross(a.cross(b)) == a.times(a.dot(b)).minus(b.times(a.norm2())),
{
    lemma_double_cross_component(a.x, a.y, a.z, b.x, b.y, b.z);
    lemma_double_cross_component(a.y, a.z, a.x, b.y, b.z, b.x);
    lemma_double_cross_component(a.z, a.x, a.y, b.z, b.x, b.y);
}

/// `(x + y + z)²` for three products `x = a f`, `y = b g`, `z = c h`.
proof fn lemma_square_of_scaled_sum(a: int, b: int, c: int, f: int, g: int, h: int)
    ensures
        (a * f + b * g + c * h) * (a * f + b * g + c * h) == f * f * (a * a) + g * g * (b * b) + h
            * h * (c * c) + 2 * (f * g * (a * b)) + 2 * (g * h * (c * b)) + 2 * (f * h * (a * c)),
{
    lemma_square_of_sum(a * f, b * g, c * h);
    assert((a * f) * (a * f) == f * f * (a * a)) by (nonlinear_arith);
    assert((b * g) * (b * g) == g * g * (b * b)) by (nonlinear_arith);
    assert((c * h) * (c * h) == h * h * (c * c)) by (nonlinear_arith);
    assert((a * f) * (b * g) == f * g * (a * b)) by (nonlinear_arith);
    assert((b * g) * (c * h) == g * h * (c * b)) by (nonlinear_arith);
    assert((a * f) * (c * h) == f * h * (a * c)) by (nonlinear_arith);
}

/// The squared length of `v` scaled by `f`, plus `p` scaled by `g`, plus `w`
/// scaled by `h`, where `p` stands at right angles to `v` and to `w`.
pub proof fn lemma_norm_of_sum(v: IntVector, p: IntVector, w: IntVector, f: int, g: int, h: int)
    requires
        v.dot(p) == 0,
        w.dot(p) == 0,
    ensures
        v.times(f).plus(p.times(g)).plus(w.times(h)).norm2() == f * f * v.norm2() + g * g
            * p.norm2() + h * h * w.norm2() + 2 * (f * h * v.dot(w)),
{
    let r = v.times(f).plus(p.times(g)).plus(w.times(h));
    lemma_square_of_scaled_sum(v.x, p.x, w.x, f, g, h);
    lemma_square_of_scaled_sum(v.y, p.y, w.y, f, g, h);
    lemma_square_of_scaled_sum(v.z, p.z, w.z, f, g, h);
    let ff = f * f;
    let gg = g * g;
    let hh = h * h;
    let fg = f * g;
    let gh = g * h;
    let fh = f * h;
    assert(ff * (v.x * v.x) + ff * (v.y * v.y) + ff * (v.z * v.z) == ff * v.norm2())
        by (nonlinear_arith)
        requires
            v.norm2() == v.x * v.x + v.y * v.y + v.z * v.z,
    ;
    assert(gg * (p.x * p.x) + gg * (p.y * p.y) + gg * (p.z * p.z) == gg * p.norm2())
        by (nonlinear_arith)
        requires
            p.norm2() == p.x * p.x + p.y * p.y + p.z * p.z,
    ;
    assert(hh * (w.x * w.x) + hh * (w.y * w.y) + hh * (w.z * w.z) == hh * w.norm2())
        by (nonlinear_arith)
        requires
            w.norm2() == w.x * w.x + w.y * w.y + w.z * w.z,
    ;
    assert(fg * (v.x * p.x) + fg * (v.y * p.y) + fg * (v.z * p.z) == 0) by (nonlinear_arith)
        requires
            v.x * p.x + v.y * p.y + v.z * p.z == 0,
    ;
    assert(gh * (w.x * p.x) + gh * (w.y * p.y) + gh * (w.z * p.z) == 0) by (nonlinear_arith)
        requires
            w.x * p.x + w.y * p.y + w.z * p.z == 0,
    ;
    assert(fh * (v.x * w.x) + fh * (v.y * w.y) + fh * (v.z * w.z) == fh * v.dot(w))
        by (nonlinear_arith)
        requires
            v.dot(w) == v.x * w.x + v.y * w.y + v.z * w.z,
    ;
    assert(r.norm2() == (v.x * f + p.x * g + w.x * h) * (v.x * f + p.x * g + w.x * h) + (v.y * f
        + p.y * g + w.y * h) * (v.y * f + p.y * g + w.y * h) + (v.z * f + p.z * g + w.z * h) * (
    v.z * f + p.z * g + w.z * h));
}

/// The largest component magnitude that `WideVector::normalized` accepts (2^47).
pub const UNIT_INPUT_MAX: i128 = 0x8000_0000_0000;

/// A component of the unit vector never exceeds `ONE`, and the length that
/// divides it is at least `ONE`.
pub proof fn lemma_unit_component(x: int, s: int, d: int)
    requires
        x * x <= s,
        s > 0,
        is_floor_sqrt(s * ONE * ONE, d),
    ensures
        d >= ONE,
        magnitude(x) * ONE <= d,
        -ONE <= round_div(x * ONE * ONE, d) <= ONE,
{
    let m = magnitude(x);
    assert(d >= 0x1_0000) by (nonlinear_arith)
        requires
            s >= 1,
            0 <= d,
            s * 0x1_0000 * 0x1_0000 < (d + 1) * (d + 1),
    ;
    assert(m * m == x * x) by (nonlinear_arith)
        requires
            m == x || m == -x,
    ;
    assert(m * 0x1_0000 <= d) by (nonlinear_arith)
        requires
            m * m <= s,
            0 <= m,
            0 <= d,
            s * 0x1_0000 * 0x1_0000 < (d + 1) * (d + 1),
    ;
    let q = (2 * (m * 0x1_0000 * 0x1_0000) + d) / (2 * d);
    assert(0 <= q <= 0x1_0000) by (nonlinear_arith)
        requires
            q == (2 * (m * 0x1_0000 * 0x1_0000) + d) / (2 * d),
            0 <= m,
            m * 0x1_0000 <= d,
            d >= 0x1_0000,
    ;
    if x >= 0 {
        assert(x * ONE * ONE == m * 0x1_0000 * 0x1_0000);
    } else {
        assert(x * ONE * ONE == -(m * 0x1_0000 * 0x1_0000)) by (nonlinear_arith)
            requires
                m == -x,
                ONE == 0x1_0000,
        ;
        assert(m * 0x1_0000 * 0x1_0000 > 0) by (nonlinear_arith)
            requires
                m > 0,
        ;
        assert(d - 2 * (x * ONE * ONE) == 2 * (m * 0x1_0000 * 0x1_0000) + d);
    }
}

/// What one component adds to the squared length of a unit vector: with
/// `n` the component and `d` the length that divided it, `n * d` squared
/// lies close to the square of the component scaled by `ONE` squared.
proof fn lemma_unit_component_square(x: int, s: int, d: int)
    requires
        x * x <= s,
        s > 0,
        is_floor_sqrt(s * ONE * ONE, d),
    ensures
        ({
            let n = round_div(x * ONE * ONE, d);
            let w: int = 0x1_0000_0000;
            &&& 4 * (w * w * (x * x)) - 4 * (ONE * (d * d)) <= 4 * ((n * n) * (d * d))
            &&& 4 * ((n * n) * (d * d)) <= 4 * (w * w * (x * x)) + 4 * (ONE * (d * d)) + d * d
        }),
{
    let w: int = 0x1_0000_0000;
    let a = x * ONE * ONE;
    let n = round_div(a, d);
    let m = magnitude(x);
    lemma_unit_component(x, s, d);
    lemma_round_div_square(a, d);
    assert(a == x * w) by (nonlinear_arith)
        requires
            a == x * ONE * ONE,
            ONE == 0x1_0000,
            w == 0x1_0000_0000,
    ;
    assert(a * a == w * w * (x * x)) by (nonlinear_arith)
        requires
            a == x * w,
    ;
    assert((n * d) * (n * d) == (n * n) * (d * d)) by (nonlinear_arith);
    assert(magnitude(a) == m * ONE * ONE) by (nonlinear_arith)
        requires
            a == x * ONE * ONE,
            ONE == 0x1_0000,
            m == magnitude(x),
    ;
    assert(magnitude(a) * d <= ONE * (d * d)) by (nonlinear_arith)
        requires
            magnitude(a) == m * ONE * ONE,
            m * ONE <= d,
            ONE == 0x1_0000,
            d > 0,
    ;
}

/// A unit vector has length `ONE` to within rounding: its squared length
/// lies between the squares of `ONE - 2` and `ONE + 3`, whatever non-zero
/// vector it was made from.
pub proof fn lemma_unit_length(v: IntVector)
    requires
        v.norm2() > 0,
    ensures
        (ONE - 2) * (ONE - 2) <= v.unit().norm2() <= (ONE + 3) * (ONE + 3),
        v.unit().within(ONE as int),
{
    let s = v.norm2();
    let w: int = 0x1_0000_0000;
    let t = s * ONE * ONE;
    assert(t == s * w && t >= 0) by (nonlinear_arith)
        requires
            t == s * ONE * ONE,
            ONE == 0x1_0000,
            w == 0x1_0000_0000,
            s > 0,
    ;
    lemma_floor_sqrt_exists(t);
    let d = floor_sqrt(t);
    assert(v.x * v.x <= s && v.y * v.y <= s && v.z * v.z <= s) by (nonlinear_arith)
        requires
            s == v.x * v.x + v.y * v.y + v.z * v.z,
    ;
    lemma_unit_component(v.x, s, d);
    lemma_unit_component(v.y, s, d);
    lemma_unit_component(v.z, s, d);
    lemma_unit_component_square(v.x, s, d);
    lemma_unit_component_square(v.y, s, d);
    lemma_unit_component_square(v.z, s, d);
    let n = v.unit();
    let u = n.norm2();
    let dd = d * d;
    assert(dd >= w) by (nonlinear_arith)
        requires
            dd == d * d,
            d >= 0x1_0000,
            w == 0x1_0000_0000,
    ;
    // The three components together.
    assert(4 * (u * dd) == 4 * ((n.x * n.x) * dd) + 4 * ((n.y * n.y) * dd) + 4 * ((n.z * n.z)
        * dd)) by (nonlinear_arith)
        requires
            u == n.x * n.x + n.y * n.y + n.z * n.z,
    ;
    assert(w * w * (v.x * v.x) + w * w * (v.y * v.y) + w * w * (v.z * v.z) == w * t)
        by (nonlinear_arith)
        requires
            s == v.x * v.x + v.y * v.y + v.z * v.z,
            t == s * w,
    ;
    assert(4 * (w * t) - 12 * (ONE * dd) <= 4 * (u * dd));
    assert(4 * (u * dd) <= 4 * (w * t) + 12 * (ONE * dd) + 3 * dd);
    // The length that divides is the root of `t`, rounded down.
    assert(w * dd <= w * t) by (nonlinear_arith)
        requires
            dd <= t,
            w > 0,
    ;
    assert(w * t <= w * dd + 2 * (ONE * dd) + dd) by (nonlinear_arith)
        requires
            t < (d + 1) * (d + 1),
            dd == d * d,
            d >= ONE,
            ONE == 0x1_0000,
            w == 0x1_0000_0000,
    ;
    assert(u >= w - 3 * ONE) by (nonlinear_arith)
        requires
            4 * (w * dd) - 12 * (ONE * dd) <= 4 * (u * dd),
            dd > 0,
    ;
    assert(u <= w + 5 * ONE + 4) by (nonlinear_arith)
        requires
            4 * (u * dd) <= 4 * (w * dd + 2 * (ONE * dd) + dd) + 12 * (ONE * dd) + 3 * dd,
            dd > 0,
    ;
}

impl Vector3 {
    pub fn new(x: i32, y: i32, z: i32) -> (v: Vector3)
        ensures
            v == (Vector3 { x, y, z }),
    {
        Vector3 { x, y, z }
    }

    pub fn zero() -> (v: Vector3)
        ensures
            v@ == IntVector::zero(),
    {
        Vector3 { x: 0, y: 0, z: 0 }
    }

    /// The same vector with room to grow.
    pub fn widen(self) -> (w: WideVector)
        ensures
            w@ == self@,
    {
        WideVector { x: self.x as i128, y: self.y as i128, z: self.z as i128 }
    }

    /// The sum, each component saturating.
    pub fn plus(self, other: Vector3) -> (v: Vector3)
        ensures
            v@ == self@.plus(other@).saturated(),
    {
        Vector3 {
            x: saturate(self.x as i128 + other.x as i128),
            y: saturate(self.y as i128 + other.y as i128),
            z: saturate(self.z as i128 + other.z as i128),
        }
    }

    /// The difference, each component saturating.
    pub fn minus(self, other: Vector3) -> (v: Vector3)
        ensures
            v@ == self@.minus(other@).saturated(),
    {
        Vector3 {
            x: saturate(self.x as i128 - other.x as i128),
            y: saturate(self.y as i128 - other.y as i128),
            z: saturate(self.z as i128 - other.z as i128),
        }
    }

    /// The exact difference.
    pub fn offset_from(self, other: Vector3) -> (w: WideVector)
        ensures
            w@ == self@.minus(other@),
            w@.within(0xffff_ffff),
    {
        WideVector {
            x: self.x as i128 - other.x as i128,
            y: self.y as i128 - other.y as i128,
            z: self.z as i128 - other.z as i128,
        }
    }

    /// The squared distance to `other`.
    pub fn distance_squared(self, other: Vector3) -> (d: u128)
        ensures
            d == self@.minus(other@).norm2(),
    {
        self.offset_from(other).norm2()
    }

    /// The vector of length `ONE` in the same direction; zero stays zero.
    pub fn normalized(self) -> (v: Vector3)
        ensures
            v@ == self@.unit(),
            v@.within(ONE as int),
    {
        self.widen().normalized()
    }
}

impl WideVector {
    /// The squared length.
    pub fn norm2(self) -> (s: u128)
        requires
            self@.within(UNIT_INPUT_MAX as int),
        ensures
            s == self@.norm2(),
            s <= 3 * (UNIT_INPUT_MAX * UNIT_INPUT_MAX),
            self.x * self.x <= s,
            self.y * self.y <= s,
            self.z * self.z <= s,
    {
        let x = self.x;
        let y = self.y;
        let z = self.z;
        assert(0 <= x * x <= 0x8000_0000_0000 * 0x8000_0000_0000) by (nonlinear_arith)
            requires
                -0x8000_0000_0000 <= x <= 0x8000_0000_0000,
        ;
        assert(0 <= y * y <= 0x8000_0000_0000 * 0x8000_0000_0000) by (nonlinear_arith)
            requires
                -0x8000_0000_0000 <= y <= 0x8000_0000_0000,
        ;
        assert(0 <= z * z <= 0x8000_0000_0000 * 0x8000_0000_0000) by (nonlinear_arith)
            requires
                -0x8000_0000_0000 <= z <= 0x8000_0000_0000,
        ;
        let s: i128 = x * x + y * y + z * z;
        s as u128
    }

    /// Each component brought into the range of an `i32`.
    pub fn saturated(self) -> (v: Vector3)
        ensures
            v@ == self@.saturated(),
    {
        Vector3 { x: saturate(self.x), y: saturate(self.y), z: saturate(self.z) }
    }

    /// The sum of two vectors within the ghost bounds `ma` and `mb`.
    pub(crate) fn plus(self, other: WideVector, Ghost(ma): Ghost<int>, Ghost(mb): Ghost<int>) -> (w:
        WideVector)
        requires
            self@.within(ma),
            other@.within(mb),
            ma + mb <= i128::MAX,
        ensures
            w@ == self@.plus(other@),
            w@.within(ma + mb),
    {
        WideVector { x: self.x + other.x, y: self.y + other.y, z: self.z + other.z }
    }

    /// The difference of two vectors within the ghost bounds `ma` and `mb`.
    pub(crate) fn minus(self, other: WideVector, Ghost(ma): Ghost<int>, Ghost(mb): Ghost<int>) -> (w:
        WideVector)
        requires
            self@.within(ma),
            other@.within(mb),
            ma + mb <= i128::MAX,
        ensures
            w@ == self@.minus(other@),
            w@.within(ma + mb),
    {
        WideVector { x: self.x - other.x, y: self.y - other.y, z: self.z - other.z }
    }

    /// Each component multiplied by `k`, for a vector within `ma` and a
    /// factor within `mk`.
    pub(crate) fn times(self, k: i128, Ghost(ma): Ghost<int>, Ghost(mk): Ghost<int>) -> (w:
        WideVector)
        requires
            self@.within(ma),
            -mk <= k <= mk,
            ma * mk <= i128::MAX,
        ensures
            w@ == self@.times(k as int),
            w@.within(ma * mk),
    {
        proof {
            lemma_mul_bound(self.x as int, k as int, ma, mk);
            lemma_mul_bound(self.y as int, k as int, ma, mk);
            lemma_mul_bound(self.z as int, k as int, ma, mk);
        }
        WideVector { x: self.x * k, y: self.y * k, z: self.z * k }
    }

    /// The cross product of two vectors within the ghost bounds `ma` and `mb`.
    pub(crate) fn cross(self, other: WideVector, Ghost(ma): Ghost<int>, Ghost(mb): Ghost<int>) -> (w:
        WideVector)
        requires
            self@.within(ma),
            other@.within(mb),
            2 * (ma * mb) <= i128::MAX,
        ensures
            w@ == self@.cross(other@),
            w@.within(2 * (ma * mb)),
    {
        proof {
            lemma_mul_bound(self.y as int, other.z as int, ma, mb);
            lemma_mul_bound(self.z as int, other.y as int, ma, mb);
            lemma_mul_bound(self.z as int, other.x as int, ma, mb);
            lemma_mul_bound(self.x as int, other.z as int, ma, mb);
            lemma_mul_bound(self.x as int, other.y as int, ma, mb);
            lemma_mul_bound(self.y as int, other.x as int, ma, mb);
        }
        WideVector {
            x: self.y * other.z - self.z * other.y,
            y: self.z * other.x - self.x * other.z,
            z: self.x * other.y - self.y * other.x,
        }
    }

    /// Each component divided by a positive `d` and rounded to the nearest
    /// integer, for a vector within `m` times `d`.
    pub(crate) fn rounded(self, d: i128, Ghost(m): Ghost<int>) -> (w: WideVector)
        requires
            self@.within(m * d),
            m * d <= WIDE_MAX,
            0 < d <= WIDE_MAX,
        ensures
            w@ == self@.rounded(d as int),
            w@.within(m),
    {
        proof {
            assert((-m) * d == -(m * d)) by (nonlinear_arith);
            lemma_round_div_within(self.x as int, d as int, -m, m);
            lemma_round_div_within(self.y as int, d as int, -m, m);
            lemma_round_div_within(self.z as int, d as int, -m, m);
        }
        WideVector {
            x: div_round(self.x, d),
            y: div_round(self.y, d),
            z: div_round(self.z, d),
        }
    }

    /// The vector of length `ONE` in the same direction; zero stays zero.
    pub fn normalized(self) -> (v: Vector3)
        requires
            self@.within(UNIT_INPUT_MAX as int),
        ensures
            v@ == self@.unit(),
            v@.within(ONE as int),
    {
        let s: u128 = self.norm2();
        if s == 0 {
            return Vector3 { x: 0, y: 0, z: 0 };
        }
        assert(s * ONE * ONE == s * 0x1_0000_0000) by (nonlinear_arith)
            requires
                ONE == 0x1_0000,
        ;
        let d: u64 = isqrt(s * 0x1_0000_0000);
        proof {
            lemma_unit_component(self.x as int, s as int, d as int);
            lemma_unit_component(self.y as int, s as int, d as int);
            lemma_unit_component(self.z as int, s as int, d as int);
            assert(self.x * ONE * ONE == self.x * 0x1_0000_0000) by (nonlinear_arith)
                requires
                    ONE == 0x1_0000,
            ;
            assert(self.y * ONE * ONE == self.y * 0x1_0000_0000) by (nonlinear_arith)
                requires
                    ONE == 0x1_0000,
            ;
            assert(self.z * ONE * ONE == self.z * 0x1_0000_0000) by (nonlinear_arith)
                requires
                    ONE == 0x1_0000,
            ;
        }
        let x: i128 = div_round(self.x * 0x1_0000_0000, d as i128);
        let y: i128 = div_round(self.y * 0x1_0000_0000, d as i128);
        let z: i128 = div_round(self.z * 0x1_0000_0000, d as i128);
        Vector3 { x: x as i32, y: y as i32, z: z as i32 }
    }
}

} // verus!
