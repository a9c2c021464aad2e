//! The camera controller: a pose of position, target and up vector, the
//! directions derived from it, and the moves that navigate it.
use vstd::prelude::*;
use crate::fixed::{
    floor_sqrt, isqrt, lemma_floor_sqrt_exists, lemma_mul_bound, lemma_round_div_error,
    lemma_round_div_exact, lemma_round_div_square, magnitude, saturate, saturated, ONE,
};
use crate::vector::{
    lemma_cross_norm, lemma_cross_orthogonal, lemma_double_cross, lemma_norm_of_sum,
    lemma_unit_length, IntVector, Vector3, WideVector,
};

verus! {

/// An angle of rotation, held as the sine and the cosine of its half, each
/// in units of 1/`ONE`.
#[derive(Clone, Copy, Debug, PartialEq, Eq, Structural)]
pub struct Angle {
    pub sin_half: i32,
    pub cos_half: i32,
}

impl Angle {
    /// By how much the squares of the two values miss adding up to one, in
    /// units of 1/`ONE` squared.
    pub open spec fn defect(self) -> int {
        self.sin_half * self.sin_half + self.cos_half * self.cos_half - ONE * ONE
    }

    /// Whether the two values are the sine and cosine of one angle, each to
    /// within rounding: both lie between -1.0 and 1.0, and their squares add
    /// up to one to within two units.
    pub open spec fn wf(self) -> bool {
        &&& -ONE <= self.sin_half <= ONE
        &&& -ONE <= self.cos_half <= ONE
        &&& -2 * ONE <= self.defect() <= 2 * ONE
    }

    /// The angle with the given half-angle sine and cosine, where they are
    /// the sine and cosine of one angle.
    pub fn new(sin_half: i32, cos_half: i32) -> (angle: Option<Angle>)
        ensures
            angle is Some <==> (Angle { sin_half, cos_half }).wf(),
            angle matches Some(a) ==> a.sin_half == sin_half && a.cos_half == cos_half,
    {
        let angle = Angle { sin_half, cos_half };
        if angle.is_valid() {
            Some(angle)
        } else {
            None
        }
    }

    /// Whether the two values are the sine and cosine of one angle.
    pub fn is_valid(&self) -> (valid: bool)
        ensures
            valid == self.wf(),
    {
        if -ONE <= self.sin_half && self.sin_half <= ONE && -ONE <= self.cos_half && self.cos_half
            <= ONE {
            let s: i64 = self.sin_half as i64;
            let c: i64 = self.cos_half as i64;
            proof {
                lemma_mul_bound(s as int, s as int, 0x1_0000, 0x1_0000);
                lemma_mul_bound(c as int, c as int, 0x1_0000, 0x1_0000);
            }
            let defect: i64 = s * s + c * c - 0x1_0000_0000;
            -0x2_0000 <= defect && defect <= 0x2_0000
        } else {
            false
        }
    }

    /// The angle zero.
    pub fn zero() -> (angle: Angle)
        ensures
            angle == (Angle { sin_half: 0, cos_half: ONE }),
            angle.wf(),
    {
        Angle { sin_half: 0, cos_half: ONE }
    }
}

/// `ONE` to the fourth: the scale at which a turn is computed before it is
/// rounded.
pub open spec fn full_scale() -> int {
    0x1_0000_0000_0000_0000
}

/// The Euler-Rodrigues formula `v + 2a(w × v) + 2(w × (w × v))` at full
/// scale, where `w` is the unit axis times the half-angle sine and `a` is
/// the half-angle cosine, each in units of 1/`ONE`.
pub open spec fn turned_exact(v: IntVector, w: IntVector, cos_half: int) -> IntVector {
    let wv = w.cross(v);
    let wwv = w.cross(wv);
    v.times(full_scale()).plus(wv.times(2 * cos_half * ONE)).plus(wwv.times(2))
}

/// `v` turned about `axis` by `angle`: the formula's value at full scale,
/// rounded once.
pub open spec fn rotated(v: IntVector, axis: IntVector, angle: Angle) -> IntVector {
    turned_exact(
        v,
        axis.unit().times(angle.sin_half as int),
        angle.cos_half as int,
    ).rounded(full_scale())
}

/// By how much `w` and `cos_half` miss being the parts of a rotation: the
/// squared length of `w` plus the squared cosine, less one, at full scale.
pub open spec fn unit_defect(w: IntVector, cos_half: int) -> int {
    w.norm2() + cos_half * cos_half * (ONE * ONE) - full_scale()
}

/// A turn keeps the length of a vector but for the unit defect: the squared
/// length after, at full scale, is the squared length before plus four
/// times the defect times the squared length of `w × v`.
pub proof fn lemma_turn_length(v: IntVector, w: IntVector, cos_half: int)
    ensures
        turned_exact(v, w, cos_half).norm2() == full_scale() * full_scale() * v.norm2() + 4 * (
        unit_defect(w, cos_half) * w.cross(v).norm2()),
{
    let f = full_scale();
    let p = w.cross(v);
    let q = w.cross(p);
    let d = w.dot(v);
    let ww = w.norm2();
    let vv = v.norm2();
    let pp = p.norm2();
    let b = 2 * cos_half * ONE;
    let k = cos_half * cos_half * (ONE * ONE);
    lemma_double_cross(w, v);
    lemma_cross_orthogonal(w, v);
    lemma_cross_norm(w, v);
    // The formula as a sum of `v`, `w × v` and `w`.
    let x = turned_exact(v, w, cos_half);
    let y = v.times(f - 2 * ww).plus(p.times(b)).plus(w.times(2 * d));
    assert(x.x == y.x) by (nonlinear_arith)
        requires
            x.x == v.x * f + p.x * b + (w.x * d - v.x * ww) * 2,
            y.x == v.x * (f - 2 * ww) + p.x * b + w.x * (2 * d),
    ;
    assert(x.y == y.y) by (nonlinear_arith)
        requires
            x.y == v.y * f + p.y * b + (w.y * d - v.y * ww) * 2,
            y.y == v.y * (f - 2 * ww) + p.y * b + w.y * (2 * d),
    ;
    assert(x.z == y.z) by (nonlinear_arith)
        requires
            x.z == v.z * f + p.z * b + (w.z * d - v.z * ww) * 2,
            y.z == v.z * (f - 2 * ww) + p.z * b + w.z * (2 * d),
    ;
    assert(x == y);
    lemma_norm_of_sum(v, p, w, f - 2 * ww, b, 2 * d);
    assert(v.dot(w) == d) by (nonlinear_arith)
        requires
            d == w.x * v.x + w.y * v.y + w.z * v.z,
            v.dot(w) == v.x * w.x + v.y * w.y + v.z * w.z,
    ;
    // The scalar terms, over the products `ww * vv` and `d * d`.
    let wv = ww * vv;
    let dd = d * d;
    assert(pp == wv - dd);
    assert((f - 2 * ww) * (f - 2 * ww) * vv == f * f * vv - 4 * (f * wv) + 4 * (ww * wv))
        by (nonlinear_arith)
        requires
            wv == ww * vv,
    ;
    assert(2 * ((f - 2 * ww) * (2 * d) * d) == 4 * (f * dd) - 8 * (ww * dd)) by (nonlinear_arith)
        requires
            dd == d * d,
    ;
    assert((2 * d) * (2 * d) * ww == 4 * (ww * dd)) by (nonlinear_arith)
        requires
            dd == d * d,
    ;
    assert(b * b * pp == 4 * (k * pp)) by (nonlinear_arith)
        requires
            b == 2 * cos_half * ONE,
            k == cos_half * cos_half * (ONE * ONE),
    ;
    assert(unit_defect(w, cos_half) * pp == ww * wv - ww * dd + k * pp - (f * wv - f * dd))
        by (nonlinear_arith)
        requires
            unit_defect(w, cos_half) == ww + k - f,
            pp == wv - dd,
    ;
}

/// A turn by an angle keeps the length of a vector to within one part in
/// four thousand: before rounding, the squared length after differs from
/// the squared length before by no more than one part in two thousand.
pub proof fn lemma_turn_keeps_length(v: IntVector, axis: IntVector, angle: Angle)
    requires
        angle.wf(),
    ensures
        ({
            let after = turned_exact(
                v,
                axis.unit().times(angle.sin_half as int),
                angle.cos_half as int,
            ).norm2();
            let before = full_scale() * full_scale() * v.norm2();
            -before <= 2000 * (after - before) <= before
        }),
{
    let f = full_scale();
    let s = angle.sin_half as int;
    let c = angle.cos_half as int;
    let u = axis.unit();
    let w = u.times(s);
    let ss = s * s;
    let cc = c * c;
    let uu = u.norm2();
    let vv = v.norm2();
    let ww = w.norm2();
    let pp = w.cross(v).norm2();
    let e = unit_defect(w, c);
    lemma_turn_length(v, w, c);
    lemma_cross_norm(w, v);
    assert(vv >= 0 && ss >= 0 && cc >= 0) by (nonlinear_arith)
        requires
            vv == v.x * v.x + v.y * v.y + v.z * v.z,
            ss == s * s,
            cc == c * c,
    ;
    assert((u.x * s) * (u.x * s) == ss * (u.x * u.x)) by (nonlinear_arith)
        requires
            ss == s * s,
    ;
    assert((u.y * s) * (u.y * s) == ss * (u.y * u.y)) by (nonlinear_arith)
        requires
            ss == s * s,
    ;
    assert((u.z * s) * (u.z * s) == ss * (u.z * u.z)) by (nonlinear_arith)
        requires
            ss == s * s,
    ;
    assert(ss * (u.x * u.x) + ss * (u.y * u.y) + ss * (u.z * u.z) == ss * uu) by (nonlinear_arith)
        requires
            uu == u.x * u.x + u.y * u.y + u.z * u.z,
    ;
    assert(ww == ss * uu);
    lemma_mul_bound(s, s, 0x1_0000, 0x1_0000);
    assert(axis.norm2() >= 0) by (nonlinear_arith)
        requires
            axis.norm2() == axis.x * axis.x + axis.y * axis.y + axis.z * axis.z,
    ;
    if axis.norm2() == 0 {
        // Without an axis nothing turns.
        assert(u == IntVector::zero());
        assert(ww == 0) by (nonlinear_arith)
            requires
                ww == ss * uu,
                uu == 0,
        ;
        assert(pp == 0) by (nonlinear_arith)
            requires
                0 <= pp <= ww * vv,
                ww == 0,
        ;
        assert(e * pp == 0) by (nonlinear_arith)
            requires
                pp == 0,
        ;
        assert(f * f * vv >= 0) by (nonlinear_arith)
            requires
                vv >= 0,
        ;
    } else {
        lemma_unit_length(axis);
        assert(65534 * 65534 <= uu <= 65539 * 65539);
        // The defect and the squared length of `w`, each against its bound.
        let m: int = 0x1_0000_0000int * (8 * 0x1_0000int + 9);
        let lean = uu - 0x1_0000_0000;
        lemma_mul_bound(ss, lean, 0x1_0000_0000, 393225);
        assert(e == ss * lean + 0x1_0000_0000 * (ss + cc - 0x1_0000_0000)) by (nonlinear_arith)
            requires
                e == ss * uu + cc * (0x1_0000 * 0x1_0000) - 0x1_0000_0000_0000_0000,
                lean == uu - 0x1_0000_0000,
        ;
        assert(-m <= e <= m);
        assert(0 <= ww <= 0x1_0000_0000 * (65539 * 65539)) by (nonlinear_arith)
            requires
                ww == ss * uu,
                0 <= ss <= 0x1_0000_0000,
                0 <= uu <= 65539 * 65539,
        ;
        let most: int = 0x1_0000_0000int * (65539 * 65539);
        assert(0 <= pp <= most * vv) by (nonlinear_arith)
            requires
                0 <= pp <= ww * vv,
                0 <= ww <= most,
                vv >= 0,
        ;
        assert(-(m * (most * vv)) <= e * pp <= m * (most * vv)) by (nonlinear_arith)
            requires
                -m <= e <= m,
                0 <= pp <= most * vv,
                m >= 0,
        ;
        assert(2000 * (4 * (m * (most * vv))) <= f * f * vv) by (nonlinear_arith)
            requires
                m == 0x1_0000_0000int * (8 * 0x1_0000int + 9),
                most == 0x1_0000_0000int * (65539 * 65539),
                f == 0x1_0000_0000_0000_0000,
                vv >= 0,
        ;
    }
}

/// A turn by an angle never brings a vector to zero.
pub proof fn lemma_turn_is_not_zero(v: IntVector, axis: IntVector, angle: Angle)
    requires
        v != IntVector::zero(),
        angle.wf(),
    ensures
        rotated(v, axis, angle) != IntVector::zero(),
{
    let f = full_scale();
    let x = turned_exact(v, axis.unit().times(angle.sin_half as int), angle.cos_half as int);
    lemma_turn_keeps_length(v, axis, angle);
    lemma_nonzero_norm(v);
    let vv = v.norm2();
    assert(f * f * vv >= f * f) by (nonlinear_arith)
        requires
            vv >= 1,
    ;
    if rotated(v, axis, angle) == IntVector::zero() {
        // Each component was less than half of full scale, so all three
        // together fall short of the length that the turn keeps.
        lemma_round_div_error(x.x, f);
        lemma_round_div_error(x.y, f);
        lemma_round_div_error(x.z, f);
        assert(4 * (x.x * x.x) <= f * f) by (nonlinear_arith)
            requires
                -f <= 2 * x.x <= f,
        ;
        assert(4 * (x.y * x.y) <= f * f) by (nonlinear_arith)
            requires
                -f <= 2 * x.y <= f,
        ;
        assert(4 * (x.z * x.z) <= f * f) by (nonlinear_arith)
            requires
                -f <= 2 * x.z <= f,
        ;
        assert(f * f > 0) by (nonlinear_arith)
            requires
                f > 0,
        ;
        assert(false);
    }
}

/// The largest component magnitude that a rotation can return: thirteen
/// times the largest that it accepts.
pub const ROTATED_MAX: i128 = 0xd_0000_0000;

/// Turns a wide vector about an axis.
pub fn rotate_wide(v: WideVector, axis: Vector3, angle: Angle) -> (r: WideVector)
    requires
        v@.within(0x1_0000_0000),
        angle.wf(),
    ensures
        r@ == rotated(v@, axis@, angle),
        r@.within(ROTATED_MAX as int),
{
    let unit = axis.normalized().widen();
    let w = unit.times(angle.sin_half as i128, Ghost(0x1_0000), Ghost(0x1_0000));
    let wv = w.cross(v, Ghost(0x1_0000_0000), Ghost(0x1_0000_0000));
    let wwv = w.cross(wv, Ghost(0x1_0000_0000), Ghost(0x2_0000_0000_0000_0000));
    assert(2 * angle.cos_half * ONE == 2 * (angle.cos_half as i128) * 0x1_0000);
    let a2: i128 = 2 * (angle.cos_half as i128) * 0x1_0000;
    let first = v.times(0x1_0000_0000_0000_0000, Ghost(0x1_0000_0000), Ghost(0x1_0000_0000_0000_0000));
    let second = wv.times(a2, Ghost(0x2_0000_0000_0000_0000), Ghost(0x2_0000_0000));
    let third = wwv.times(2, Ghost(0x4_0000_0000_0000_0000_0000_0000), Ghost(2));
    let sum = first.plus(
        second,
        Ghost(0x1_0000_0000_0000_0000_0000_0000),
        Ghost(0x4_0000_0000_0000_0000_0000_0000),
    ).plus(
        third,
        Ghost(0x5_0000_0000_0000_0000_0000_0000),
        Ghost(0x8_0000_0000_0000_0000_0000_0000),
    );
    sum.rounded(0x1_0000_0000_0000_0000, Ghost(0xd_0000_0000))
}

/// Turns `v` about `axis` by `angle`; each component saturates.
pub fn vector3_rotate_by_axis_angle(v: Vector3, axis: Vector3, angle: Angle) -> (r: Vector3)
    requires
        angle.wf(),
    ensures
        r@ == rotated(v@, axis@, angle).saturated(),
{
    rotate_wide(v.widen(), axis, angle).saturated()
}

/// How far a step at full speed carries the camera forward or sideways in
/// one second, in whole units of length.
pub const CAMERA_SPEED: i32 = 50;

/// How far a step at full speed carries the camera up or down in one second,
/// in whole units of length.
pub const CAMERA_UP_SPEED: i32 = 80;

/// The distance to the target that a dolly move falls back to when it would
/// reach or pass the target: 0.001, rounded to units.
pub const DOLLY_FLOOR: i32 = 66;

/// The camera: where it stands, what it looks at, and which way is up.
#[derive(Clone, Copy, Debug, PartialEq, Eq, Structural)]
pub struct Camera3D {
    pub position: Vector3,
    pub target: Vector3,
    pub up: Vector3,
}

/// A camera pose over mathematical integers.
pub struct Pose {
    pub position: IntVector,
    pub target: IntVector,
    pub up: IntVector,
}

impl View for Camera3D {
    type V = Pose;

    open spec fn view(&self) -> Pose {
        Pose { position: self.position@, target: self.target@, up: self.up@ }
    }
}

impl Pose {
    /// The unit vector from the position to the target.
    pub open spec fn forward(self) -> IntVector {
        self.target.minus(self.position).unit()
    }

    /// The up vector at unit length.
    pub open spec fn upward(self) -> IntVector {
        self.up.unit()
    }

    /// The unit vector to the right of the view: forward cross up.
    pub open spec fn rightward(self) -> IntVector {
        self.forward().cross(self.upward()).unit()
    }

    /// The distance from the position to the target, rounded down.
    pub open spec fn distance(self) -> int {
        floor_sqrt(self.position.minus(self.target).norm2())
    }

    /// The pose with position and target both moved by `distance` along the
    /// unit vector `axis`.
    pub open spec fn shifted(self, axis: IntVector, distance: int) -> Pose {
        let step = axis.times(distance).rounded(ONE as int);
        Pose {
            position: self.position.plus(step).saturated(),
            target: self.target.plus(step).saturated(),
            up: self.up,
        }
    }

    /// The pose with the view vector turned about `axis`. Around the target
    /// the position moves and the target stays; otherwise the target moves
    /// and the position stays.
    pub open spec fn turned(self, axis: IntVector, angle: Angle, around_target: bool) -> Pose {
        let view = rotated(self.target.minus(self.position), axis, angle);
        if around_target {
            Pose {
                position: self.target.minus(view).saturated(),
                target: self.target,
                up: self.up,
            }
        } else {
            Pose {
                position: self.position,
                target: self.position.plus(view).saturated(),
                up: self.up,
            }
        }
    }

    /// The pose turned about its up vector.
    pub open spec fn yawed(self, angle: Angle, around_target: bool) -> Pose {
        self.turned(self.upward(), angle, around_target)
    }

    /// The pose turned about its right vector.
    pub open spec fn pitched(self, angle: Angle, around_target: bool) -> Pose {
        self.turned(self.rightward(), angle, around_target)
    }

    /// The distance to the target after a dolly move by `delta`: the sum,
    /// or `DOLLY_FLOOR` where the sum is not positive.
    pub open spec fn dolly_distance(self, delta: int) -> int {
        if self.distance() + delta <= 0 {
            DOLLY_FLOOR as int
        } else {
            self.distance() + delta
        }
    }

    /// The pose with the position set on the line of sight at the dolly
    /// distance from the target.
    pub open spec fn dollied(self, delta: int) -> Pose {
        let step = self.forward().times(-self.dolly_distance(delta)).rounded(ONE as int);
        Pose { position: self.target.plus(step).saturated(), target: self.target, up: self.up }
    }
}

/// A vector that is not zero has a positive squared length.
proof fn lemma_nonzero_norm(v: IntVector)
    requires
        v != IntVector::zero(),
    ensures
        v.norm2() > 0,
{
    assert(v.x * v.x >= 0 && v.y * v.y >= 0 && v.z * v.z >= 0) by (nonlinear_arith);
    if v.x != 0 {
        assert(v.x * v.x > 0) by (nonlinear_arith)
            requires
                v.x != 0,
        ;
    } else if v.y != 0 {
        assert(v.y * v.y > 0) by (nonlinear_arith)
            requires
                v.y != 0,
        ;
    } else {
        assert(v.z * v.z > 0) by (nonlinear_arith)
            requires
                v.z != 0,
        ;
    }
}

/// While the camera does not stand on its target, its forward vector has
/// length `ONE` to within rounding, whatever moves led to the pose.
pub proof fn lemma_forward_is_unit(pose: Pose)
    requires
        pose.position != pose.target,
    ensures
        (ONE - 2) * (ONE - 2) <= pose.forward().norm2() <= (ONE + 3) * (ONE + 3),
{
    let view = pose.target.minus(pose.position);
    assert(view != IntVector::zero());
    lemma_nonzero_norm(view);
    lemma_unit_length(view);
}

/// While the camera's up vector is not zero, its unit form has length `ONE`
/// to within rounding. No turn changes the up vector itself.
pub proof fn lemma_up_is_unit(pose: Pose)
    requires
        pose.up != IntVector::zero(),
    ensures
        (ONE - 2) * (ONE - 2) <= pose.upward().norm2() <= (ONE + 3) * (ONE + 3),
        forall|angle: Angle, around_target: bool|
            (#[trigger] pose.yawed(angle, around_target)).up == pose.up,
        forall|angle: Angle, around_target: bool|
            (#[trigger] pose.pitched(angle, around_target)).up == pose.up,
{
    lemma_nonzero_norm(pose.up);
    lemma_unit_length(pose.up);
}

/// A turn around the target leaves the target where it is, and a turn from
/// where the camera stands leaves the position.
pub proof fn lemma_turn_keeps_pivot(pose: Pose, angle: Angle, around_target: bool)
    ensures
        around_target ==> pose.yawed(angle, around_target).target == pose.target,
        around_target ==> pose.pitched(angle, around_target).target == pose.target,
        !around_target ==> pose.yawed(angle, around_target).position == pose.position,
        !around_target ==> pose.pitched(angle, around_target).position == pose.position,
{
}

/// A turn leaves the camera off its target where it was off it before, so
/// that the forward vector stays a unit vector through any run of turns.
/// This holds while the turn does not carry the camera or the target past
/// the ends of the coordinate range.
pub proof fn lemma_turn_keeps_apart(pose: Pose, axis: IntVector, angle: Angle, around_target: bool)
    requires
        pose.position != pose.target,
        angle.wf(),
        around_target ==> pose.target.minus(
            rotated(pose.target.minus(pose.position), axis, angle),
        ).within(i32::MAX as int),
        !around_target ==> pose.position.plus(
            rotated(pose.target.minus(pose.position), axis, angle),
        ).within(i32::MAX as int),
    ensures
        pose.turned(axis, angle, around_target).position != pose.turned(
            axis,
            angle,
            around_target,
        ).target,
        (ONE - 2) * (ONE - 2) <= pose.turned(axis, angle, around_target).forward().norm2() <= (ONE
            + 3) * (ONE + 3),
{
    let view = pose.target.minus(pose.position);
    assert(view != IntVector::zero());
    lemma_turn_is_not_zero(view, axis, angle);
    lemma_forward_is_unit(pose.turned(axis, angle, around_target));
}

/// A turn by the angle zero changes no vector, whatever the axis.
pub proof fn lemma_zero_angle_keeps(v: IntVector, axis: IntVector)
    ensures
        rotated(v, axis, (Angle { sin_half: 0, cos_half: ONE })) == v,
{
    let angle = Angle { sin_half: 0, cos_half: ONE };
    let full: int = 0x1_0000_0000_0000_0000;
    let w = axis.unit().times(0);
    assert(w == IntVector::zero()) by (nonlinear_arith)
        requires
            w == axis.unit().times(0),
    ;
    let wv = w.cross(v);
    assert(wv == IntVector::zero()) by (nonlinear_arith)
        requires
            wv == w.cross(v),
            w == IntVector::zero(),
    ;
    let wwv = w.cross(wv);
    assert(wwv == IntVector::zero()) by (nonlinear_arith)
        requires
            wwv == w.cross(wv),
            w == IntVector::zero(),
    ;
    assert(wv.times(2 * angle.cos_half * ONE) == IntVector::zero()) by (nonlinear_arith)
        requires
            wv == IntVector::zero(),
    ;
    assert(wwv.times(2) == IntVector::zero());
    let sum = turned_exact(v, w, angle.cos_half as int);
    assert(sum == v.times(full));
    lemma_round_div_exact(v.x, full);
    lemma_round_div_exact(v.y, full);
    lemma_round_div_exact(v.z, full);
}

/// A step along an axis moves position and target alike, so the view from
/// one to the other stays as it was. This holds while neither leaves the
/// coordinate range.
pub proof fn lemma_shift_keeps_view(pose: Pose, axis: IntVector, distance: int)
    requires
        pose.position.plus(axis.times(distance).rounded(ONE as int)).within(i32::MAX as int),
        pose.target.plus(axis.times(distance).rounded(ONE as int)).within(i32::MAX as int),
    ensures
        ({
            let after = pose.shifted(axis, distance);
            after.target.minus(after.position) == pose.target.minus(pose.position)
        }),
{
}

/// A unit vector scaled to the length of `DOLLY_FLOOR` comes out within one
/// unit of that length.
proof fn lemma_floor_step_length(f: IntVector)
    requires
        (ONE - 2) * (ONE - 2) <= f.norm2() <= (ONE + 3) * (ONE + 3),
    ensures
        ({
            let step = f.times(-DOLLY_FLOOR).rounded(ONE as int);
            &&& (DOLLY_FLOOR - 1) * (DOLLY_FLOOR - 1) <= step.norm2() <= (DOLLY_FLOOR + 1) * (
            DOLLY_FLOOR + 1)
            &&& step.within(DOLLY_FLOOR + 1)
        }),
{
    let step = f.times(-DOLLY_FLOOR).rounded(ONE as int);
    let u = f.norm2();
    let w: int = 0x1_0000_0000;
    let gx = f.x * -DOLLY_FLOOR;
    let gy = f.y * -DOLLY_FLOOR;
    let gz = f.z * -DOLLY_FLOOR;
    assert(gx == -66 * f.x && gy == -66 * f.y && gz == -66 * f.z);
    let mx = magnitude(f.x);
    let my = magnitude(f.y);
    let mz = magnitude(f.z);
    let t = mx + my + mz;
    // The components of a vector sum to at most the root of three times its
    // squared length.
    assert(mx * mx + my * my + mz * mz == u) by (nonlinear_arith)
        requires
            u == f.x * f.x + f.y * f.y + f.z * f.z,
            mx == f.x || mx == -f.x,
            my == f.y || my == -f.y,
            mz == f.z || mz == -f.z,
    ;
    assert(t * t <= 3 * u) by (nonlinear_arith)
        requires
            t == mx + my + mz,
            mx * mx + my * my + mz * mz == u,
    ;
    assert(t <= 113516) by (nonlinear_arith)
        requires
            t * t <= 3 * (65539 * 65539),
            t >= 0,
    ;
    lemma_round_div_square(gx, ONE as int);
    lemma_round_div_square(gy, ONE as int);
    lemma_round_div_square(gz, ONE as int);
    let n = step.norm2();
    assert((step.x * ONE) * (step.x * ONE) + (step.y * ONE) * (step.y * ONE) + (step.z * ONE) * (
    step.z * ONE) == w * n) by (nonlinear_arith)
        requires
            n == step.x * step.x + step.y * step.y + step.z * step.z,
            ONE == 0x1_0000,
            w == 0x1_0000_0000,
    ;
    assert(gx * gx + gy * gy + gz * gz == 4356 * u) by (nonlinear_arith)
        requires
            gx == -66 * f.x,
            gy == -66 * f.y,
            gz == -66 * f.z,
            u == f.x * f.x + f.y * f.y + f.z * f.z,
    ;
    assert(magnitude(gx) == 66 * mx && magnitude(gy) == 66 * my && magnitude(gz) == 66 * mz);
    assert(magnitude(gx) * ONE + magnitude(gy) * ONE + magnitude(gz) * ONE == 66 * t * 0x1_0000);
    assert(4 * (4356 * u) - 4 * (66 * t * 0x1_0000) <= 4 * (w * n));
    assert(4 * (w * n) <= 4 * (4356 * u) + 4 * (66 * t * 0x1_0000) + 3 * w);
    assert(4225 <= n <= 4489) by (nonlinear_arith)
        requires
            4 * (4356 * u) - 4 * (66 * t * 0x1_0000) <= 4 * (w * n),
            4 * (w * n) <= 4 * (4356 * u) + 4 * (66 * t * 0x1_0000) + 3 * w,
            w == 0x1_0000_0000,
            65534 * 65534 <= u <= 65539 * 65539,
            0 <= t <= 113516,
    ;
    assert(-67 <= step.x <= 67 && -67 <= step.y <= 67 && -67 <= step.z <= 67) by (nonlinear_arith)
        requires
            n == step.x * step.x + step.y * step.y + step.z * step.z,
            n <= 4489,
    ;
}

/// A dolly move that would reach or pass the target leaves the camera at
/// `DOLLY_FLOOR` from it, to within one unit, and never on it. This holds
/// while the camera does not stand on its target to begin with, and the
/// target lies clear of the ends of the coordinate range.
pub proof fn lemma_dolly_floor(pose: Pose, delta: int)
    requires
        pose.position != pose.target,
        pose.distance() + delta <= 0,
        pose.target.within(i32::MAX - DOLLY_FLOOR - 1),
    ensures
        ({
            let after = pose.dollied(delta);
            let span = after.position.minus(after.target).norm2();
            &&& after.target == pose.target
            &&& (DOLLY_FLOOR - 1) * (DOLLY_FLOOR - 1) <= span <= (DOLLY_FLOOR + 1) * (DOLLY_FLOOR
                + 1)
            &&& DOLLY_FLOOR - 1 <= after.distance() <= DOLLY_FLOOR + 1
        }),
{
    lemma_forward_is_unit(pose);
    lemma_floor_step_length(pose.forward());
    let step = pose.forward().times(-DOLLY_FLOOR).rounded(ONE as int);
    let after = pose.dollied(delta);
    assert(after.position == pose.target.plus(step));
    assert(after.position.minus(after.target) == step);
    let span = step.norm2();
    lemma_floor_sqrt_exists(span);
    let r = floor_sqrt(span);
    assert(65 <= r <= 67) by (nonlinear_arith)
        requires
            0 <= r,
            r * r <= span < (r + 1) * (r + 1),
            4225 <= span <= 4489,
    ;
}

/// The unit vector from the camera's position to its target.
pub fn get_camera_forward(camera: &Camera3D) -> (v: Vector3)
    ensures
        v@ == camera@.forward(),
        v@.within(ONE as int),
        camera.position != camera.target ==> (ONE - 2) * (ONE - 2) <= v@.norm2() <= (ONE + 3) * (
        ONE + 3),
{
    proof {
        if camera.position != camera.target {
            lemma_forward_is_unit(camera@);
        }
    }
    camera.target.offset_from(camera.position).normalized()
}

/// The camera's up vector at unit length.
pub fn get_camera_up(camera: &Camera3D) -> (v: Vector3)
    ensures
        v@ == camera@.upward(),
        v@.within(ONE as int),
        camera.up@ != IntVector::zero() ==> (ONE - 2) * (ONE - 2) <= v@.norm2() <= (ONE + 3) * (
        ONE + 3),
{
    proof {
        if camera.up@ != IntVector::zero() {
            lemma_up_is_unit(camera@);
        }
    }
    camera.up.normalized()
}

/// The unit vector to the camera's right.
pub fn get_camera_right(camera: &Camera3D) -> (v: Vector3)
    ensures
        v@ == camera@.rightward(),
        v@.within(ONE as int),
        camera@.forward().cross(camera@.upward()) != IntVector::zero() ==> (ONE - 2) * (ONE - 2)
            <= v@.norm2() <= (ONE + 3) * (ONE + 3),
{
    let forward = get_camera_forward(camera).widen();
    let up = get_camera_up(camera).widen();
    proof {
        let across = camera@.forward().cross(camera@.upward());
        if across != IntVector::zero() {
            lemma_nonzero_norm(across);
            lemma_unit_length(across);
        }
    }
    forward.cross(up, Ghost(0x1_0000), Ghost(0x1_0000)).normalized()
}

/// Moves position and target by `distance` along the unit vector `axis`.
fn shift(camera: &mut Camera3D, axis: Vector3, distance: i32)
    requires
        axis@.within(ONE as int),
    ensures
        final(camera)@ == old(camera)@.shifted(axis@, distance as int),
        final(camera).up == old(camera).up,
{
    let step = axis.widen().times(distance as i128, Ghost(0x1_0000), Ghost(0x8000_0000)).rounded(
        0x1_0000,
        Ghost(0x8000_0000),
    );
    camera.position = camera.position.widen().plus(
        step,
        Ghost(0x8000_0000),
        Ghost(0x8000_0000),
    ).saturated();
    camera.target = camera.target.widen().plus(
        step,
        Ghost(0x8000_0000),
        Ghost(0x8000_0000),
    ).saturated();
}

/// Turns the view vector about `axis`, around the target or around the position.
fn turn(camera: &mut Camera3D, axis: Vector3, angle: Angle, around_target: bool)
    requires
        angle.wf(),
    ensures
        final(camera)@ == old(camera)@.turned(axis@, angle, around_target),
        around_target ==> final(camera).target == old(camera).target,
        !around_target ==> final(camera).position == old(camera).position,
        final(camera).up == old(camera).up,
{
    let view = rotate_wide(camera.target.offset_from(camera.position), axis, angle);
    if around_target {
        camera.position = camera.target.widen().minus(
            view,
            Ghost(0x8000_0000),
            Ghost(ROTATED_MAX as int),
        ).saturated();
    } else {
        camera.target = camera.position.widen().plus(
            view,
            Ghost(0x8000_0000),
            Ghost(ROTATED_MAX as int),
        ).saturated();
    }
}

/// Trucks the camera to its right by `distance`; the view direction stays.
pub fn camera_move_right(camera: &mut Camera3D, distance: i32)
    ensures
        final(camera)@ == old(camera)@.shifted(old(camera)@.rightward(), distance as int),
        final(camera).up == old(camera).up,
{
    let axis = get_camera_right(camera);
    shift(camera, axis, distance);
}

/// Moves the camera along its line of sight by `distance`; the view direction stays.
pub fn camera_move_forward(camera: &mut Camera3D, distance: i32)
    ensures
        final(camera)@ == old(camera)@.shifted(old(camera)@.forward(), distance as int),
        final(camera).up == old(camera).up,
{
    let axis = get_camera_forward(camera);
    shift(camera, axis, distance);
}

/// Raises the camera along its up vector by `distance`; the view direction stays.
pub fn camera_move_up(camera: &mut Camera3D, distance: i32)
    ensures
        final(camera)@ == old(camera)@.shifted(old(camera)@.upward(), distance as int),
        final(camera).up == old(camera).up,
{
    let axis = get_camera_up(camera);
    shift(camera, axis, distance);
}

/// Turns the view about the right vector. Around the target the camera
/// orbits it; otherwise the camera looks up or down from where it stands.
pub fn camera_pitch(camera: &mut Camera3D, angle: Angle, around_target: bool)
    requires
        angle.wf(),
    ensures
        final(camera)@ == old(camera)@.pitched(angle, around_target),
        around_target ==> final(camera).target == old(camera).target,
        !around_target ==> final(camera).position == old(camera).position,
        final(camera).up == old(camera).up,
{
    let axis = get_camera_right(camera);
    turn(camera, axis, angle, around_target);
}

/// Turns the view about the up vector. Around the target the camera orbits
/// it; otherwise the camera looks left or right from where it stands.
pub fn camera_yaw(camera: &mut Camera3D, angle: Angle, around_target: bool)
    requires
        angle.wf(),
    ensures
        final(camera)@ == old(camera)@.yawed(angle, around_target),
        around_target ==> final(camera).target == old(camera).target,
        !around_target ==> final(camera).position == old(camera).position,
        final(camera).up == old(camera).up,
{
    let axis = get_camera_up(camera);
    turn(camera, axis, angle, around_target);
}

/// Changes the distance to the target by `delta` along the line of sight.
/// A distance that would not be positive becomes `DOLLY_FLOOR`.
pub fn camera_move_to_target(camera: &mut Camera3D, delta: i32)
    ensures
        final(camera)@ == old(camera)@.dollied(delta as int),
        final(camera).target == old(camera).target,
        final(camera).up == old(camera).up,
        old(camera).position != old(camera).target && old(camera)@.distance() + delta <= 0
            && old(camera)@.target.within(i32::MAX - DOLLY_FLOOR - 1)
            ==> DOLLY_FLOOR - 1 <= final(camera)@.distance() <= DOLLY_FLOOR + 1,
{
    proof {
        if camera.position != camera.target && camera@.distance() + delta <= 0
            && camera@.target.within(i32::MAX - DOLLY_FLOOR - 1) {
            lemma_dolly_floor(camera@, delta as int);
        }
    }
    let apart = camera.position.offset_from(camera.target);
    let span: u128 = apart.norm2();
    let reach: u64 = isqrt(span);
    proof {
        lemma_mul_bound(apart.x as int, apart.x as int, 0xffff_ffff, 0xffff_ffff);
        lemma_mul_bound(apart.y as int, apart.y as int, 0xffff_ffff, 0xffff_ffff);
        lemma_mul_bound(apart.z as int, apart.z as int, 0xffff_ffff, 0xffff_ffff);
        assert(reach < 0x2_0000_0000) by (nonlinear_arith)
            requires
                reach * reach <= span,
                span <= 3 * (0xffff_ffff * 0xffff_ffff),
        ;
    }
    let mut distance: i128 = reach as i128 + delta as i128;
    if distance <= 0 {
        distance = DOLLY_FLOOR as i128;
    }
    let forward = get_camera_forward(camera).widen();
    let step = forward.times(-distance, Ghost(0x1_0000), Ghost(0x4_0000_0000)).rounded(
        0x1_0000,
        Ghost(0x4_0000_0000),
    );
    camera.position = camera.target.widen().plus(
        step,
        Ghost(0x8000_0000),
        Ghost(0x4_0000_0000),
    ).saturated();
}

/// What the user did during one frame.
#[derive(Clone, Copy, Debug, PartialEq, Eq, Structural)]
pub struct CameraInput {
    /// The primary button is held: the pointer turns the view from where the
    /// camera stands, and the movement keys apply.
    pub look: bool,
    /// The secondary button is held: the pointer orbits the camera around
    /// its target.
    pub orbit: bool,
    /// The turn about the up vector that the pointer's horizontal travel asks for.
    pub yaw: Angle,
    /// The turn about the right vector that the pointer's vertical travel asks for.
    pub pitch: Angle,
    pub forward: bool,
    pub backward: bool,
    pub left: bool,
    pub right: bool,
    pub rise: bool,
    pub sink: bool,
    /// The duration of the frame, in seconds.
    pub frame_time: i32,
    /// The wheel's travel during the frame; a positive travel moves toward the target.
    pub wheel: i32,
}

impl CameraInput {
    /// Whether both turns are angles.
    pub open spec fn wf(self) -> bool {
        self.yaw.wf() && self.pitch.wf()
    }

    /// Whether both turns are angles.
    pub fn is_valid(&self) -> (valid: bool)
        ensures
            valid == self.wf(),
    {
        self.yaw.is_valid() && self.pitch.is_valid()
    }

    /// The length of a step forward or sideways during this frame.
    pub open spec fn pace(self) -> int {
        saturated(CAMERA_SPEED * self.frame_time)
    }

    /// The length of a step up or down during this frame.
    pub open spec fn climb(self) -> int {
        saturated(CAMERA_UP_SPEED * self.frame_time)
    }
}

impl Pose {
    /// The pose after the first-person part of a frame: the turn of the
    /// view, then one step for each movement key that is held.
    pub open spec fn flown(self, input: CameraInput) -> Pose {
        let turned = self.yawed(input.yaw, false).pitched(input.pitch, false);
        let a = if input.forward {
            turned.shifted(turned.forward(), input.pace())
        } else {
            turned
        };
        let b = if input.backward {
            a.shifted(a.forward(), saturated(-input.pace()))
        } else {
            a
        };
        let c = if input.left {
            b.shifted(b.rightward(), saturated(-input.pace()))
        } else {
            b
        };
        let d = if input.right {
            c.shifted(c.rightward(), input.pace())
        } else {
            c
        };
        let e = if input.rise {
            d.shifted(d.upward(), input.climb())
        } else {
            d
        };
        if input.sink {
            e.shifted(e.upward(), saturated(-input.climb()))
        } else {
            e
        }
    }

    /// The pose after one frame: the first-person part while the primary
    /// button is held, then the orbit while the secondary button is held,
    /// then the dolly move by the wheel's travel.
    pub open spec fn controlled(self, input: CameraInput) -> Pose {
        let flown = if input.look {
            self.flown(input)
        } else {
            self
        };
        let orbited = if input.orbit {
            flown.yawed(input.yaw, true).pitched(input.pitch, true)
        } else {
            flown
        };
        orbited.dollied(saturated(-input.wheel))
    }
}

/// Applies one frame of input to the camera: the turns first, then the
/// steps, then a single dolly move.
pub fn handle_camera_controls(camera: &mut Camera3D, input: &CameraInput)
    requires
        input.wf(),
    ensures
        final(camera)@ == old(camera)@.controlled(*input),
        final(camera).up == old(camera).up,
{
    if input.look {
        camera_yaw(camera, input.yaw, false);
        camera_pitch(camera, input.pitch, false);
        proof {
            lemma_mul_bound(CAMERA_SPEED as int, input.frame_time as int, 50, 0x8000_0000);
            lemma_mul_bound(CAMERA_UP_SPEED as int, input.frame_time as int, 80, 0x8000_0000);
        }
        let pace: i32 = saturate(CAMERA_SPEED as i128 * input.frame_time as i128);
        let climb: i32 = saturate(CAMERA_UP_SPEED as i128 * input.frame_time as i128);
        if input.forward {
            camera_move_forward(camera, pace);
        }
        if input.backward {
            camera_move_forward(camera, saturate(-(pace as i128)));
        }
        if input.left {
            camera_move_right(camera, saturate(-(pace as i128)));
        }
        if input.right {
            camera_move_right(camera, pace);
        }
        if input.rise {
            camera_move_up(camera, climb);
        }
        if input.sink {
            camera_move_up(camera, saturate(-(climb as i128)));
        }
    }
    if input.orbit {
        camera_yaw(camera, input.yaw, true);
        camera_pitch(camera, input.pitch, true);
    }
    camera_move_to_target(camera, saturate(-(input.wheel as i128)));
}

} // verus!
