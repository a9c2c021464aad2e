//! Colours and their place in cluster space: a cube of side twice the
//! cluster radius, in which a channel of 0 lies at coordinate 0 and a channel
//! of 255 at the radius.
use vstd::prelude::*;
use crate::fixed::{div_round, lemma_mul_bound, round_div};
use crate::vector::{IntVector, Vector3};

verus! {

/// A colour of four 8-bit channels.
#[derive(Clone, Copy, Debug, PartialEq, Eq, Structural, Hash)]
pub struct Color {
    pub r: u8,
    pub g: u8,
    pub b: u8,
    pub a: u8,
}

/// A colour as the key of a set or a map: two keys are equal where all four
/// channels are.
#[derive(Clone, Copy, Debug, PartialEq, Eq, Structural, Hash)]
pub struct ColorHash(pub Color);

impl std::ops::Deref for ColorHash {
    type Target = Color;

    fn deref(&self) -> (color: &Color)
        ensures
            *color == self.0,
    {
        &self.0
    }
}

impl ColorHash {
    /// The colour that the key stands for.
    pub fn color(&self) -> (color: Color)
        ensures
            color == self.0,
    {
        self.0
    }
}

/// The coordinate of a channel value `byte`: `byte / 255 * radius`, rounded
/// to the nearest unit.
pub open spec fn channel_coordinate(byte: int, radius: int) -> int {
    round_div(byte * radius, 255)
}

/// The channel value of a coordinate: `coordinate * 255 / radius`, clamped
/// to 0..=255 and rounded down. With a radius of zero the quotient is
/// infinite: a positive coordinate gives 255 and any other gives 0.
pub open spec fn channel_byte(coordinate: int, radius: int) -> int {
    if radius == 0 {
        if coordinate > 0 {
            255
        } else {
            0
        }
    } else {
        let quotient = if radius > 0 {
            (coordinate * 255) / radius
        } else {
            (-coordinate * 255) / (-radius)
        };
        if quotient < 0 {
            0
        } else if quotient > 255 {
            255
        } else {
            quotient
        }
    }
}

/// The point of a colour; alpha plays no part.
pub open spec fn point_of(color: Color, radius: int) -> IntVector {
    IntVector {
        x: channel_coordinate(color.r as int, radius),
        y: channel_coordinate(color.g as int, radius),
        z: channel_coordinate(color.b as int, radius),
    }
}

/// The opaque colour of a point.
pub open spec fn color_of(point: IntVector, radius: int) -> Color {
    Color {
        r: channel_byte(point.x, radius) as u8,
        g: channel_byte(point.y, radius) as u8,
        b: channel_byte(point.z, radius) as u8,
        a: 255,
    }
}

/// A channel's coordinate lies between zero and the radius.
pub proof fn lemma_channel_coordinate_bound(byte: int, radius: int)
    requires
        0 <= byte <= 255,
    ensures
        radius >= 0 ==> 0 <= channel_coordinate(byte, radius) <= radius,
        radius <= 0 ==> radius <= channel_coordinate(byte, radius) <= 0,
{
    let m = if radius >= 0 {
        radius
    } else {
        -radius
    };
    let n = byte * m;
    assert(0 <= n <= 255 * m) by (nonlinear_arith)
        requires
            n == byte * m,
            0 <= byte <= 255,
            0 <= m,
    ;
    if radius >= 0 {
        assert(byte * radius == n);
    } else {
        assert(byte * radius == -n) by (nonlinear_arith)
            requires
                n == byte * m,
                m == -radius,
        ;
        if n > 0 {
            assert(channel_coordinate(byte, radius) == -((255 + 2 * n) / 510));
        }
    }
}

fn coordinate(byte: u8, radius: i32) -> (c: i32)
    ensures
        c == channel_coordinate(byte as int, radius as int),
{
    proof {
        lemma_channel_coordinate_bound(byte as int, radius as int);
        lemma_mul_bound(byte as int, radius as int, 255, 0x8000_0000);
    }
    let c: i128 = div_round(byte as i128 * radius as i128, 255);
    c as i32
}

fn byte_of(coordinate: i32, radius: i32) -> (b: u8)
    ensures
        b == channel_byte(coordinate as int, radius as int),
{
    if radius == 0 {
        return if coordinate > 0 {
            255
        } else {
            0
        };
    }
    let (n, d): (i64, i64) = if radius > 0 {
        (coordinate as i64 * 255, radius as i64)
    } else {
        (-(coordinate as i64) * 255, -(radius as i64))
    };
    if n < 0 {
        assert(n / d < 0) by (nonlinear_arith)
            requires
                n < 0,
                d > 0,
        ;
        0
    } else {
        let q: i64 = n / d;
        if q > 255 {
            255
        } else {
            q as u8
        }
    }
}

/// Maps a colour into cluster space.
pub fn to_point(color: Color, cluster_radius: i32) -> (point: Vector3)
    ensures
        point@ == point_of(color, cluster_radius as int),
{
    Vector3 {
        x: coordinate(color.r, cluster_radius),
        y: coordinate(color.g, cluster_radius),
        z: coordinate(color.b, cluster_radius),
    }
}

/// Maps a point of cluster space back to an opaque colour; a channel that
/// falls outside 0..=255 is clamped.
pub fn to_color(point: Vector3, cluster_radius: i32) -> (color: Color)
    ensures
        color == color_of(point@, cluster_radius as int),
{
    Color {
        r: byte_of(point.x, cluster_radius),
        g: byte_of(point.y, cluster_radius),
        b: byte_of(point.z, cluster_radius),
        a: 255,
    }
}

/// The radii at which every channel value survives the way to cluster space
/// and back to within one step: all from 125 units up, and four smaller ones.
/// At any other positive radius the cube is too coarse for some value.
pub open spec fn keeps_channels(radius: int) -> bool {
    radius >= 125 || radius == 85 || radius == 102 || radius == 119 || radius == 120
}

/// A channel value mapped into cluster space and back comes out within one
/// step of what went in.
pub proof fn lemma_channel_round_trip(byte: int, radius: int)
    requires
        0 <= byte <= 255,
        keeps_channels(radius),
    ensures
        byte - 1 <= channel_byte(channel_coordinate(byte, radius), radius) <= byte + 1,
{
    let n = byte * radius;
    assert(n >= 0) by (nonlinear_arith)
        requires
            n == byte * radius,
            byte >= 0,
            radius >= 0,
    ;
    let p = (2 * n + 255) / 510;
    assert(channel_coordinate(byte, radius) == p);
    // What rounding to the coordinate lost, in 255ths of a unit.
    let lost = n - 255 * p;
    assert(-127 <= lost <= 127);
    // The loss is a multiple of what the radius shares with 255, so at the
    // small radii it cannot exceed the radius.
    if radius == 85 {
        assert(lost == 85 * (byte - 3 * p));
    } else if radius == 102 {
        assert(lost == 51 * (2 * byte - 5 * p));
    } else if radius == 119 {
        assert(lost == 17 * (7 * byte - 15 * p));
    } else if radius == 120 {
        assert(lost == 15 * (8 * byte - 17 * p));
    } else if radius == 125 {
        assert(lost == 5 * (25 * byte - 51 * p));
    } else if radius == 126 {
        assert(lost == 3 * (42 * byte - 85 * p));
    }
    assert(lost <= radius);
    let q = (p * 255) / radius;
    assert(byte - 1 <= q <= byte + 1) by (nonlinear_arith)
        requires
            q == (p * 255) / radius,
            radius >= 85,
            p * 255 == byte * radius - lost,
            -127 <= lost <= radius,
    ;
    assert(q >= 0) by (nonlinear_arith)
        requires
            q == (p * 255) / radius,
            radius >= 85,
            p >= 0,
    ;
}

/// A colour mapped into cluster space and back comes out opaque and, in
/// each of red, green and blue, within one step of what went in.
pub proof fn lemma_color_round_trip(color: Color, radius: int)
    requires
        keeps_channels(radius),
    ensures
        ({
            let back = color_of(point_of(color, radius), radius);
            &&& color.r - 1 <= back.r <= color.r + 1
            &&& color.g - 1 <= back.g <= color.g + 1
            &&& color.b - 1 <= back.b <= color.b + 1
            &&& back.a == 255
        }),
{
    lemma_channel_round_trip(color.r as int, radius);
    lemma_channel_round_trip(color.g as int, radius);
    lemma_channel_round_trip(color.b as int, radius);
}

} // verus!
