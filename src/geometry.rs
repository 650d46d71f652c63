//! Fixed-point geometry: points, rotations, the transform that a node
//! inherits from its ancestors, and the mapping from screen pixels to a
//! node's UV coordinates.
//!
//! Fractions (positions, sizes, scales, UV coordinates, the cosine and sine
//! of a rotation) are integers counted in units of `1 / ONE`.
use vstd::prelude::*;

verus! {

/// The fixed-point unit: the integer that stands for `1.0`.
pub const ONE: i64 = 65536;

/// `ONE * ONE`, the unit of a product of two fixed-point values.
pub const ONE_SQUARED: i128 = 4294967296;

/// Bound on an inherited scale (`32768.0`); larger products saturate.
pub const MAX_SCALE: i64 = 2147483648;

/// Bound on a screen coordinate or extent in pixels; larger values saturate.
pub const MAX_COORD: i64 = 1099511627776;

/// A pair of integers: a pixel position, an extent, or a fixed-point pair.
#[derive(Clone, Copy, Debug, PartialEq, Eq, Structural)]
pub struct Point {
    pub x: i64,
    pub y: i64,
}

impl Point {
    pub fn new(x: i64, y: i64) -> (p: Point)
        ensures
            p == (Point { x, y }),
    {
        Point { x, y }
    }

    /// Applies `func` to the first coordinate.
    pub fn map_x<F: Fn(i64) -> i64>(self, func: F) -> (p: Point)
        requires
            func.requires((self.x,)),
        ensures
            func.ensures((self.x,), p.x),
            p.y == self.y,
    {
        Point { x: func(self.x), y: self.y }
    }

    /// Applies `func` to the second coordinate.
    pub fn map_y<F: Fn(i64) -> i64>(self, func: F) -> (p: Point)
        requires
            func.requires((self.y,)),
        ensures
            p.x == self.x,
            func.ensures((self.y,), p.y),
    {
        Point { x: self.x, y: func(self.y) }
    }

    /// Applies `func` to both coordinates.
    pub fn map_both<F: Fn(i64) -> i64>(self, func: F) -> (p: Point)
        requires
            func.requires((self.x,)),
            func.requires((self.y,)),
        ensures
            func.ensures((self.x,), p.x),
            func.ensures((self.y,), p.y),
    {
        Point { x: func(self.x), y: func(self.y) }
    }

    /// Adds `other` coordinate by coordinate.
    pub fn add_assign(&mut self, other: Point)
        requires
            i64::MIN <= old(self).x + other.x <= i64::MAX,
            i64::MIN <= old(self).y + other.y <= i64::MAX,
        ensures
            *final(self) == (Point { x: (old(self).x + other.x) as i64, y: (old(self).y + other.y) as i64 }),
    {
        self.x = self.x + other.x;
        self.y = self.y + other.y;
    }

    /// Subtracts `other` coordinate by coordinate.
    pub fn sub_assign(&mut self, other: Point)
        requires
            i64::MIN <= old(self).x - other.x <= i64::MAX,
            i64::MIN <= old(self).y - other.y <= i64::MAX,
        ensures
            *final(self) == (Point { x: (old(self).x - other.x) as i64, y: (old(self).y - other.y) as i64 }),
    {
        self.x = self.x - other.x;
        self.y = self.y - other.y;
    }

    /// `x * x + y * y`, exactly.
    pub fn length_squared(self) -> (r: u128)
        ensures
            r == self.x * self.x + self.y * self.y,
    {
        let ax: u128 = if self.x < 0 {
            (-(self.x as i128)) as u128
        } else {
            self.x as u128
        };
        let ay: u128 = if self.y < 0 {
            (-(self.y as i128)) as u128
        } else {
            self.y as u128
        };
        assert(ax * ax <= 0x4000_0000_0000_0000_0000_0000_0000_0000) by (nonlinear_arith)
            requires
                ax <= 0x8000_0000_0000_0000,
        ;
        assert(ay * ay <= 0x4000_0000_0000_0000_0000_0000_0000_0000) by (nonlinear_arith)
            requires
                ay <= 0x8000_0000_0000_0000,
        ;
        assert(ax * ax == self.x * self.x) by (nonlinear_arith)
            requires
                ax == self.x || ax == -self.x,
        ;
        assert(ay * ay == self.y * self.y) by (nonlinear_arith)
            requires
                ay == self.y || ay == -self.y,
        ;
        ax * ax + ay * ay
    }
}

/// A rotation, given by its cosine and sine in fixed point.
#[derive(Clone, Copy, Debug, PartialEq, Eq, Structural)]
pub struct Rotation {
    pub cos: i64,
    pub sin: i64,
}

/// No rotation at all: what a whole number of turns comes to.
pub open spec fn identity_spec() -> Rotation {
    Rotation { cos: ONE, sin: 0 }
}

impl Rotation {
    pub fn new(cos: i64, sin: i64) -> (r: Rotation)
        ensures
            r == (Rotation { cos, sin }),
    {
        Rotation { cos, sin }
    }

    pub fn identity() -> (r: Rotation)
        ensures
            r == identity_spec(),
    {
        Rotation { cos: ONE, sin: 0 }
    }

    pub fn is_identity(&self) -> (b: bool)
        ensures
            b == (*self == identity_spec()),
    {
        self.cos == ONE && self.sin == 0
    }
}

/// `v` limited to `[lo, hi]`.
pub open spec fn clamp_spec(v: int, lo: int, hi: int) -> int {
    if v < lo {
        lo
    } else if v > hi {
        hi
    } else {
        v
    }
}

/// `n / d` rounded toward zero.
pub open spec fn trunc_div(n: int, d: int) -> int {
    if n >= 0 {
        n / d
    } else {
        -((-n) / d)
    }
}

/// `n / d` rounded to the nearest integer, halves away from zero.
pub open spec fn round_div(n: int, d: int) -> int {
    if n >= 0 {
        (n + d / 2) / d
    } else {
        -((-n + d / 2) / d)
    }
}

/// The scale handed to a node's children: the inherited scale times the
/// node's own, saturated.
pub open spec fn next_scale_spec(residual: int, own: int) -> int {
    clamp_spec(trunc_div(residual * own, ONE as int), -MAX_SCALE, MAX_SCALE as int)
}

/// A node's anchor in pixels: the inherited offset plus its position, a
/// fraction of the resolution scaled by the inherited scale only, rounded.
pub open spec fn next_offset_spec(residual: int, position: int, resolution: int, scale: int) -> int {
    clamp_spec(
        residual + round_div(position * resolution * scale, ONE * ONE),
        -MAX_COORD,
        MAX_COORD as int,
    )
}

/// A node's extent in pixels: its size, a fraction of the resolution, times
/// the scale it hands to its children, rounded toward zero.
pub open spec fn extent_spec(size: int, resolution: int, scale: int) -> int {
    clamp_spec(trunc_div(size * resolution * scale, ONE * ONE), -MAX_COORD, MAX_COORD as int)
}

pub fn clamp_i128(v: i128, lo: i64, hi: i64) -> (r: i64)
    requires
        lo <= hi,
    ensures
        r == clamp_spec(v as int, lo as int, hi as int),
{
    if v < lo as i128 {
        lo
    } else if v > hi as i128 {
        hi
    } else {
        v as i64
    }
}

/// `n / d` rounded toward zero.
pub fn trunc_div_i128(n: i128, d: i128) -> (r: i128)
    requires
        d > 0,
        n > i128::MIN,
    ensures
        r == trunc_div(n as int, d as int),
{
    if n >= 0 {
        n / d
    } else {
        let m: i128 = -n;
        assert(m / d <= m) by (nonlinear_arith)
            requires
                m >= 0,
                d > 0,
        ;
        -(m / d)
    }
}

/// `n / d` rounded to the nearest integer, halves away from zero.
pub fn round_div_i128(n: i128, d: i128) -> (r: i128)
    requires
        0 < d <= 0x1_0000_0000_0000_0000,
        -0x4000_0000_0000_0000_0000_0000_0000_0000 <= n <= 0x4000_0000_0000_0000_0000_0000_0000_0000,
    ensures
        r == round_div(n as int, d as int),
{
    if n >= 0 {
        (n + d / 2) / d
    } else {
        let m: i128 = -n + d / 2;
        assert(m / d <= m) by (nonlinear_arith)
            requires
                m >= 0,
                d > 0,
        ;
        -(m / d)
    }
}

proof fn lemma_mul_bound(a: int, b: int, ba: int, bb: int)
    requires
        -ba <= a <= ba,
        -bb <= b <= bb,
    ensures
        -(ba * bb) <= a * b <= ba * bb,
{
    assert(-(ba * bb) <= a * b <= ba * bb) by (nonlinear_arith)
        requires
            -ba <= a <= ba,
            -bb <= b <= bb,
    ;
}

/// The scale handed to a node's children.
pub fn next_scale(residual: i64, own: i64) -> (r: i64)
    requires
        -MAX_SCALE <= residual <= MAX_SCALE,
    ensures
        r == next_scale_spec(residual as int, own as int),
        -MAX_SCALE <= r <= MAX_SCALE,
{
    proof {
        lemma_mul_bound(residual as int, own as int, MAX_SCALE as int, 0x8000_0000_0000_0000);
    }
    let p: i128 = residual as i128 * own as i128;
    clamp_i128(trunc_div_i128(p, ONE as i128), -MAX_SCALE, MAX_SCALE)
}

/// A node's anchor on one axis.
pub fn next_offset(residual: i64, position: i64, resolution: u32, scale: i64) -> (r: i64)
    requires
        -MAX_COORD <= residual <= MAX_COORD,
        -MAX_SCALE <= scale <= MAX_SCALE,
    ensures
        r == next_offset_spec(residual as int, position as int, resolution as int, scale as int),
        -MAX_COORD <= r <= MAX_COORD,
{
    proof {
        lemma_mul_bound(position as int, resolution as int, 0x8000_0000_0000_0000, 0x1_0000_0000);
        lemma_mul_bound(
            position * resolution,
            scale as int,
            0x8000_0000_0000_0000_0000_0000,
            MAX_SCALE as int,
        );
    }
    let p: i128 = position as i128 * resolution as i128 * scale as i128;
    let d: i128 = round_div_i128(p, ONE_SQUARED);
    assert(-0x8000_0000_0000_0000_0000_0000 <= d <= 0x8000_0000_0000_0000_0000_0000) by (nonlinear_arith)
        requires
            d == round_div(p as int, 0x1_0000_0000),
            -0x4000_0000_0000_0000_0000_0000_0000_0000 <= p <= 0x4000_0000_0000_0000_0000_0000_0000_0000,
    ;
    clamp_i128(residual as i128 + d, -MAX_COORD, MAX_COORD)
}

/// A node's extent on one axis.
pub fn extent(size: i64, resolution: u32, scale: i64) -> (r: i64)
    requires
        -MAX_SCALE <= scale <= MAX_SCALE,
    ensures
        r == extent_spec(size as int, resolution as int, scale as int),
        -MAX_COORD <= r <= MAX_COORD,
{
    proof {
        lemma_mul_bound(size as int, resolution as int, 0x8000_0000_0000_0000, 0x1_0000_0000);
        lemma_mul_bound(
            size * resolution,
            scale as int,
            0x8000_0000_0000_0000_0000_0000,
            MAX_SCALE as int,
        );
    }
    let p: i128 = size as i128 * resolution as i128 * scale as i128;
    clamp_i128(trunc_div_i128(p, ONE_SQUARED), -MAX_COORD, MAX_COORD)
}

} // verus!
