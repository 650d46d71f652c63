//! A node's rectangle on screen and the mapping from the pixels inside it to
//! the node's UV coordinates, rotation included.
use vstd::prelude::*;
use crate::geometry::{Point, Rotation, identity_spec, ONE, MAX_COORD};

verus! {

/// A node's rectangle on screen before it is cropped to the frame:
/// `[left, left + width) x [top, top + height)`, in pixels.
#[derive(Clone, Copy, Debug, PartialEq, Eq, Structural)]
pub struct ScreenRect {
    pub left: i64,
    pub top: i64,
    pub width: i64,
    pub height: i64,
}

impl ScreenRect {
    /// Every field is within the saturation bound.
    pub open spec fn wf(&self) -> bool {
        &&& -MAX_COORD <= self.left <= MAX_COORD
        &&& -MAX_COORD <= self.top <= MAX_COORD
        &&& -MAX_COORD <= self.width <= MAX_COORD
        &&& -MAX_COORD <= self.height <= MAX_COORD
    }

    /// The pixel lies in the unclamped rectangle.
    pub open spec fn contains(&self, px: int, py: int) -> bool {
        &&& self.left <= px < self.left + self.width
        &&& self.top <= py < self.top + self.height
    }
}

/// Twice the offset of a pixel from the rectangle's centre, y pointing up.
pub open spec fn centred_x(r: ScreenRect, px: int) -> int {
    2 * (px - r.left) - r.width
}

pub open spec fn centred_y(r: ScreenRect, py: int) -> int {
    r.height - 2 * (py - r.top)
}

/// The centred offset turned back by the node's rotation (scaled by `ONE`).
pub open spec fn turned_x(r: ScreenRect, rot: Rotation, px: int, py: int) -> int {
    centred_x(r, px) * rot.cos + centred_y(r, py) * rot.sin
}

pub open spec fn turned_y(r: ScreenRect, rot: Rotation, px: int, py: int) -> int {
    centred_y(r, py) * rot.cos - centred_x(r, px) * rot.sin
}

/// The turned pixel still falls inside the node's box, so both UV
/// coordinates lie in `[0, 1]`.
pub open spec fn inside_spec(r: ScreenRect, rot: Rotation, px: int, py: int) -> bool {
    &&& -(r.width * ONE) <= turned_x(r, rot, px, py) <= r.width * ONE
    &&& -(r.height * ONE) <= turned_y(r, rot, px, py) <= r.height * ONE
}

/// UV of a pixel of a rotated node: the turned offset, with the aspect
/// correction undone, shifted back to `[0, ONE]`.
pub open spec fn rotated_uv_spec(r: ScreenRect, rot: Rotation, px: int, py: int) -> Point {
    Point {
        x: ((turned_x(r, rot, px, py) + r.width * ONE) / (2 * (r.width as int))) as i64,
        y: ((turned_y(r, rot, px, py) + r.height * ONE) / (2 * (r.height as int))) as i64,
    }
}

/// UV of a pixel of an unrotated node: a linear map of the unclamped
/// rectangle onto `[0, ONE]`, with v flipped so that it grows upward.
pub open spec fn to_uv_spec(r: ScreenRect, px: int, py: int) -> Point {
    Point {
        x: ((px - r.left) * ONE / (r.width as int)) as i64,
        y: ((r.height - (py - r.top)) * ONE / (r.height as int)) as i64,
    }
}

/// The UV at which the node is shaded at this pixel, or `None` where the
/// rotated box leaves the pixel uncovered.
pub open spec fn pixel_uv_spec(r: ScreenRect, rot: Rotation, px: int, py: int) -> Option<Point> {
    if rot == identity_spec() {
        Some(to_uv_spec(r, px, py))
    } else if inside_spec(r, rot, px, py) {
        Some(rotated_uv_spec(r, rot, px, py))
    } else {
        None
    }
}

/// The rectangle from `top_left` (inclusive) to `bottom_right` (exclusive).
pub open spec fn rect_between(top_left: Point, bottom_right: Point) -> ScreenRect {
    ScreenRect {
        left: top_left.x,
        top: top_left.y,
        width: (bottom_right.x - top_left.x) as i64,
        height: (bottom_right.y - top_left.y) as i64,
    }
}

proof fn lemma_div_in_unit(n: int, d: int)
    requires
        0 <= n <= d * ONE,
        d > 0,
    ensures
        0 <= n / d <= ONE,
{
    assert(0 <= n / d <= ONE) by (nonlinear_arith)
        requires
            0 <= n <= d * 65536,
            d > 0,
    ;
}

/// Maps `point` into `[0, ONE] x [0, ONE]` against the rectangle from
/// `top_left` (inclusive) to `bottom_right` (exclusive), flipping v.
pub fn to_uv(top_left: Point, bottom_right: Point, point: Point) -> (uv: Point)
    requires
        -MAX_COORD <= top_left.x <= MAX_COORD,
        -MAX_COORD <= top_left.y <= MAX_COORD,
        top_left.x <= point.x < bottom_right.x <= top_left.x + MAX_COORD,
        top_left.y <= point.y < bottom_right.y <= top_left.y + MAX_COORD,
    ensures
        uv == to_uv_spec(rect_between(top_left, bottom_right), point.x as int, point.y as int),
        0 <= uv.x <= ONE,
        0 <= uv.y <= ONE,
{
    let w: i128 = bottom_right.x as i128 - top_left.x as i128;
    let h: i128 = bottom_right.y as i128 - top_left.y as i128;
    let dx: i128 = point.x as i128 - top_left.x as i128;
    let dy: i128 = h - (point.y as i128 - top_left.y as i128);
    proof {
        assert(0 <= dx * ONE <= w * ONE) by (nonlinear_arith)
            requires
                0 <= dx < w,
        ;
        assert(0 <= dy * ONE <= h * ONE) by (nonlinear_arith)
            requires
                0 < dy <= h,
        ;
        assert(w * ONE <= 0x100_0000_0000 * 0x1_0000) by (nonlinear_arith)
            requires
                w <= 0x100_0000_0000,
        ;
        assert(h * ONE <= 0x100_0000_0000 * 0x1_0000) by (nonlinear_arith)
            requires
                h <= 0x100_0000_0000,
        ;
        lemma_div_in_unit(dx * ONE, w as int);
        lemma_div_in_unit(dy * ONE, h as int);
    }
    let u: i128 = dx * (ONE as i128) / w;
    let v: i128 = dy * (ONE as i128) / h;
    Point { x: u as i64, y: v as i64 }
}

/// The UV at which a node is shaded at pixel `(px, py)` of its rectangle, or
/// `None` where its rotated box does not cover the pixel.
pub fn pixel_uv(r: ScreenRect, rot: Rotation, px: i64, py: i64) -> (uv: Option<Point>)
    requires
        r.wf(),
        r.contains(px as int, py as int),
    ensures
        uv == pixel_uv_spec(r, rot, px as int, py as int),
        uv matches Some(p) ==> 0 <= p.x <= ONE && 0 <= p.y <= ONE,
{
    if rot.is_identity() {
        return Some(
            to_uv(
                Point { x: r.left, y: r.top },
                Point { x: r.left + r.width, y: r.top + r.height },
                Point { x: px, y: py },
            ),
        );
    }
    let cx: i128 = 2 * (px as i128 - r.left as i128) - r.width as i128;
    let cy: i128 = r.height as i128 - 2 * (py as i128 - r.top as i128);
    proof {
        assert(-0x400_0000_0000 <= cx <= 0x400_0000_0000);
        assert(-0x400_0000_0000 <= cy <= 0x400_0000_0000);
        assert(-0x200_0000_0000_0000_0000_0000_0000 <= cx * rot.cos <= 0x200_0000_0000_0000_0000_0000_0000) by (nonlinear_arith)
            requires
                -0x400_0000_0000 <= cx <= 0x400_0000_0000,
                -0x8000_0000_0000_0000 <= rot.cos <= 0x8000_0000_0000_0000,
        ;
        assert(-0x200_0000_0000_0000_0000_0000_0000 <= cy * rot.sin <= 0x200_0000_0000_0000_0000_0000_0000) by (nonlinear_arith)
            requires
                -0x400_0000_0000 <= cy <= 0x400_0000_0000,
                -0x8000_0000_0000_0000 <= rot.sin <= 0x8000_0000_0000_0000,
        ;
        assert(-0x200_0000_0000_0000_0000_0000_0000 <= cy * rot.cos <= 0x200_0000_0000_0000_0000_0000_0000) by (nonlinear_arith)
            requires
                -0x400_0000_0000 <= cy <= 0x400_0000_0000,
                -0x8000_0000_0000_0000 <= rot.cos <= 0x8000_0000_0000_0000,
        ;
        assert(-0x200_0000_0000_0000_0000_0000_0000 <= cx * rot.sin <= 0x200_0000_0000_0000_0000_0000_0000) by (nonlinear_arith)
            requires
                -0x400_0000_0000 <= cx <= 0x400_0000_0000,
                -0x8000_0000_0000_0000 <= rot.sin <= 0x8000_0000_0000_0000,
        ;
    }
    let tx: i128 = cx * rot.cos as i128 + cy * rot.sin as i128;
    let ty: i128 = cy * rot.cos as i128 - cx * rot.sin as i128;
    proof {
        assert(-0x100_0000_0000_0000 <= r.width * ONE <= 0x100_0000_0000_0000) by (nonlinear_arith)
            requires
                -MAX_COORD <= r.width <= MAX_COORD,
        ;
        assert(-0x100_0000_0000_0000 <= r.height * ONE <= 0x100_0000_0000_0000) by (nonlinear_arith)
            requires
                -MAX_COORD <= r.height <= MAX_COORD,
        ;
    }
    let wo: i128 = r.width as i128 * ONE as i128;
    let ho: i128 = r.height as i128 * ONE as i128;
    if -wo <= tx && tx <= wo && -ho <= ty && ty <= ho {
        proof {
            lemma_div_in_unit(tx + wo, 2 * r.width);
            lemma_div_in_unit(ty + ho, 2 * r.height);
        }
        let u: i128 = (tx + wo) / (2 * r.width as i128);
        let v: i128 = (ty + ho) / (2 * r.height as i128);
        Some(Point { x: u as i64, y: v as i64 })
    } else {
        None
    }
}

/// A whole number of turns leaves a node exactly as it was: with the
/// identity rotation every pixel of the rectangle is covered, and the
/// rotated UV mapping agrees with the plain one.
pub proof fn lemma_full_turn_is_unrotated(r: ScreenRect, px: int, py: int)
    requires
        r.wf(),
        r.contains(px, py),
    ensures
        inside_spec(r, identity_spec(), px, py),
        rotated_uv_spec(r, identity_spec(), px, py) == to_uv_spec(r, px, py),
        pixel_uv_spec(r, identity_spec(), px, py) == Some(to_uv_spec(r, px, py)),
{
    let rot = identity_spec();
    let w = r.width as int;
    let h = r.height as int;
    let cx = centred_x(r, px);
    let cy = centred_y(r, py);
    assert(turned_x(r, rot, px, py) == cx * ONE) by (nonlinear_arith)
        requires
            turned_x(r, rot, px, py) == cx * rot.cos + cy * rot.sin,
            rot.cos == ONE,
            rot.sin == 0,
    ;
    assert(turned_y(r, rot, px, py) == cy * ONE) by (nonlinear_arith)
        requires
            turned_y(r, rot, px, py) == cy * rot.cos - cx * rot.sin,
            rot.cos == ONE,
            rot.sin == 0,
    ;
    assert(-(w * ONE) <= cx * ONE <= w * ONE) by (nonlinear_arith)
        requires
            -w <= cx <= w,
    ;
    assert(-(h * ONE) <= cy * ONE <= h * ONE) by (nonlinear_arith)
        requires
            -h <= cy <= h,
    ;
    let nx = (px - r.left) * ONE;
    let ny = (h - (py - r.top)) * ONE;
    assert(cx * ONE + w * ONE == 2 * nx) by (nonlinear_arith)
        requires
            cx == 2 * (px - r.left) - w,
            nx == (px - r.left) * ONE,
    ;
    assert(cy * ONE + h * ONE == 2 * ny) by (nonlinear_arith)
        requires
            cy == h - 2 * (py - r.top),
            ny == (h - (py - r.top)) * ONE,
    ;
    lemma_halve_quotient(nx, w);
    lemma_halve_quotient(ny, h);
}

proof fn lemma_halve_quotient(n: int, d: int)
    requires
        d > 0,
    ensures
        (2 * n) / (2 * d) == n / d,
{
    vstd::arithmetic::div_mod::lemma_fundamental_div_mod(n, d);
    let q = n / d;
    let m = n % d;
    assert(2 * n == q * (2 * d) + 2 * m) by (nonlinear_arith)
        requires
            n == d * q + m,
    ;
    vstd::arithmetic::div_mod::lemma_fundamental_div_mod_converse(2 * n, 2 * d, q, 2 * m);
}

} // verus!
