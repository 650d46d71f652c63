//! RGBA pixels and the fixed blend operator used when a node is painted
//! over what the frame already holds.
use vstd::prelude::*;

verus! {

/// One pixel: red, green, blue and alpha, each a byte.
#[derive(Clone, Copy, Debug, PartialEq, Eq, Structural)]
pub struct Rgba {
    pub r: u8,
    pub g: u8,
    pub b: u8,
    pub a: u8,
}

/// The fully transparent black pixel that every frame starts from.
pub open spec fn transparent_spec() -> Rgba {
    Rgba { r: 0, g: 0, b: 0, a: 0 }
}

/// One colour channel of the blend: `round(s * a / 255 + d * (255 - a) / 255)`.
///
/// The sum is `(s * a + d * (255 - a)) / 255`; since 255 is odd the quotient is
/// never exactly half way between two integers, so adding 127 before the
/// floor division rounds to the nearest integer.
pub open spec fn mix_spec(s: u8, d: u8, a: u8) -> int {
    (s * a + d * (255 - a) + 127) / 255
}

/// The alpha of the blend: `a + da * (255 - a) / 255`, saturated at 255.
pub open spec fn alpha_spec(a: u8, da: u8) -> int {
    let sum = a + (da * (255 - a)) / 255;
    if sum > 255 {
        255
    } else {
        sum
    }
}

/// The pixel that results from painting `src` over `dst`.
pub open spec fn composite_spec(src: Rgba, dst: Rgba) -> Rgba {
    Rgba {
        r: mix_spec(src.r, dst.r, src.a) as u8,
        g: mix_spec(src.g, dst.g, src.a) as u8,
        b: mix_spec(src.b, dst.b, src.a) as u8,
        a: alpha_spec(src.a, dst.a) as u8,
    }
}

impl Rgba {
    pub fn new(r: u8, g: u8, b: u8, a: u8) -> (c: Rgba)
        ensures
            c == (Rgba { r, g, b, a }),
    {
        Rgba { r, g, b, a }
    }

    pub fn transparent() -> (c: Rgba)
        ensures
            c == transparent_spec(),
    {
        Rgba { r: 0, g: 0, b: 0, a: 0 }
    }
}

proof fn lemma_mix_bounds(s: u8, d: u8, a: u8)
    ensures
        0 <= s * a + d * (255 - a) <= 255 * 255,
{
    assert(s * a <= 255 * a) by (nonlinear_arith)
        requires
            s <= 255,
            0 <= a,
    ;
    assert(d * (255 - a) <= 255 * (255 - a)) by (nonlinear_arith)
        requires
            d <= 255,
            0 <= 255 - a,
    ;
    assert(0 <= s * a) by (nonlinear_arith)
        requires
            0 <= s,
            0 <= a,
    ;
    assert(0 <= d * (255 - a)) by (nonlinear_arith)
        requires
            0 <= d,
            0 <= 255 - a,
    ;
}

/// One channel of the blend, rounded to the nearest integer.
pub fn mix_channel(s: u8, d: u8, a: u8) -> (r: u8)
    ensures
        r as int == mix_spec(s, d, a),
{
    proof {
        lemma_mix_bounds(s, d, a);
    }
    let n: u32 = s as u32 * a as u32 + d as u32 * (255 - a as u32) + 127;
    (n / 255) as u8
}

/// The alpha channel of the blend.
pub fn mix_alpha(a: u8, da: u8) -> (r: u8)
    ensures
        r as int == alpha_spec(a, da),
{
    proof {
        lemma_mix_bounds(da, 0, (255 - a) as u8);
    }
    let sum: u32 = a as u32 + (da as u32 * (255 - a as u32)) / 255;
    if sum > 255 {
        255
    } else {
        sum as u8
    }
}

/// Paints `src` over `dst` with the blend operator: each colour channel is
/// weighted by the source alpha and rounded, and the alpha grows by the
/// destination alpha scaled by the source's transparency.
pub fn composite(src: Rgba, dst: Rgba) -> (r: Rgba)
    ensures
        r == composite_spec(src, dst),
{
    Rgba {
        r: mix_channel(src.r, dst.r, src.a),
        g: mix_channel(src.g, dst.g, src.a),
        b: mix_channel(src.b, dst.b, src.a),
        a: mix_alpha(src.a, dst.a),
    }
}

/// An opaque source hides the destination completely.
pub proof fn lemma_opaque_composite(src: Rgba, dst: Rgba)
    requires
        src.a == 255,
    ensures
        composite_spec(src, dst) == src,
{
    assert((src.r * 255 + dst.r * 0 + 127) / 255 == src.r);
    assert((src.g * 255 + dst.g * 0 + 127) / 255 == src.g);
    assert((src.b * 255 + dst.b * 0 + 127) / 255 == src.b);
}

} // verus!
