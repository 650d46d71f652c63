//! Turning a finished frame into the planar YUV input of the video encoder.
use vstd::prelude::*;
use openh264::formats::{YUVBuffer, YUVSource};
use crate::color::Rgba;
use crate::frame::Img;

verus! {

/// The pixels as packed RGB bytes, row by row; alpha is dropped since the
/// video has none.
pub open spec fn rgb_bytes_spec(pixels: Seq<Rgba>) -> Seq<u8> {
    Seq::new(
        3 * pixels.len(),
        |k: int|
            {
                let p = pixels[k / 3];
                if k % 3 == 0 {
                    p.r
                } else if k % 3 == 1 {
                    p.g
                } else {
                    p.b
                }
            },
    )
}

/// The YUV 4:2:0 planes (Y, then U, then V) that openh264 computes from
/// packed RGB rows of the given size.
pub uninterp spec fn yuv420_of(width: nat, height: nat, rgb: Seq<u8>) -> Seq<u8>;

/// Relies on openh264's `YUVBuffer::with_rgb`, which converts packed RGB rows
/// to planar YUV 4:2:0 and panics unless both sides are even and there are
/// three bytes per pixel; its Y, U and V planes hold `w * h`, `w * h / 4`
/// and `w * h / 4` bytes.
#[verifier::external_body]
fn yuv_from_rgb(width: usize, height: usize, rgb: &Vec<u8>) -> (r: Vec<u8>)
    requires
        width % 2 == 0,
        height % 2 == 0,
        rgb@.len() == width * height * 3,
    ensures
        r@ == yuv420_of(width as nat, height as nat, rgb@),
        r@.len() == width * height * 3 / 2,
{
    let yuv = YUVBuffer::with_rgb(width, height, rgb.as_slice());
    let mut out = yuv.y().to_vec();
    out.extend_from_slice(yuv.u());
    out.extend_from_slice(yuv.v());
    out
}

/// The frame's pixels as packed RGB bytes.
pub fn rgba_to_rgb(image: &Img) -> (r: Vec<u8>)
    requires
        image.wf(),
        image@.len() * 3 <= usize::MAX,
    ensures
        r@ == rgb_bytes_spec(image@),
{
    let pixels = image.pixels();
    let mut out: Vec<u8> = Vec::new();
    let mut i: usize = 0;
    while i < pixels.len()
        invariant
            pixels@ == image@,
            pixels@.len() * 3 <= usize::MAX,
            i <= pixels@.len(),
            out@ == rgb_bytes_spec(pixels@.take(i as int)),
        decreases pixels@.len() - i,
    {
        let p = pixels[i];
        out.push(p.r);
        out.push(p.g);
        out.push(p.b);
        i = i + 1;
        proof {
            let t = pixels@.take(i as int);
            assert forall|k: int| 0 <= k < 3 * t.len() implies #[trigger] out@[k] == rgb_bytes_spec(t)[k] by {
                if k < 3 * (i - 1) {
                    assert(pixels@.take(i - 1)[k / 3] == t[k / 3]);
                } else {
                    assert(k / 3 == i - 1);
                }
            }
            assert(out@ =~= rgb_bytes_spec(t));
        }
    }
    assert(pixels@.take(i as int) =~= pixels@);
    out
}

/// The frame in the encoder's planar YUV 4:2:0 format, or `None` when a side
/// of the frame is odd, which 4:2:0 cannot hold.
pub fn rgba_to_yuv(image: &Img) -> (r: Option<Vec<u8>>)
    requires
        image.wf(),
        image@.len() * 3 <= usize::MAX,
    ensures
        r is Some <==> (image.spec_width() % 2 == 0 && image.spec_height() % 2 == 0),
        r matches Some(v) ==> v@ == yuv420_of(
            image.spec_width(),
            image.spec_height(),
            rgb_bytes_spec(image@),
        ),
{
    let w = image.width();
    let h = image.height();
    if w % 2 != 0 || h % 2 != 0 {
        return None;
    }
    let rgb = rgba_to_rgb(image);
    assert(rgb@.len() == w * h * 3) by (nonlinear_arith)
        requires
            rgb@.len() == 3 * image@.len(),
            image@.len() == w * h,
    ;
    Some(yuv_from_rgb(w, h, &rgb))
}

} // verus!
