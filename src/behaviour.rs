//! What a node does: a per-frame update of its layout and a per-pixel colour.
use vstd::prelude::*;
use crate::color::Rgba;
use crate::frame::Img;
use crate::geometry::{Point, Rotation, ONE};

verus! {

/// A node's layout. Every value is a fixed-point fraction (`ONE` is `1.0`):
/// `position` and `size` are fractions of the resolution, `scale` multiplies
/// the node's subtree, and `rotation` turns the node about its centre.
#[derive(Clone, Copy, Debug, PartialEq, Eq, Structural)]
pub struct RenderableParams {
    pub scale: Point,
    pub position: Point,
    pub size: Point,
    pub rotation: Rotation,
}

impl RenderableParams {
    /// At the origin, covering the whole frame, unscaled and unrotated.
    pub open spec fn default_spec() -> RenderableParams {
        RenderableParams {
            scale: Point { x: ONE, y: ONE },
            position: Point { x: 0, y: 0 },
            size: Point { x: ONE, y: ONE },
            rotation: Rotation { cos: ONE, sin: 0 },
        }
    }
}

/// The pixels of a frame as the contracts see them, row by row.
pub type FrameView = Seq<Rgba>;

/// The logic attached to a node.
///
/// `update` runs once per frame and may change the node's layout and the
/// behaviour's own state; `shade` gives the colour at a UV coordinate
/// (each in `[0, ONE]`, v growing upward) given the frame painted so far,
/// and changes nothing. An implementation states in `update_spec` how
/// `update` may change it and the layout, and in `shade_spec` what `shade`
/// returns; the scene's contracts are given in their terms.
pub trait Behaviour: Sized {
    /// `next` and `next_params` are what one `update` at `time` may leave
    /// behind, starting from this behaviour and layout `params`.
    spec fn update_spec(&self, params: RenderableParams, time: u64, next: Self, next_params: RenderableParams) -> bool;

    /// The colour that `shade` returns.
    spec fn shade_spec(&self, frame: FrameView, uv: Point, time: u64) -> Rgba;

    fn update(&mut self, params: &mut RenderableParams, time: u64)
        ensures
            old(self).update_spec(*old(params), time, *final(self), *final(params)),
    ;

    fn shade(&self, frame: &Img, uv: Point, time: u64) -> (c: Rgba)
        ensures
            c == self.shade_spec(frame@, uv, time),
    ;

    /// A copy for a frame snapshot, which shades as this one does.
    fn duplicate(&self) -> (r: Self)
        ensures
            forall|frame: FrameView, uv: Point, time: u64|
                #[trigger] r.shade_spec(frame, uv, time) == self.shade_spec(frame, uv, time),
    ;
}

} // verus!
