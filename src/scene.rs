//! The scene: an arena of nodes addressed by index, the roots drawn into
//! every frame, and the output settings.
use vstd::prelude::*;
use crate::behaviour::{Behaviour, FrameView, RenderableParams};
use crate::errors::{RenderableBuilderError, SceneBuilderError};
use crate::color::{Rgba, composite, composite_spec, transparent_spec};
use crate::frame::{Img, blank_pixels};
use crate::geometry::{
    Point, Rotation, ONE, MAX_COORD, MAX_SCALE, next_scale_spec, next_offset_spec, extent_spec,
    round_div, trunc_div, next_scale, next_offset, extent,
};
use crate::raster::{ScreenRect, pixel_uv_spec, pixel_uv};
use vstd::arithmetic::div_mod::{lemma_fundamental_div_mod, lemma_fundamental_div_mod_converse};

verus! {

/// How the encoder spends its bit budget.
#[derive(Clone, Copy, Debug, PartialEq, Eq, Structural)]
pub enum RateControlMode {
    Quality,
    Bitrate,
    Bufferbased,
    Timestamp,
    BitrateModePostSkip,
    Off,
}

/// One node: its layout, its behaviour and the indices of its children.
pub struct Renderable<B> {
    pub params: RenderableParams,
    pub behaviour: B,
    pub children: Vec<usize>,
}

impl<B> Renderable<B> {
    pub open spec fn children_spec(&self) -> Seq<usize> {
        self.children@
    }

    pub fn builder() -> (b: RenderableBuilder<B>)
        ensures
            b.position == Some(Point { x: 0, y: 0 }),
            b.size == Some(Point { x: ONE, y: ONE }),
            b.scale == (Point { x: ONE, y: ONE }),
            b.rotation == (Rotation { cos: ONE, sin: 0 }),
            b.behaviour.is_none(),
    {
        RenderableBuilder {
            position: Some(Point { x: 0, y: 0 }),
            size: Some(Point { x: ONE, y: ONE }),
            scale: Point { x: ONE, y: ONE },
            rotation: Rotation { cos: ONE, sin: 0 },
            behaviour: None,
        }
    }

    /// A node with no children yet.
    pub fn new(params: RenderableParams, behaviour: B) -> (r: Renderable<B>)
        ensures
            r.params == params,
            r.behaviour == behaviour,
            r.children_spec() == Seq::<usize>::empty(),
    {
        Renderable { params, behaviour, children: Vec::new() }
    }

    /// The indices of this node's children, in the order they were added.
    pub fn get_children(&self) -> (c: &Vec<usize>)
        ensures
            c@ == self.children_spec(),
    {
        &self.children
    }

    /// The behaviour's colour at `uv`, given the frame painted so far.
    pub fn run_shader(&self, current_frame: &Img, uv_coords: Point, time: u64) -> (c: Rgba)
        where
            B: Behaviour,
        ensures
            c == self.behaviour.shade_spec(current_frame@, uv_coords, time),
    {
        self.behaviour.shade(current_frame, uv_coords, time)
    }

    /// Runs the behaviour's per-frame update on this node's layout.
    pub fn run_behaviour(&mut self, time: u64)
        where
            B: Behaviour,
        ensures
            final(self).children == old(self).children,
            old(self).behaviour.update_spec(old(self).params, time, final(self).behaviour, final(self).params),
    {
        self.behaviour.update(&mut self.params, time);
    }
}

/// Collects a node's options; `build` fails while the behaviour is unset.
pub struct RenderableBuilder<B> {
    pub position: Option<Point>,
    pub scale: Point,
    pub size: Option<Point>,
    pub rotation: Rotation,
    pub behaviour: Option<B>,
}

impl<B> RenderableBuilder<B> {
    pub fn with_position(&mut self, position: Point) -> (r: &mut Self)
        ensures
            *r == (RenderableBuilder { position: Some(position), ..*old(self) }),
            *final(self) == *final(r),
    {
        self.position = Some(position);
        self
    }

    pub fn with_size(&mut self, size: Point) -> (r: &mut Self)
        ensures
            *r == (RenderableBuilder { size: Some(size), ..*old(self) }),
            *final(self) == *final(r),
    {
        self.size = Some(size);
        self
    }

    pub fn with_scale(&mut self, scale: Point) -> (r: &mut Self)
        ensures
            *r == (RenderableBuilder { scale, ..*old(self) }),
            *final(self) == *final(r),
    {
        self.scale = scale;
        self
    }

    pub fn with_rotation(&mut self, rotation: Rotation) -> (r: &mut Self)
        ensures
            *r == (RenderableBuilder { rotation, ..*old(self) }),
            *final(self) == *final(r),
    {
        self.rotation = rotation;
        self
    }

    pub fn with_behaviour(&mut self, behaviour: B) -> (r: &mut Self)
        ensures
            *r == (RenderableBuilder { behaviour: Some(behaviour), ..*old(self) }),
            *final(self) == *final(r),
    {
        self.behaviour = Some(behaviour);
        self
    }

    /// The node, once position, size and behaviour are all set; the
    /// behaviour is moved out of the builder.
    pub fn build(&mut self) -> (r: Result<Renderable<B>, RenderableBuilderError>)
        ensures
            (old(self).position.is_none() || old(self).size.is_none() || old(self).behaviour.is_none())
                <==> r.is_err(),
            r matches Ok(n) ==> {
                &&& n.params == (RenderableParams {
                    scale: old(self).scale,
                    position: old(self).position.unwrap(),
                    size: old(self).size.unwrap(),
                    rotation: old(self).rotation,
                })
                &&& Some(n.behaviour) == old(self).behaviour
                &&& n.children_spec() == Seq::<usize>::empty()
                &&& final(self).behaviour.is_none()
            },
            r.is_err() ==> *final(self) == *old(self),
            final(self).position == old(self).position,
            final(self).size == old(self).size,
            final(self).scale == old(self).scale,
            final(self).rotation == old(self).rotation,
    {
        if self.position.is_none() || self.size.is_none() || self.behaviour.is_none() {
            return Err(RenderableBuilderError);
        }
        let position = self.position.unwrap();
        let size = self.size.unwrap();
        let behaviour = self.behaviour.take().unwrap();
        Ok(Renderable::new(
            RenderableParams { scale: self.scale, position, size, rotation: self.rotation },
            behaviour,
        ))
    }
}

/// The longest render, in nanoseconds: a little over 136 years.
pub const MAX_LENGTH_NANOS: u64 = 4294967296000000000;

/// Nanoseconds in a second.
pub const NANOS_PER_SEC: u64 = 1000000000;

/// The nodes, the indices of the top-level nodes (drawn into every frame),
/// the resolution in pixels, the frame rate, the length in nanoseconds and
/// the encoder's rate control.
pub struct Scene<B> {
    nodes: Vec<Renderable<B>>,
    children: Vec<usize>,
    width: u32,
    height: u32,
    fps: u32,
    length_nanos: u64,
    rate_control_mode: RateControlMode,
}

/// Collects a scene's options; `build` fails while one of them is unset.
pub struct SceneBuilder<B> {
    pub children: Option<Vec<Renderable<B>>>,
    pub resolution: Option<(u32, u32)>,
    pub fps: Option<u32>,
    pub length: Option<u64>,
    pub rate_control_mode: RateControlMode,
}

impl<B> SceneBuilder<B> {
    pub fn with_resolution(&mut self, width: u32, height: u32) -> (r: &mut Self)
        ensures
            *r == (SceneBuilder { resolution: Some((width, height)), ..*old(self) }),
            *final(self) == *final(r),
    {
        self.resolution = Some((width, height));
        self
    }

    pub fn with_fps(&mut self, fps: u32) -> (r: &mut Self)
        ensures
            *r == (SceneBuilder { fps: Some(fps), ..*old(self) }),
            *final(self) == *final(r),
    {
        self.fps = Some(fps);
        self
    }

    /// Sets the length, in nanoseconds.
    pub fn with_length(&mut self, length: u64) -> (r: &mut Self)
        ensures
            *r == (SceneBuilder { length: Some(length), ..*old(self) }),
            *final(self) == *final(r),
    {
        self.length = Some(length);
        self
    }

    pub fn with_rate_control_mode(&mut self, mode: RateControlMode) -> (r: &mut Self)
        ensures
            *r == (SceneBuilder { rate_control_mode: mode, ..*old(self) }),
            *final(self) == *final(r),
    {
        self.rate_control_mode = mode;
        self
    }

    /// Adds a top-level node. Children are linked once the scene is built,
    /// so the node's own child list is dropped here.
    pub fn add_child(&mut self, child: Renderable<B>) -> (r: &mut Self)
        ensures
            ({
                let prev = match old(self).children {
                    Some(c) => c@,
                    None => Seq::empty(),
                };
                &&& r.children matches Some(c)
                &&& c@.len() == prev.len() + 1
                &&& forall|k: int| 0 <= k < prev.len() ==> c@[k] == prev[k]
                &&& c@.last().params == child.params
                &&& c@.last().behaviour == child.behaviour
                &&& c@.last().children@ == Seq::<usize>::empty()
            }),
            r.resolution == old(self).resolution,
            r.fps == old(self).fps,
            r.length == old(self).length,
            r.rate_control_mode == old(self).rate_control_mode,
            *final(self) == *final(r),
    {
        let node = Renderable::new(child.params, child.behaviour);
        match self.children.take() {
            Some(mut c) => {
                c.push(node);
                self.children = Some(c);
            },
            None => {
                let mut c: Vec<Renderable<B>> = Vec::new();
                c.push(node);
                self.children = Some(c);
            },
        }
        self
    }

    /// The scene, once children, resolution, frame rate and length are all
    /// set; the nodes and the length are moved out of the builder.
    pub fn build(&mut self) -> (r: Result<Scene<B>, SceneBuilderError>)
        requires
            old(self).resolution matches Some((w, h)) ==> w * h <= usize::MAX,
            old(self).length matches Some(l) ==> l <= MAX_LENGTH_NANOS,
        ensures
            (old(self).children.is_none() || old(self).resolution.is_none()
                || old(self).fps.is_none() || old(self).length.is_none()) <==> r.is_err(),
            r.is_err() ==> *final(self) == *old(self),
            r matches Ok(sc) ==> {
                let c = old(self).children.unwrap()@;
                &&& sc.wf()
                &&& sc.nodes_spec().len() == c.len()
                &&& forall|k: int| 0 <= k < c.len() ==> {
                    &&& (#[trigger] sc.nodes_spec()[k]).params == c[k].params
                    &&& sc.nodes_spec()[k].behaviour == c[k].behaviour
                    &&& sc.nodes_spec()[k].children@ == Seq::<usize>::empty()
                }
                &&& sc.roots_spec() == Seq::new(c.len(), |k: int| k as usize)
                &&& (sc.width_spec(), sc.height_spec()) == old(self).resolution.unwrap()
                &&& sc.fps_spec() == old(self).fps.unwrap()
                &&& sc.length_spec() == old(self).length.unwrap()
                &&& sc.rate_control_mode_spec() == old(self).rate_control_mode
                &&& final(self).children.is_none()
                &&& final(self).length.is_none()
            },
    {
        if self.children.is_none() || self.resolution.is_none() || self.fps.is_none()
            || self.length.is_none() {
            return Err(SceneBuilderError);
        }
        let src = self.children.take().unwrap();
        let (width, height) = self.resolution.unwrap();
        let fps = self.fps.unwrap();
        let length_nanos = self.length.take().unwrap();
        let mut nodes: Vec<Renderable<B>> = Vec::new();
        let mut roots: Vec<usize> = Vec::new();
        let mut src = src;
        let ghost orig = src@;
        while src.len() > 0
            invariant
                nodes@.len() + src@.len() == orig.len(),
                src@ == orig.skip(nodes@.len() as int),
                forall|k: int| 0 <= k < nodes@.len() ==> {
                    &&& (#[trigger] nodes@[k]).params == orig[k].params
                    &&& nodes@[k].behaviour == orig[k].behaviour
                    &&& nodes@[k].children@ == Seq::<usize>::empty()
                },
                roots@ == Seq::new(nodes@.len(), |k: int| k as usize),
            decreases src@.len(),
        {
            let node = src.remove(0);
            let ghost before = nodes@;
            roots.push(nodes.len());
            nodes.push(Renderable::new(node.params, node.behaviour));
            assert(src@ =~= orig.skip(nodes@.len() as int));
            assert(roots@ =~= Seq::new(nodes@.len(), |k: int| k as usize));
        }
        let sc = Scene {
            nodes,
            children: roots,
            width,
            height,
            fps,
            length_nanos,
            rate_control_mode: self.rate_control_mode,
        };
        assert(nodes_wf(sc.nodes_spec()));
        Ok(sc)
    }
}

impl<B> Scene<B> {
    pub closed spec fn nodes_spec(&self) -> Seq<Renderable<B>> {
        self.nodes@
    }

    /// The indices of the top-level nodes.
    pub closed spec fn roots_spec(&self) -> Seq<usize> {
        self.children@
    }

    pub closed spec fn width_spec(&self) -> u32 {
        self.width
    }

    pub closed spec fn height_spec(&self) -> u32 {
        self.height
    }

    pub closed spec fn fps_spec(&self) -> u32 {
        self.fps
    }

    pub closed spec fn length_spec(&self) -> u64 {
        self.length_nanos
    }

    pub closed spec fn rate_control_mode_spec(&self) -> RateControlMode {
        self.rate_control_mode
    }

    pub open spec fn wf(&self) -> bool {
        &&& nodes_wf(self.nodes_spec())
        &&& forall|k: int|
            0 <= k < self.roots_spec().len() ==> #[trigger] self.roots_spec()[k]
                < self.nodes_spec().len()
        &&& self.width_spec() * self.height_spec() <= usize::MAX
        &&& self.length_spec() <= MAX_LENGTH_NANOS
    }

    /// The work stack a frame starts from: each top-level node at the
    /// origin, unscaled.
    pub open spec fn root_stack(&self) -> Seq<Visit> {
        Seq::new(
            self.roots_spec().len(),
            |k: int|
                Visit {
                    offset: Point { x: 0, y: 0 },
                    scale: Point { x: ONE, y: ONE },
                    node: self.roots_spec()[k],
                },
        )
    }

    /// Every visit of a frame, in drawing order.
    pub open spec fn visit_order(&self) -> Seq<Visit> {
        visits(
            self.nodes_spec(),
            self.width_spec(),
            self.height_spec(),
            self.root_stack(),
            stack_weight(self.nodes_spec(), self.root_stack()),
        )
    }

    /// The frame rendered at `time`: each visit painted in turn over a
    /// transparent frame.
    pub open spec fn frame_spec(&self, time: u64) -> Seq<Rgba>
        where
            B: Behaviour,
    {
        paint_visits(
            self.nodes_spec(),
            self.width_spec(),
            self.height_spec(),
            blank_pixels((self.width_spec() * self.height_spec()) as nat),
            self.visit_order(),
            time,
        )
    }

    pub fn width(&self) -> (r: u32)
        ensures
            r == self.width_spec(),
    {
        self.width
    }

    pub fn height(&self) -> (r: u32)
        ensures
            r == self.height_spec(),
    {
        self.height
    }

    pub fn fps(&self) -> (r: u32)
        ensures
            r == self.fps_spec(),
    {
        self.fps
    }

    /// The length in nanoseconds.
    pub fn length(&self) -> (r: u64)
        ensures
            r == self.length_spec(),
    {
        self.length_nanos
    }

    pub fn rate_control_mode(&self) -> (r: RateControlMode)
        ensures
            r == self.rate_control_mode_spec(),
    {
        self.rate_control_mode
    }

    /// Node `v.node` drawn from `v`: its anchor, the scale it hands down,
    /// and its rectangle.
    fn place(&self, v: Visit) -> (res: (Point, Point, ScreenRect))
        requires
            self.wf(),
            v.wf(),
            v.node < self.nodes_spec().len(),
        ensures
            res.0 == anchor(v, self.nodes_spec()[v.node as int].params, self.width, self.height),
            res.1 == inherited_scale(v, self.nodes_spec()[v.node as int].params),
            res.2 == node_rect(v, self.nodes_spec()[v.node as int].params, self.width, self.height),
            res.2.wf(),
            (Visit { offset: res.0, scale: res.1, node: 0 }).wf(),
    {
        let p = self.nodes[v.node].params;
        let sx = next_scale(v.scale.x, p.scale.x);
        let sy = next_scale(v.scale.y, p.scale.y);
        let ox = next_offset(v.offset.x, p.position.x, self.width, v.scale.x);
        let oy = next_offset(v.offset.y, p.position.y, self.height, v.scale.y);
        let ew = extent(p.size.x, self.width, sx);
        let eh = extent(p.size.y, self.height, sy);
        (Point { x: ox, y: oy }, Point { x: sx, y: sy }, ScreenRect { left: ox, top: oy, width: ew, height: eh })
    }

    /// Paints node `v.node`, drawn from `v`, onto `img`: each covered pixel is
    /// shaded against a snapshot of the frame taken before this node and
    /// blended over it; where the rotated box leaves a pixel of the
    /// rectangle uncovered, that pixel becomes transparent.
    fn paint_node(&self, img: &mut Img, v: Visit, time: u64)
        where
            B: Behaviour,
        requires
            self.wf(),
            v.wf(),
            v.node < self.nodes_spec().len(),
            old(img).wf(),
            old(img).spec_width() == self.width_spec(),
            old(img).spec_height() == self.height_spec(),
        ensures
            final(img).wf(),
            final(img).spec_width() == self.width_spec(),
            final(img).spec_height() == self.height_spec(),
            final(img)@ == paint_node_spec(
                old(img)@,
                self.width_spec(),
                self.height_spec(),
                v,
                self.nodes_spec()[v.node as int],
                time,
            ),
    {
        let ghost frame = img@;
        let ghost n = self.nodes@[v.node as int];
        let w = self.width;
        let h = self.height;
        let (_, _, r) = self.place(v);
        let node = &self.nodes[v.node];
        let snapshot = img.snapshot();
        let x0: i64 = if r.left > 0 { r.left } else { 0 };
        let x1: i64 = if r.left + r.width < w as i64 { r.left + r.width } else { w as i64 };
        let y0: i64 = if r.top > 0 { r.top } else { 0 };
        let y1: i64 = if r.top + r.height < h as i64 { r.top + r.height } else { h as i64 };
        if x0 >= x1 || y0 >= y1 {
            assert(img@ =~= paint_node_spec(frame, w, h, v, n, time));
            return;
        }
        assert(partial_paint(frame, w, h, v, n, time, y0 as int, x0 as int) =~= frame);
        let mut y: i64 = y0;
        while y < y1
            invariant
                self.wf(),
                v.wf(),
                v.node < self.nodes_spec().len(),
                n == self.nodes_spec()[v.node as int],
                *node == n,
                w == self.width_spec(),
                h == self.height_spec(),
                r == node_rect(v, n.params, w, h),
                r.wf(),
                snapshot.wf(),
                snapshot@ == frame,
                snapshot.spec_width() == w,
                snapshot.spec_height() == h,
                img.wf(),
                img.spec_width() == w,
                img.spec_height() == h,
                frame.len() == w * h,
                x0 == (if r.left > 0 { r.left as int } else { 0 }),
                x1 == (if r.left + r.width < w { r.left + r.width } else { w as int }),
                y0 == (if r.top > 0 { r.top as int } else { 0 }),
                y1 == (if r.top + r.height < h { r.top + r.height } else { h as int }),
                x0 < x1,
                y0 <= y <= y1,
                img@ == partial_paint(frame, w, h, v, n, time, y as int, x0 as int),
            decreases y1 - y,
        {
            let mut x: i64 = x0;
            while x < x1
                invariant
                    self.wf(),
                    v.wf(),
                    v.node < self.nodes_spec().len(),
                    n == self.nodes_spec()[v.node as int],
                    *node == n,
                    w == self.width_spec(),
                    h == self.height_spec(),
                    r == node_rect(v, n.params, w, h),
                    r.wf(),
                    snapshot.wf(),
                    snapshot@ == frame,
                    snapshot.spec_width() == w,
                    snapshot.spec_height() == h,
                    img.wf(),
                    img.spec_width() == w,
                    img.spec_height() == h,
                    frame.len() == w * h,
                    x0 == (if r.left > 0 { r.left as int } else { 0 }),
                    x1 == (if r.left + r.width < w { r.left + r.width } else { w as int }),
                    y0 == (if r.top > 0 { r.top as int } else { 0 }),
                    y1 == (if r.top + r.height < h { r.top + r.height } else { h as int }),
                    y0 <= y < y1,
                    x0 <= x <= x1,
                    img@ == partial_paint(frame, w, h, v, n, time, y as int, x as int),
                decreases x1 - x,
            {
                proof {
                    lemma_partial_step(frame, w, h, v, n, time, y as int, x as int);
                    lemma_cell_of_index(x as int, y as int, w as int);
                }
                let c = match pixel_uv(r, node.params.rotation, x, y) {
                    Some(uv) => composite(
                        node.behaviour.shade(&snapshot, uv, time),
                        snapshot.get_pixel(x as usize, y as usize),
                    ),
                    None => Rgba::transparent(),
                };
                img.set_pixel(x as usize, y as usize, c);
                x = x + 1;
            }
            assert(partial_paint(frame, w, h, v, n, time, y as int, x1 as int) =~= partial_paint(
                frame,
                w,
                h,
                v,
                n,
                time,
                y + 1,
                x0 as int,
            ));
            y = y + 1;
        }
        assert(img@ =~= paint_node_spec(frame, w, h, v, n, time));
    }

    /// The number of frames: the length in seconds times the frame rate,
    /// rounded down.
    pub fn frame_count(&self) -> (r: u64)
        requires
            self.wf(),
        ensures
            r == frame_count_spec(self.length_spec(), self.fps_spec()),
    {
        assert(self.length_nanos * self.fps <= 4294967296000000000 * 4294967295) by (nonlinear_arith)
            requires
                self.length_nanos <= 4294967296000000000u64,
                self.fps <= 4294967295u32,
        ;
        let p: u128 = self.length_nanos as u128 * self.fps as u128;
        assert(p / 1000000000 <= 4294967296 * 4294967295) by (nonlinear_arith)
            requires
                p <= 4294967296000000000 * 4294967295,
        ;
        (p / NANOS_PER_SEC as u128) as u64
    }

    /// When frame `i` is shown, in nanoseconds: `i / fps` seconds.
    pub fn frame_time(&self, i: u64) -> (t: u64)
        requires
            self.wf(),
            i < frame_count_spec(self.length_spec(), self.fps_spec()),
        ensures
            t == frame_time_spec(i, self.fps_spec()),
            t <= self.length_spec(),
    {
        let ghost l = self.length_nanos as int;
        let ghost f = self.fps as int;
        assert(f > 0) by (nonlinear_arith)
            requires
                i < l * f / 1000000000,
                0 <= i,
                0 <= l,
                0 <= f,
        ;
        assert(i * 1000000000 / f <= l) by (nonlinear_arith)
            requires
                i < l * f / 1000000000,
                0 <= i,
                0 <= l,
                f > 0,
        ;
        let p: u128 = i as u128 * NANOS_PER_SEC as u128;
        (p / self.fps as u128) as u64
    }

    /// The number of nodes in the arena.
    pub fn node_count(&self) -> (r: usize)
        ensures
            r == self.nodes_spec().len(),
    {
        self.nodes.len()
    }

    /// Node `i`.
    pub fn node(&self, i: usize) -> (r: &Renderable<B>)
        requires
            i < self.nodes_spec().len(),
        ensures
            *r == self.nodes_spec()[i as int],
    {
        &self.nodes[i]
    }

    /// The indices of the top-level nodes, in the order they were added.
    pub fn get_children(&self) -> (r: &Vec<usize>)
        ensures
            r@ == self.roots_spec(),
    {
        &self.children
    }

    /// Replaces node `i`'s layout.
    pub fn set_params(&mut self, i: usize, params: RenderableParams)
        requires
            old(self).wf(),
            i < old(self).nodes_spec().len(),
        ensures
            final(self).wf(),
            final(self).nodes_spec().len() == old(self).nodes_spec().len(),
            final(self).nodes_spec()[i as int].params == params,
            final(self).nodes_spec()[i as int].behaviour == old(self).nodes_spec()[i as int].behaviour,
            final(self).nodes_spec()[i as int].children == old(self).nodes_spec()[i as int].children,
            forall|k: int| 0 <= k < old(self).nodes_spec().len() && k != i ==> final(self).nodes_spec()[k] == old(self).nodes_spec()[k],
            final(self).roots_spec() == old(self).roots_spec(),
            final(self).width_spec() == old(self).width_spec(),
            final(self).height_spec() == old(self).height_spec(),
            final(self).fps_spec() == old(self).fps_spec(),
            final(self).length_spec() == old(self).length_spec(),
            final(self).rate_control_mode_spec() == old(self).rate_control_mode_spec(),
    {
        self.nodes[i].params = params;
        proof {
            self.lemma_wf_same_shape(*old(self));
        }
    }

    /// A scene with the same child lists and settings as a well-formed one is
    /// well formed.
    proof fn lemma_wf_same_shape(&self, other: Scene<B>)
        requires
            other.wf(),
            self.nodes@.len() == other.nodes@.len(),
            forall|a: int| 0 <= a < self.nodes@.len() ==> #[trigger] self.nodes@[a].children == other.nodes@[a].children,
            self.children == other.children,
            self.width == other.width,
            self.height == other.height,
            self.length_nanos == other.length_nanos,
        ensures
            self.wf(),
    {
        assert forall|a: int, k: int|
            0 <= a < self.nodes@.len() && 0 <= k < self.nodes@[a].children@.len() implies a
                < #[trigger] self.nodes@[a].children@[k] < self.nodes@.len() by {
            assert(self.nodes@[a].children == other.nodes@[a].children);
        }
        assert forall|k: int| 0 <= k < self.children@.len() implies #[trigger] self.children@[k] < self.nodes@.len() by {
            assert(other.roots_spec()[k] < other.nodes_spec().len());
        }
    }

    /// Adds `child` to the arena with no children of its own and returns
    /// its index, which is above every index before it.
    fn push_node(&mut self, child: Renderable<B>) -> (idx: usize)
        requires
            old(self).wf(),
            old(self).nodes_spec().len() < usize::MAX,
        ensures
            final(self).wf(),
            idx == old(self).nodes_spec().len(),
            final(self).nodes_spec().len() == idx + 1,
            final(self).nodes_spec().drop_last() == old(self).nodes_spec(),
            final(self).nodes_spec()[idx as int].params == child.params,
            final(self).nodes_spec()[idx as int].behaviour == child.behaviour,
            final(self).nodes_spec()[idx as int].children@ == Seq::<usize>::empty(),
            final(self).roots_spec() == old(self).roots_spec(),
            final(self).width_spec() == old(self).width_spec(),
            final(self).height_spec() == old(self).height_spec(),
            final(self).fps_spec() == old(self).fps_spec(),
            final(self).length_spec() == old(self).length_spec(),
            final(self).rate_control_mode_spec() == old(self).rate_control_mode_spec(),
    {
        let idx = self.nodes.len();
        self.nodes.push(Renderable::new(child.params, child.behaviour));
        assert(self.nodes@.drop_last() =~= old(self).nodes@);
        assert forall|a: int, k: int|
            0 <= a < self.nodes@.len() && 0 <= k < self.nodes@[a].children@.len() implies a
                < #[trigger] self.nodes@[a].children@[k] < self.nodes@.len() by {
            assert(self.nodes@[a] == old(self).nodes@[a]);
        }
        assert forall|k: int| 0 <= k < self.children@.len() implies #[trigger] self.children@[k] < self.nodes@.len() by {
            assert(old(self).roots_spec()[k] < old(self).nodes_spec().len());
        }
        idx
    }

    /// Adds `child` as a new top-level node and returns its index. The work
    /// stack pops the last top-level node first, so this one is drawn before
    /// those added earlier, which paint over it.
    pub fn add_child_simple(&mut self, child: Renderable<B>) -> (idx: usize)
        requires
            old(self).wf(),
            old(self).nodes_spec().len() < usize::MAX,
        ensures
            final(self).wf(),
            idx == old(self).nodes_spec().len(),
            final(self).nodes_spec().drop_last() == old(self).nodes_spec(),
            final(self).nodes_spec().len() == idx + 1,
            final(self).nodes_spec()[idx as int].params == child.params,
            final(self).nodes_spec()[idx as int].behaviour == child.behaviour,
            final(self).nodes_spec()[idx as int].children@ == Seq::<usize>::empty(),
            final(self).roots_spec() == old(self).roots_spec().push(idx),
            final(self).width_spec() == old(self).width_spec(),
            final(self).height_spec() == old(self).height_spec(),
            final(self).fps_spec() == old(self).fps_spec(),
            final(self).length_spec() == old(self).length_spec(),
            final(self).rate_control_mode_spec() == old(self).rate_control_mode_spec(),
    {
        let idx = self.push_node(child);
        self.add_child(idx);
        idx
    }

    /// Adds node `index`, already in the arena, as a top-level node too.
    pub fn add_child(&mut self, index: usize)
        requires
            old(self).wf(),
            index < old(self).nodes_spec().len(),
        ensures
            final(self).wf(),
            final(self).nodes_spec() == old(self).nodes_spec(),
            final(self).roots_spec() == old(self).roots_spec().push(index),
            final(self).width_spec() == old(self).width_spec(),
            final(self).height_spec() == old(self).height_spec(),
            final(self).fps_spec() == old(self).fps_spec(),
            final(self).length_spec() == old(self).length_spec(),
            final(self).rate_control_mode_spec() == old(self).rate_control_mode_spec(),
    {
        self.children.push(index);
        assert forall|k: int| 0 <= k < self.children@.len() implies #[trigger] self.children@[k] < self.nodes@.len() by {
            if k < old(self).children@.len() {
                assert(old(self).roots_spec()[k] < old(self).nodes_spec().len());
            }
        }
    }

    /// Adds `child` to the arena as the last child of node `parent` and
    /// returns its index.
    pub fn add_child_to(&mut self, parent: usize, child: Renderable<B>) -> (idx: usize)
        requires
            old(self).wf(),
            parent < old(self).nodes_spec().len(),
            old(self).nodes_spec().len() < usize::MAX,
        ensures
            final(self).wf(),
            idx == old(self).nodes_spec().len(),
            final(self).nodes_spec().len() == idx + 1,
            final(self).nodes_spec()[idx as int].params == child.params,
            final(self).nodes_spec()[idx as int].behaviour == child.behaviour,
            final(self).nodes_spec()[idx as int].children@ == Seq::<usize>::empty(),
            final(self).nodes_spec()[parent as int].children@ == old(self).nodes_spec()[parent as int].children@.push(idx),
            final(self).nodes_spec()[parent as int].params == old(self).nodes_spec()[parent as int].params,
            final(self).nodes_spec()[parent as int].behaviour == old(self).nodes_spec()[parent as int].behaviour,
            forall|k: int| 0 <= k < idx && k != parent ==> final(self).nodes_spec()[k] == old(self).nodes_spec()[k],
            final(self).roots_spec() == old(self).roots_spec(),
            final(self).width_spec() == old(self).width_spec(),
            final(self).height_spec() == old(self).height_spec(),
            final(self).fps_spec() == old(self).fps_spec(),
            final(self).length_spec() == old(self).length_spec(),
            final(self).rate_control_mode_spec() == old(self).rate_control_mode_spec(),
    {
        let idx = self.push_node(child);
        let ok = self.link_child(parent, idx);
        idx
    }

    /// Makes node `child` the last child of node `parent` as well. Children
    /// must sit above their parent in the arena, which keeps the graph free
    /// of cycles; returns false, changing nothing, when they do not.
    pub fn link_child(&mut self, parent: usize, child: usize) -> (ok: bool)
        requires
            old(self).wf(),
        ensures
            final(self).wf(),
            ok == (parent < child < old(self).nodes_spec().len()),
            !ok ==> *final(self) == *old(self),
            final(self).nodes_spec().len() == old(self).nodes_spec().len(),
            ok ==> final(self).nodes_spec()[parent as int].children@ == old(self).nodes_spec()[parent as int].children@.push(child),
            ok ==> final(self).nodes_spec()[parent as int].params == old(self).nodes_spec()[parent as int].params,
            ok ==> final(self).nodes_spec()[parent as int].behaviour == old(self).nodes_spec()[parent as int].behaviour,
            forall|k: int| 0 <= k < old(self).nodes_spec().len() && k != parent ==> final(self).nodes_spec()[k] == old(self).nodes_spec()[k],
            final(self).roots_spec() == old(self).roots_spec(),
            final(self).width_spec() == old(self).width_spec(),
            final(self).height_spec() == old(self).height_spec(),
            final(self).fps_spec() == old(self).fps_spec(),
            final(self).length_spec() == old(self).length_spec(),
            final(self).rate_control_mode_spec() == old(self).rate_control_mode_spec(),
    {
        if !(parent < child && child < self.nodes.len()) {
            return false;
        }
        self.nodes[parent].children.push(child);
        assert forall|a: int, k: int|
            0 <= a < self.nodes@.len() && 0 <= k < self.nodes@[a].children@.len() implies a
                < #[trigger] self.nodes@[a].children@[k] < self.nodes@.len() by {
            if a != parent {
                assert(self.nodes@[a] == old(self).nodes@[a]);
            } else if k < old(self).nodes@[a].children@.len() {
                assert(self.nodes@[a].children@[k] == old(self).nodes@[a].children@[k]);
            }
        }
        assert forall|k: int| 0 <= k < self.children@.len() implies #[trigger] self.children@[k] < self.nodes@.len() by {
            assert(old(self).roots_spec()[k] < old(self).nodes_spec().len());
        }
        true
    }

    /// Runs `update` once on every node that can be reached from a
    /// top-level node, parents before their children; a node reached along
    /// several paths is still updated once, so each reachable node ends one
    /// `update_spec` step from where it was. Nodes that cannot be reached,
    /// and every child list, stay as they were.
    pub fn run_behaviours(&mut self, time: u64)
        where
            B: Behaviour,
        requires
            old(self).wf(),
        ensures
            final(self).wf(),
            final(self).nodes_spec().len() == old(self).nodes_spec().len(),
            forall|i: int|
                0 <= i < old(self).nodes_spec().len() ==> (#[trigger] final(self).nodes_spec()[i]).children
                    == old(self).nodes_spec()[i].children,
            forall|i: int|
                0 <= i < old(self).nodes_spec().len() && !reachable(
                    old(self).nodes_spec(),
                    old(self).roots_spec(),
                    i,
                ) ==> #[trigger] final(self).nodes_spec()[i] == old(self).nodes_spec()[i],
            forall|i: int|
                0 <= i < old(self).nodes_spec().len() && reachable(
                    old(self).nodes_spec(),
                    old(self).roots_spec(),
                    i,
                ) ==> old(self).nodes_spec()[i].behaviour.update_spec(
                    old(self).nodes_spec()[i].params,
                    time,
                    #[trigger] final(self).nodes_spec()[i].behaviour,
                    final(self).nodes_spec()[i].params,
                ),
            final(self).roots_spec() == old(self).roots_spec(),
            final(self).width_spec() == old(self).width_spec(),
            final(self).height_spec() == old(self).height_spec(),
            final(self).fps_spec() == old(self).fps_spec(),
            final(self).length_spec() == old(self).length_spec(),
            final(self).rate_control_mode_spec() == old(self).rate_control_mode_spec(),
    {
        let reach = self.reachable_nodes();
        let n = self.nodes.len();
        let ghost orig = self.nodes@;
        let mut i: usize = 0;
        while i < n
            invariant
                n == orig.len(),
                self.nodes@.len() == n,
                reach@.len() == n,
                forall|k: int| 0 <= k < n ==> reach@[k] == reachable(orig, self.children@, k),
                forall|k: int| 0 <= k < n ==> (#[trigger] self.nodes@[k]).children == orig[k].children,
                forall|k: int| 0 <= k < n && (k >= i || !reach@[k]) ==> #[trigger] self.nodes@[k] == orig[k],
                forall|k: int|
                    0 <= k < i && reach@[k] ==> orig[k].behaviour.update_spec(
                        orig[k].params,
                        time,
                        #[trigger] self.nodes@[k].behaviour,
                        self.nodes@[k].params,
                    ),
                self.children == old(self).children,
                orig == old(self).nodes@,
                self.width == old(self).width,
                self.height == old(self).height,
                self.fps == old(self).fps,
                self.length_nanos == old(self).length_nanos,
                self.rate_control_mode == old(self).rate_control_mode,
            decreases n - i,
        {
            if reach[i] {
                self.nodes[i].run_behaviour(time);
            }
            i = i + 1;
        }
        proof {
            self.lemma_wf_same_shape(*old(self));
        }
    }

    /// For each node, whether it can be reached from a top-level node.
    fn reachable_nodes(&self) -> (reach: Vec<bool>)
        requires
            self.wf(),
        ensures
            reach@.len() == self.nodes@.len(),
            forall|k: int| 0 <= k < reach@.len() ==> reach@[k] == reachable(self.nodes@, self.children@, k),
    {
        let n = self.nodes.len();
        let ghost nodes = self.nodes@;
        let ghost roots = self.children@;
        let mut reach: Vec<bool> = Vec::new();
        let mut i: usize = 0;
        while i < n
            invariant
                i <= n,
                reach@.len() == i,
                forall|k: int| 0 <= k < i ==> !reach@[k],
            decreases n - i,
        {
            reach.push(false);
            i = i + 1;
        }
        let mut r: usize = 0;
        while r < self.children.len()
            invariant
                self.wf(),
                reach@.len() == n,
                n == nodes.len(),
                nodes == self.nodes@,
                r <= roots.len(),
                roots == self.children@,
                forall|k: int| 0 <= k < n ==> reach@[k] == in_prefix(roots, r as int, k),
            decreases roots.len() - r,
        {
            proof {
                assert(self.roots_spec()[r as int] < self.nodes_spec().len());
            }
            let ghost prev = reach@;
            reach.set(self.children[r], true);
            proof {
                assert forall|k: int| 0 <= k < n implies reach@[k] == in_prefix(roots, r + 1, k) by {
                    lemma_in_prefix_step(roots, r as int, k);
                    assert(prev[k] == in_prefix(roots, r as int, k));
                    if k != roots[r as int] as int {
                        assert(reach@[k] == prev[k]);
                    }
                }
            }
            r = r + 1;
        }
        let ghost cl = child_lists(nodes);
        assert(reach@.len() == n);
        assert forall|k: int| 0 <= k < n implies reach@[k] == reached_through(cl, roots, 0).contains(k) by {}
        let mut i: usize = 0;
        while i < n
            invariant
                self.wf(),
                nodes == self.nodes@,
                roots == self.children@,
                cl == child_lists(nodes),
                n == nodes.len(),
                reach@.len() == n,
                i <= n,
                forall|k: int| 0 <= k < n ==> reach@[k] == reached_through(cl, roots, i as int).contains(k),
            decreases n - i,
        {
            let ghost before = reach@;
            if reach[i] {
                let children = &self.nodes[i].children;
                let mut c: usize = 0;
                while c < children.len()
                    invariant
                        self.wf(),
                        nodes == self.nodes@,
                        i < n,
                        n == nodes.len(),
                        *children == nodes[i as int].children,
                        reach@.len() == n,
                        before.len() == n,
                        c <= children@.len(),
                        forall|k: int| 0 <= k < n ==> reach@[k] == (before[k] || in_prefix(children@, c as int, k)),
                    decreases children@.len() - c,
                {
                    proof {
                        assert(i < nodes[i as int].children@[c as int] < nodes.len());
                    }
                    let ghost prev = reach@;
                    assert forall|k: int| 0 <= k < n implies #[trigger] prev[k] == (before[k] || in_prefix(children@, c as int, k)) by {
                        assert(reach@[k] == prev[k]);
                    }
                    reach.set(children[c], true);
                    c = c + 1;
                    proof {
                        assert forall|k: int| 0 <= k < n implies #[trigger] reach@[k] == (before[k] || in_prefix(children@, c as int, k)) by {
                            lemma_in_prefix_step(children@, c - 1, k);
                            assert(prev[k] == (before[k] || in_prefix(children@, c - 1, k)));
                            if k != children@[c - 1] as int {
                                assert(reach@[k] == prev[k]);
                            }
                        }
                    }
                }
                assert(cl[i as int] == children@);
            }
            proof {
                assert forall|k: int| 0 <= k < n implies reach@[k] == reached_through(cl, roots, i + 1).contains(k) by {
                    assert(before[k] == reached_through(cl, roots, i as int).contains(k));
                }
            }
            i = i + 1;
        }
        proof {
            assert forall|k: int| 0 <= k < n implies reach@[k] == reachable(nodes, roots, k) by {
                assert(reached_through(cl, roots, n as int).contains(k) == reached_through(cl, roots, n as int).contains(k));
            }
        }
        reach
    }

    /// A deep copy for rendering while the live scene moves on: the same
    /// nodes, layouts, child lists and settings, with each behaviour
    /// duplicated so that it shades as the original does.
    pub fn clone_entire(&self) -> (r: Scene<B>)
        where
            B: Behaviour,
        requires
            self.wf(),
        ensures
            r.wf(),
            r.nodes_spec().len() == self.nodes_spec().len(),
            forall|i: int|
                0 <= i < self.nodes_spec().len() ==> (#[trigger] r.nodes_spec()[i]).params
                    == self.nodes_spec()[i].params && r.nodes_spec()[i].children@
                    == self.nodes_spec()[i].children@,
            forall|i: int, frame: FrameView, uv: Point, time: u64|
                0 <= i < self.nodes_spec().len() ==> #[trigger] r.nodes_spec()[i].behaviour.shade_spec(
                    frame,
                    uv,
                    time,
                ) == self.nodes_spec()[i].behaviour.shade_spec(frame, uv, time),
            r.roots_spec() == self.roots_spec(),
            r.width_spec() == self.width_spec(),
            r.height_spec() == self.height_spec(),
            r.fps_spec() == self.fps_spec(),
            r.length_spec() == self.length_spec(),
            r.rate_control_mode_spec() == self.rate_control_mode_spec(),
    {
        let mut nodes: Vec<Renderable<B>> = Vec::new();
        let mut i: usize = 0;
        while i < self.nodes.len()
            invariant
                self.wf(),
                i <= self.nodes@.len(),
                nodes@.len() == i,
                forall|k: int|
                    0 <= k < i ==> (#[trigger] nodes@[k]).params == self.nodes@[k].params
                        && nodes@[k].children@ == self.nodes@[k].children@,
                forall|k: int, frame: FrameView, uv: Point, time: u64|
                    0 <= k < i ==> #[trigger] nodes@[k].behaviour.shade_spec(frame, uv, time)
                        == self.nodes@[k].behaviour.shade_spec(frame, uv, time),
            decreases self.nodes@.len() - i,
        {
            let node = &self.nodes[i];
            let behaviour = node.behaviour.duplicate();
            let ghost before = nodes@;
            nodes.push(Renderable { params: node.params, behaviour, children: copy_indices(&node.children) });
            proof {
                assert forall|k: int, frame: FrameView, uv: Point, time: u64|
                    0 <= k < i + 1 implies #[trigger] nodes@[k].behaviour.shade_spec(frame, uv, time)
                        == self.nodes@[k].behaviour.shade_spec(frame, uv, time) by {
                    if k == i {
                        assert(behaviour.shade_spec(frame, uv, time) == self.nodes@[k].behaviour.shade_spec(frame, uv, time));
                    } else {
                        assert(nodes@[k] == before[k]);
                        assert(before[k].behaviour.shade_spec(frame, uv, time) == self.nodes@[k].behaviour.shade_spec(frame, uv, time));
                    }
                }
            }
            i = i + 1;
        }
        let r = Scene {
            nodes,
            children: copy_indices(&self.children),
            width: self.width,
            height: self.height,
            fps: self.fps,
            length_nanos: self.length_nanos,
            rate_control_mode: self.rate_control_mode,
        };
        assert forall|a: int, k: int|
            0 <= a < r.nodes@.len() && 0 <= k < r.nodes@[a].children@.len() implies a
                < #[trigger] r.nodes@[a].children@[k] < r.nodes@.len() by {
            assert(self.nodes@[a].children@[k] == r.nodes@[a].children@[k]);
        }
        assert forall|k: int| 0 <= k < r.children@.len() implies #[trigger] r.children@[k] < r.nodes@.len() by {
            assert(self.roots_spec()[k] < self.nodes_spec().len());
        }
        r
    }

    /// The sequential half of frame `i`: moves the scene to the frame's time
    /// by running every reachable behaviour once, then returns a snapshot to
    /// render elsewhere and the frame's time.
    pub fn step_frame(&mut self, i: u64) -> (r: (Scene<B>, u64))
        where
            B: Behaviour,
        requires
            old(self).wf(),
            i < frame_count_spec(old(self).length_spec(), old(self).fps_spec()),
        ensures
            r.1 == frame_time_spec(i, old(self).fps_spec()),
            final(self).wf(),
            final(self).nodes_spec().len() == old(self).nodes_spec().len(),
            forall|k: int|
                0 <= k < old(self).nodes_spec().len() ==> (#[trigger] final(self).nodes_spec()[k]).children
                    == old(self).nodes_spec()[k].children,
            forall|k: int|
                0 <= k < old(self).nodes_spec().len() && !reachable(
                    old(self).nodes_spec(),
                    old(self).roots_spec(),
                    k,
                ) ==> #[trigger] final(self).nodes_spec()[k] == old(self).nodes_spec()[k],
            forall|k: int|
                0 <= k < old(self).nodes_spec().len() && reachable(
                    old(self).nodes_spec(),
                    old(self).roots_spec(),
                    k,
                ) ==> old(self).nodes_spec()[k].behaviour.update_spec(
                    old(self).nodes_spec()[k].params,
                    r.1,
                    #[trigger] final(self).nodes_spec()[k].behaviour,
                    final(self).nodes_spec()[k].params,
                ),
            final(self).roots_spec() == old(self).roots_spec(),
            final(self).width_spec() == old(self).width_spec(),
            final(self).height_spec() == old(self).height_spec(),
            final(self).fps_spec() == old(self).fps_spec(),
            final(self).length_spec() == old(self).length_spec(),
            final(self).rate_control_mode_spec() == old(self).rate_control_mode_spec(),
            r.0.wf(),
            r.0.nodes_spec().len() == final(self).nodes_spec().len(),
            forall|k: int|
                0 <= k < final(self).nodes_spec().len() ==> (#[trigger] r.0.nodes_spec()[k]).params
                    == final(self).nodes_spec()[k].params && r.0.nodes_spec()[k].children@
                    == final(self).nodes_spec()[k].children@,
            forall|k: int, frame: FrameView, uv: Point, time: u64|
                0 <= k < final(self).nodes_spec().len() ==> #[trigger] r.0.nodes_spec()[k].behaviour.shade_spec(
                    frame,
                    uv,
                    time,
                ) == final(self).nodes_spec()[k].behaviour.shade_spec(frame, uv, time),
            r.0.roots_spec() == final(self).roots_spec(),
            r.0.width_spec() == final(self).width_spec(),
            r.0.height_spec() == final(self).height_spec(),
            r.0.fps_spec() == final(self).fps_spec(),
            r.0.length_spec() == final(self).length_spec(),
            r.0.rate_control_mode_spec() == final(self).rate_control_mode_spec(),
    {
        let time = self.frame_time(i);
        self.run_behaviours(time);
        (self.clone_entire(), time)
    }

    /// Renders the frame at `time` (nanoseconds): walks the scene with a
    /// work stack from the top-level nodes, accumulating offsets and scales,
    /// and paints each visited node over a transparent frame.
    pub fn render_frame(&self, frame_indx: u64, time: u64) -> (img: Img)
        where
            B: Behaviour,
        requires
            self.wf(),
        ensures
            img.wf(),
            img.spec_width() == self.width_spec(),
            img.spec_height() == self.height_spec(),
            img@ == self.frame_spec(time),
    {
        let ghost nodes = self.nodes@;
        let ghost target = self.frame_spec(time);
        let w = self.width;
        let h = self.height;
        let mut img = Img::new(w as usize, h as usize);
        assert(img@ =~= blank_pixels((w * h) as nat));
        let mut stack: Vec<Visit> = Vec::new();
        let mut i: usize = 0;
        while i < self.children.len()
            invariant
                self.wf(),
                i <= self.children@.len(),
                stack@ == self.root_stack().take(i as int),
            decreases self.children@.len() - i,
        {
            stack.push(
                Visit { offset: Point { x: 0, y: 0 }, scale: Point { x: ONE, y: ONE }, node: self.children[i] },
            );
            i = i + 1;
            assert(stack@ =~= self.root_stack().take(i as int));
        }
        assert(stack@ =~= self.root_stack());
        while stack.len() > 0
            invariant
                self.wf(),
                nodes == self.nodes_spec(),
                w == self.width_spec(),
                h == self.height_spec(),
                img.wf(),
                img.spec_width() == w,
                img.spec_height() == h,
                forall|k: int|
                    0 <= k < stack@.len() ==> (#[trigger] stack@[k]).wf() && stack@[k].node
                        < nodes.len(),
                paint_visits(nodes, w, h, img@, visits(nodes, w, h, stack@, stack_weight(nodes, stack@)), time)
                    == target,
            decreases stack_weight(nodes, stack@),
        {
            let ghost before = stack@;
            let ghost img_before = img@;
            let v = stack.pop().unwrap();
            assert(before.last() == v);
            assert(stack@ == before.drop_last());
            let (offset, scale, _) = self.place(v);
            let children = &self.nodes[v.node].children;
            let ghost cv = child_visits(nodes, w, h, v);
            let mut k: usize = 0;
            while k < children.len()
                invariant
                    self.wf(),
                    nodes == self.nodes_spec(),
                    v.node < nodes.len(),
                    *children == nodes[v.node as int].children,
                    cv == child_visits(nodes, w, h, v),
                    offset == anchor(v, nodes[v.node as int].params, w, h),
                    scale == inherited_scale(v, nodes[v.node as int].params),
                    (Visit { offset, scale, node: 0 }).wf(),
                    k <= children@.len(),
                    stack@ == before.drop_last() + cv.take(k as int),
                decreases children@.len() - k,
            {
                stack.push(Visit { offset, scale, node: children[k] });
                k = k + 1;
                assert(stack@ =~= before.drop_last() + cv.take(k as int));
            }
            assert(cv.take(k as int) =~= cv);
            self.paint_node(&mut img, v, time);
            proof {
                lemma_pop_push_weight(nodes, w, h, before);
                let rest = visits(nodes, w, h, stack@, stack_weight(nodes, stack@));
                let all = visits(nodes, w, h, before, stack_weight(nodes, before));
                assert(all == seq![v] + rest);
                assert(all.drop_first() =~= rest);
                assert forall|j: int| 0 <= j < stack@.len() implies (#[trigger] stack@[j]).wf()
                    && stack@[j].node < nodes.len() by {
                    if j >= before.len() - 1 {
                        let c = j - (before.len() - 1);
                        assert(stack@[j] == cv[c]);
                        assert(v.node < nodes[v.node as int].children@[c]);
                    } else {
                        assert(stack@[j] == before[j]);
                    }
                }
            }
        }
        img
    }

    /// A builder with no nodes, 1280 by 720 pixels at 30 frames per second,
    /// and no length.
    pub fn builder() -> (b: SceneBuilder<B>)
        ensures
            b.children matches Some(c) && c@.len() == 0,
            b.resolution == Some((1280u32, 720u32)),
            b.fps == Some(30u32),
            b.length.is_none(),
            b.rate_control_mode == RateControlMode::Bufferbased,
    {
        SceneBuilder {
            children: Some(Vec::new()),
            resolution: Some((1280, 720)),
            fps: Some(30),
            length: None,
            rate_control_mode: RateControlMode::Bufferbased,
        }
    }
}

/// Where a node is drawn from: the offset (pixels) and scale (fixed point)
/// that its ancestors hand down, and the node's index.
#[derive(Clone, Copy, Debug, PartialEq, Eq, Structural)]
pub struct Visit {
    pub offset: Point,
    pub scale: Point,
    pub node: usize,
}

impl Visit {
    pub open spec fn wf(&self) -> bool {
        &&& -MAX_COORD <= self.offset.x <= MAX_COORD
        &&& -MAX_COORD <= self.offset.y <= MAX_COORD
        &&& -MAX_SCALE <= self.scale.x <= MAX_SCALE
        &&& -MAX_SCALE <= self.scale.y <= MAX_SCALE
    }
}

/// Every child index is above its parent's and inside the arena, so the
/// graph has no cycle.
pub open spec fn nodes_wf<B>(nodes: Seq<Renderable<B>>) -> bool {
    forall|i: int, k: int|
        0 <= i < nodes.len() && 0 <= k < nodes[i].children@.len() ==> i
            < #[trigger] nodes[i].children@[k] < nodes.len()
}

/// The scale a node hands to its children.
pub open spec fn inherited_scale(v: Visit, p: RenderableParams) -> Point {
    Point {
        x: next_scale_spec(v.scale.x as int, p.scale.x as int) as i64,
        y: next_scale_spec(v.scale.y as int, p.scale.y as int) as i64,
    }
}

/// A node's anchor in pixels, which is also the offset its children inherit.
pub open spec fn anchor(v: Visit, p: RenderableParams, w: u32, h: u32) -> Point {
    Point {
        x: next_offset_spec(v.offset.x as int, p.position.x as int, w as int, v.scale.x as int) as i64,
        y: next_offset_spec(v.offset.y as int, p.position.y as int, h as int, v.scale.y as int) as i64,
    }
}

/// A node's rectangle on screen, before cropping.
pub open spec fn node_rect(v: Visit, p: RenderableParams, w: u32, h: u32) -> ScreenRect {
    let s = inherited_scale(v, p);
    let a = anchor(v, p, w, h);
    ScreenRect {
        left: a.x,
        top: a.y,
        width: extent_spec(p.size.x as int, w as int, s.x as int) as i64,
        height: extent_spec(p.size.y as int, h as int, s.y as int) as i64,
    }
}

/// The visits of a node's children, in the order the children were added.
pub open spec fn child_visits<B>(nodes: Seq<Renderable<B>>, w: u32, h: u32, v: Visit) -> Seq<Visit> {
    let n = nodes[v.node as int];
    Seq::new(
        n.children@.len(),
        |k: int|
            Visit {
                offset: anchor(v, n.params, w, h),
                scale: inherited_scale(v, n.params),
                node: n.children@[k],
            },
    )
}

/// How many visits a node's subtree takes, counting shared nodes once per path.
pub open spec fn node_weight<B>(nodes: Seq<Renderable<B>>, i: int) -> nat
    decreases nodes.len() - i, nodes[i].children@.len() + 1,
{
    if 0 <= i < nodes.len() {
        1 + children_weight(nodes, i, nodes[i].children@.len() as int)
    } else {
        1
    }
}

/// The weight of the first `k` children of node `i`.
pub open spec fn children_weight<B>(nodes: Seq<Renderable<B>>, i: int, k: int) -> nat
    decreases nodes.len() - i, k,
{
    if k <= 0 || !(0 <= i < nodes.len()) || k > nodes[i].children@.len() {
        0
    } else {
        let c = nodes[i].children@[k - 1] as int;
        children_weight(nodes, i, k - 1) + if i < c < nodes.len() {
            node_weight(nodes, c)
        } else {
            0
        }
    }
}

/// The visits still owed by a work stack.
pub open spec fn stack_weight<B>(nodes: Seq<Renderable<B>>, s: Seq<Visit>) -> nat
    decreases s.len(),
{
    if s.len() == 0 {
        0
    } else {
        stack_weight(nodes, s.drop_last()) + node_weight(nodes, s.last().node as int)
    }
}

/// The order in which a work stack visits nodes: pop the last entry, visit
/// it, push its children in order. Siblings are therefore visited last to
/// first.
pub open spec fn visits<B>(nodes: Seq<Renderable<B>>, w: u32, h: u32, stack: Seq<Visit>, fuel: nat) -> Seq<Visit>
    decreases fuel,
{
    if fuel == 0 || stack.len() == 0 {
        Seq::empty()
    } else {
        let v = stack.last();
        seq![v] + visits(nodes, w, h, stack.drop_last() + child_visits(nodes, w, h, v), (fuel - 1) as nat)
    }
}

/// The clipped part of a rectangle: the pixels of a `w` by `h` frame it covers.
pub open spec fn in_clip(r: ScreenRect, w: u32, h: u32, x: int, y: int) -> bool {
    &&& 0 <= x < w
    &&& 0 <= y < h
    &&& r.contains(x, y)
}

/// What painting node `n` from visit `v` writes at pixel `k` of `frame`.
pub open spec fn painted_pixel<B: Behaviour>(frame: Seq<Rgba>, w: u32, h: u32, v: Visit, n: Renderable<B>, time: u64, k: int) -> Rgba {
    let r = node_rect(v, n.params, w, h);
    match pixel_uv_spec(r, n.params.rotation, k % (w as int), k / (w as int)) {
        Some(uv) => composite_spec(n.behaviour.shade_spec(frame, uv, time), frame[k]),
        None => transparent_spec(),
    }
}

/// The frame after painting node `n` from visit `v`: every covered pixel is
/// shaded against the frame as it was before this node and blended over it.
pub open spec fn paint_node_spec<B: Behaviour>(frame: Seq<Rgba>, w: u32, h: u32, v: Visit, n: Renderable<B>, time: u64) -> Seq<Rgba> {
    let r = node_rect(v, n.params, w, h);
    Seq::new(
        frame.len(),
        |k: int|
            if in_clip(r, w, h, k % (w as int), k / (w as int)) {
                painted_pixel(frame, w, h, v, n, time, k)
            } else {
                frame[k]
            },
    )
}

/// The frame after painting each visit in turn.
pub open spec fn paint_visits<B: Behaviour>(nodes: Seq<Renderable<B>>, w: u32, h: u32, frame: Seq<Rgba>, vs: Seq<Visit>, time: u64) -> Seq<Rgba>
    decreases vs.len(),
{
    if vs.len() == 0 {
        frame
    } else {
        paint_visits(
            nodes,
            w,
            h,
            paint_node_spec(frame, w, h, vs[0], nodes[vs[0].node as int], time),
            vs.drop_first(),
            time,
        )
    }
}

/// `k` is among the first `n` entries of `s`.
pub open spec fn in_prefix(s: Seq<usize>, n: int, k: int) -> bool {
    exists|j: int| 0 <= j < n && j < s.len() && #[trigger] s[j] as int == k
}

/// The nodes reached from the top-level nodes through parents with an
/// index below `i`.
pub open spec fn reached_through(nodes: Seq<Seq<usize>>, roots: Seq<usize>, i: int) -> Set<int>
    decreases i,
{
    if i <= 0 {
        Set::new(|k: int| in_prefix(roots, roots.len() as int, k))
    } else {
        let before = reached_through(nodes, roots, i - 1);
        if before.contains(i - 1) {
            before.union(Set::new(|k: int| in_prefix(nodes[i - 1], nodes[i - 1].len() as int, k)))
        } else {
            before
        }
    }
}

/// The child lists of the nodes.
pub open spec fn child_lists<B>(nodes: Seq<Renderable<B>>) -> Seq<Seq<usize>> {
    Seq::new(nodes.len(), |i: int| nodes[i].children@)
}

/// Node `i` can be reached from a top-level node. Children sit above their
/// parents, so every parent of node `i` has an index below `i`.
pub open spec fn reachable<B>(nodes: Seq<Renderable<B>>, roots: Seq<usize>, i: int) -> bool {
    reached_through(child_lists(nodes), roots, nodes.len() as int).contains(i)
}

proof fn lemma_in_prefix_step(s: Seq<usize>, n: int, k: int)
    requires
        0 <= n < s.len(),
    ensures
        in_prefix(s, n + 1, k) == (in_prefix(s, n, k) || s[n] as int == k),
{
    if in_prefix(s, n + 1, k) && s[n] as int != k {
        let j = choose|j: int| 0 <= j < n + 1 && j < s.len() && #[trigger] s[j] as int == k;
        assert(0 <= j < n && j < s.len() && s[j] as int == k);
    }
    if in_prefix(s, n, k) {
        let j = choose|j: int| 0 <= j < n && j < s.len() && #[trigger] s[j] as int == k;
        assert(0 <= j < n + 1 && j < s.len() && s[j] as int == k);
    }
    if s[n] as int == k {
        assert(0 <= n < n + 1 && n < s.len() && s[n] as int == k);
    }
}

/// Frames in a render of `length` nanoseconds at `fps` frames per second,
/// rounded down.
pub open spec fn frame_count_spec(length: u64, fps: u32) -> int {
    length * fps / (NANOS_PER_SEC as int)
}

/// When frame `i` is shown, in nanoseconds, rounded down.
pub open spec fn frame_time_spec(i: u64, fps: u32) -> int {
    i * NANOS_PER_SEC / (fps as int)
}

/// A copy of a list of indices.
fn copy_indices(v: &Vec<usize>) -> (r: Vec<usize>)
    ensures
        r@ == v@,
{
    let mut r: Vec<usize> = Vec::new();
    let mut i: usize = 0;
    while i < v.len()
        invariant
            i <= v@.len(),
            r@ == v@.take(i as int),
        decreases v@.len() - i,
    {
        r.push(v[i]);
        i = i + 1;
        assert(r@ =~= v@.take(i as int));
    }
    assert(r@ =~= v@);
    r
}

/// The frame with node `n` painted on the rows above `yc` and on row `yc`
/// left of `xc`.
spec fn partial_paint<B: Behaviour>(frame: Seq<Rgba>, w: u32, h: u32, v: Visit, n: Renderable<B>, time: u64, yc: int, xc: int) -> Seq<Rgba> {
    let r = node_rect(v, n.params, w, h);
    Seq::new(
        frame.len(),
        |k: int|
            if in_clip(r, w, h, k % (w as int), k / (w as int)) && (k / (w as int) < yc || (k
                / (w as int) == yc && k % (w as int) < xc)) {
                painted_pixel(frame, w, h, v, n, time, k)
            } else {
                frame[k]
            },
    )
}

proof fn lemma_cell_of_index(x: int, y: int, w: int)
    requires
        0 <= x < w,
        0 <= y,
    ensures
        (y * w + x) / w == y,
        (y * w + x) % w == x,
{
    lemma_fundamental_div_mod_converse(y * w + x, w, y, x);
}

proof fn lemma_partial_step<B: Behaviour>(frame: Seq<Rgba>, w: u32, h: u32, v: Visit, n: Renderable<B>, time: u64, y: int, x: int)
    requires
        frame.len() == w * h,
        0 <= x < w,
        0 <= y < h,
        in_clip(node_rect(v, n.params, w, h), w, h, x, y),
    ensures
        0 <= y * w + x < frame.len(),
        partial_paint(frame, w, h, v, n, time, y, x).update(
            y * w + x,
            painted_pixel(frame, w, h, v, n, time, y * w + x),
        ) =~= partial_paint(frame, w, h, v, n, time, y, x + 1),
{
    crate::frame::lemma_index_in_grid(x, y, w as int, h as int);
    lemma_cell_of_index(x, y, w as int);
    let idx = y * w + x;
    assert forall|k: int|
        #![trigger k / (w as int)]
        0 <= k < frame.len() && k != idx implies !(k / (w as int) == y && k % (w as int) == x) by {
        lemma_fundamental_div_mod(k, w as int);
    }
}

pub proof fn lemma_stack_weight_append<B>(nodes: Seq<Renderable<B>>, a: Seq<Visit>, b: Seq<Visit>)
    ensures
        stack_weight(nodes, a + b) == stack_weight(nodes, a) + stack_weight(nodes, b),
    decreases b.len(),
{
    if b.len() == 0 {
        assert(a + b =~= a);
    } else {
        assert((a + b).drop_last() =~= a + b.drop_last());
        lemma_stack_weight_append(nodes, a, b.drop_last());
    }
}

proof fn lemma_child_visits_weight<B>(nodes: Seq<Renderable<B>>, w: u32, h: u32, v: Visit, k: int)
    requires
        nodes_wf(nodes),
        v.node < nodes.len(),
        0 <= k <= nodes[v.node as int].children@.len(),
    ensures
        stack_weight(nodes, child_visits(nodes, w, h, v).take(k)) == children_weight(nodes, v.node as int, k),
    decreases k,
{
    let cv = child_visits(nodes, w, h, v);
    if k == 0 {
        assert(cv.take(k) =~= Seq::<Visit>::empty());
    } else {
        assert(cv.take(k).drop_last() =~= cv.take(k - 1));
        lemma_child_visits_weight(nodes, w, h, v, k - 1);
        let c = nodes[v.node as int].children@[k - 1];
        assert(v.node < c < nodes.len());
    }
}

/// Popping a visit and pushing its children uses up exactly one unit of weight.
pub proof fn lemma_pop_push_weight<B>(nodes: Seq<Renderable<B>>, w: u32, h: u32, s: Seq<Visit>)
    requires
        nodes_wf(nodes),
        s.len() > 0,
        s.last().node < nodes.len(),
    ensures
        stack_weight(nodes, s.drop_last() + child_visits(nodes, w, h, s.last())) + 1 == stack_weight(nodes, s),
{
    let v = s.last();
    let cv = child_visits(nodes, w, h, v);
    lemma_stack_weight_append(nodes, s.drop_last(), cv);
    lemma_child_visits_weight(nodes, w, h, v, cv.len() as int);
    assert(cv.take(cv.len() as int) =~= cv);
}

/// A scene with no top-level nodes renders every frame fully transparent.
pub proof fn lemma_empty_scene_is_transparent<B: Behaviour>(scene: Scene<B>, time: u64)
    requires
        scene.wf(),
        scene.roots_spec().len() == 0,
    ensures
        scene.frame_spec(time) == blank_pixels((scene.width_spec() * scene.height_spec()) as nat),
{
    assert(scene.root_stack() =~= Seq::<Visit>::empty());
}

/// A node whose rectangle lies wholly outside the frame, by its position
/// or its size, leaves every pixel as it was.
pub proof fn lemma_offscreen_node_paints_nothing<B: Behaviour>(frame: Seq<Rgba>, w: u32, h: u32, v: Visit, n: Renderable<B>, time: u64)
    requires
        ({
            let r = node_rect(v, n.params, w, h);
            r.left + r.width <= 0 || r.left >= w || r.top + r.height <= 0 || r.top >= h
                || r.width <= 0 || r.height <= 0
        }),
    ensures
        paint_node_spec(frame, w, h, v, n, time) == frame,
{
    assert(paint_node_spec(frame, w, h, v, n, time) =~= frame);
}

/// Making a childless node whose rectangle lies wholly outside the frame a
/// top-level node too leaves every rendered frame as it was.
pub proof fn lemma_offscreen_root_changes_nothing<B: Behaviour>(s1: Scene<B>, s2: Scene<B>, r: usize, time: u64)
    requires
        s1.wf(),
        s2.wf(),
        s2.nodes_spec() == s1.nodes_spec(),
        s2.roots_spec() == s1.roots_spec().push(r),
        s2.width_spec() == s1.width_spec(),
        s2.height_spec() == s1.height_spec(),
        s1.nodes_spec()[r as int].children@.len() == 0,
        ({
            let v = Visit { offset: Point { x: 0, y: 0 }, scale: Point { x: ONE, y: ONE }, node: r };
            let rect = node_rect(v, s1.nodes_spec()[r as int].params, s1.width_spec(), s1.height_spec());
            rect.left + rect.width <= 0 || rect.left >= s1.width_spec() || rect.top + rect.height <= 0
                || rect.top >= s1.height_spec() || rect.width <= 0 || rect.height <= 0
        }),
    ensures
        s2.frame_spec(time) == s1.frame_spec(time),
{
    let nodes = s1.nodes_spec();
    let w = s1.width_spec();
    let h = s1.height_spec();
    let v = Visit { offset: Point { x: 0, y: 0 }, scale: Point { x: ONE, y: ONE }, node: r };
    let st1 = s1.root_stack();
    let st2 = s2.root_stack();
    assert(s2.roots_spec()[s1.roots_spec().len() as int] == r);
    assert(st2 =~= st1.push(v));
    assert(st2.drop_last() =~= st1);
    assert(node_weight(nodes, r as int) == 1);
    let wt = stack_weight(nodes, st1);
    assert(stack_weight(nodes, st2) == wt + 1);
    let cv = child_visits(nodes, w, h, v);
    assert(cv =~= Seq::<Visit>::empty());
    assert(st2.drop_last() + cv =~= st1);
    let rest = visits(nodes, w, h, st1, wt);
    assert(s2.visit_order() == seq![v] + rest);
    let blank = blank_pixels((w * h) as nat);
    lemma_offscreen_node_paints_nothing(blank, w, h, v, nodes[r as int], time);
    assert((seq![v] + rest)[0] == v);
    assert((seq![v] + rest).drop_first() =~= rest);
}

/// A single unrotated, fully opaque node of constant colour `c` that covers
/// the whole frame paints every pixel `c`.
pub proof fn lemma_full_opaque_node_fills_frame<B: Behaviour>(scene: Scene<B>, c: Rgba, time: u64)
    requires
        scene.wf(),
        scene.width_spec() > 0,
        scene.height_spec() > 0,
        scene.roots_spec() == seq![0usize],
        scene.nodes_spec().len() == 1,
        scene.nodes_spec()[0].params == RenderableParams::default_spec(),
        c.a == 255,
        forall|f: Seq<Rgba>, uv: Point| #[trigger] scene.nodes_spec()[0].behaviour.shade_spec(f, uv, time) == c,
    ensures
        scene.frame_spec(time) == Seq::new((scene.width_spec() * scene.height_spec()) as nat, |k: int| c),
{
    let nodes = scene.nodes_spec();
    let w = scene.width_spec();
    let h = scene.height_spec();
    let n = nodes[0];
    let v = Visit { offset: Point { x: 0, y: 0 }, scale: Point { x: ONE, y: ONE }, node: 0 };
    assert(scene.root_stack() =~= seq![v]);
    assert(n.children@.len() == 0) by {
        if n.children@.len() > 0 {
            assert(0 < n.children@[0] < nodes.len());
        }
    }
    assert(node_weight(nodes, 0) == 1);
    assert(stack_weight(nodes, seq![v]) == 1) by {
        assert(seq![v].drop_last() =~= Seq::<Visit>::empty());
        assert(stack_weight(nodes, Seq::<Visit>::empty()) == 0);
        assert(seq![v].last() == v);
    }
    let cv = child_visits(nodes, w, h, v);
    assert(cv =~= Seq::<Visit>::empty());
    assert(seq![v].drop_last() + cv =~= Seq::<Visit>::empty());
    assert(seq![v].last() == v);
    assert(visits(nodes, w, h, Seq::<Visit>::empty(), 0) == Seq::<Visit>::empty());
    assert(scene.visit_order() == seq![v] + Seq::<Visit>::empty());
    assert(scene.visit_order() =~= seq![v]);
    let blank = blank_pixels((w * h) as nat);
    assert(seq![v].drop_first() =~= Seq::<Visit>::empty());
    let painted = paint_node_spec(blank, w, h, v, n, time);
    assert(seq![v][0] == v);
    assert(paint_visits(nodes, w, h, painted, Seq::<Visit>::empty(), time) == painted);
    assert(paint_visits(nodes, w, h, blank, seq![v], time) == paint_visits(nodes, w, h, painted, seq![v].drop_first(), time));
    assert(scene.frame_spec(time) == painted);
    let r = node_rect(v, n.params, w, h);
    vstd::arithmetic::div_mod::lemma_div_by_multiple(ONE as int, ONE as int);
    vstd::arithmetic::div_mod::lemma_div_by_multiple(w as int, ONE * ONE);
    vstd::arithmetic::div_mod::lemma_div_by_multiple(h as int, ONE * ONE);
    assert(ONE * (w as int) * ONE == (w as int) * (ONE * ONE)) by (nonlinear_arith);
    assert(ONE * (h as int) * ONE == (h as int) * (ONE * ONE)) by (nonlinear_arith);
    assert(r == ScreenRect { left: 0, top: 0, width: w as i64, height: h as i64 });
    assert forall|k: int| 0 <= k < w * h implies #[trigger] paint_node_spec(blank, w, h, v, n, time)[k] == c by {
        vstd::arithmetic::div_mod::lemma_fundamental_div_mod(k, w as int);
        assert(0 <= k % (w as int) < w);
        assert(0 <= k / (w as int) < h) by (nonlinear_arith)
            requires
                0 <= k < w * h,
                w > 0,
        ;
        crate::color::lemma_opaque_composite(c, blank[k]);
    }
    assert(scene.frame_spec(time) =~= Seq::new((w * h) as nat, |k: int| c));
}

/// Rescaling a node never moves its own anchor, the top-left corner of its
/// rectangle, which depends on the position and the inherited scale only;
/// only the rectangle's extent changes, to the size times the new scale it
/// hands down, and its children start from the same anchor.
pub proof fn lemma_rescale_keeps_anchor(v: Visit, p: RenderableParams, scale: Point, w: u32, h: u32)
    ensures
        anchor(v, RenderableParams { scale, ..p }, w, h) == anchor(v, p, w, h),
        node_rect(v, RenderableParams { scale, ..p }, w, h).left == node_rect(v, p, w, h).left,
        node_rect(v, RenderableParams { scale, ..p }, w, h).top == node_rect(v, p, w, h).top,
        node_rect(v, RenderableParams { scale, ..p }, w, h).width == extent_spec(
            p.size.x as int,
            w as int,
            next_scale_spec(v.scale.x as int, scale.x as int),
        ),
        node_rect(v, RenderableParams { scale, ..p }, w, h).height == extent_spec(
            p.size.y as int,
            h as int,
            next_scale_spec(v.scale.y as int, scale.y as int),
        ),
{
    let q = RenderableParams { scale, ..p };
    assert(-MAX_SCALE <= next_scale_spec(v.scale.x as int, scale.x as int) <= MAX_SCALE);
    assert(-MAX_SCALE <= next_scale_spec(v.scale.y as int, scale.y as int) <= MAX_SCALE);
    assert(inherited_scale(v, q).x == next_scale_spec(v.scale.x as int, scale.x as int));
    assert(inherited_scale(v, q).y == next_scale_spec(v.scale.y as int, scale.y as int));
}

/// Multiplying a parent's scale by `k` multiplies, by `k`, the scale its
/// children inherit and, where no rounding or saturation intervenes, each
/// child's extent and its displacement from the parent's anchor.
pub proof fn lemma_rescale_is_proportional(residual: int, own: int, k: int, position: int, size: int, resolution: int)
    requires
        k >= 1,
        residual * own % (ONE as int) == 0,
        -MAX_SCALE <= k * (residual * own / (ONE as int)) <= MAX_SCALE,
        position * resolution * (residual * own / (ONE as int)) % (ONE * ONE) == 0,
        size * resolution * (residual * own / (ONE as int)) % (ONE * ONE) == 0,
        -MAX_COORD <= k * (size * resolution * (residual * own / (ONE as int)) / (ONE * ONE)) <= MAX_COORD,
    ensures
        next_scale_spec(residual, k * own) == k * next_scale_spec(residual, own),
        round_div(position * resolution * next_scale_spec(residual, k * own), ONE * ONE)
            == k * round_div(position * resolution * next_scale_spec(residual, own), ONE * ONE),
        extent_spec(size, resolution, next_scale_spec(residual, k * own))
            == k * extent_spec(size, resolution, next_scale_spec(residual, own)),
{
    let o = ONE as int;
    let s = residual * own / o;
    assert(residual * own == s * o) by {
        vstd::arithmetic::div_mod::lemma_fundamental_div_mod(residual * own, o);
    }
    assert(residual * (k * own) == (k * s) * o) by (nonlinear_arith)
        requires
            residual * own == s * o,
    ;
    lemma_exact_trunc(k * s, o);
    lemma_exact_trunc(s, o);
    assert(-MAX_SCALE <= s <= MAX_SCALE) by (nonlinear_arith)
        requires
            -MAX_SCALE <= k * s <= MAX_SCALE,
            k >= 1,
    ;
    assert(next_scale_spec(residual, own) == s);
    assert(next_scale_spec(residual, k * own) == k * s);
    let d = ONE * ONE;
    let pp = position * resolution * s;
    let q = pp / d;
    assert(pp == q * d) by {
        vstd::arithmetic::div_mod::lemma_fundamental_div_mod(pp, d);
    }
    assert(position * resolution * (k * s) == (k * q) * d) by (nonlinear_arith)
        requires
            pp == q * d,
            pp == position * resolution * s,
    ;
    lemma_exact_round(q, d);
    lemma_exact_round(k * q, d);
    let zz = size * resolution * s;
    let e = zz / d;
    assert(zz == e * d) by {
        vstd::arithmetic::div_mod::lemma_fundamental_div_mod(zz, d);
    }
    assert(size * resolution * (k * s) == (k * e) * d) by (nonlinear_arith)
        requires
            zz == e * d,
            zz == size * resolution * s,
    ;
    lemma_exact_trunc(e, d);
    lemma_exact_trunc(k * e, d);
    assert(-MAX_COORD <= e <= MAX_COORD) by (nonlinear_arith)
        requires
            -MAX_COORD <= k * e <= MAX_COORD,
            k >= 1,
    ;
}

proof fn lemma_exact_trunc(q: int, d: int)
    requires
        d > 0,
    ensures
        trunc_div(q * d, d) == q,
{
    if q >= 0 {
        assert(q * d >= 0) by (nonlinear_arith)
            requires
                q >= 0,
                d > 0,
        ;
        vstd::arithmetic::div_mod::lemma_div_by_multiple(q, d);
    } else {
        assert(q * d < 0) by (nonlinear_arith)
            requires
                q < 0,
                d > 0,
        ;
        assert(-(q * d) == (-q) * d) by (nonlinear_arith);
        vstd::arithmetic::div_mod::lemma_div_by_multiple(-q, d);
    }
}

proof fn lemma_exact_round(q: int, d: int)
    requires
        d > 1,
        d % 2 == 0,
    ensures
        round_div(q * d, d) == q,
{
    let half = d / 2;
    assert(0 <= half < d);
    if q >= 0 {
        assert(q * d >= 0) by (nonlinear_arith)
            requires
                q >= 0,
                d > 0,
        ;
        vstd::arithmetic::div_mod::lemma_fundamental_div_mod_converse(q * d + half, d, q, half);
    } else {
        assert(q * d < 0) by (nonlinear_arith)
            requires
                q < 0,
                d > 0,
        ;
        assert(-(q * d) == (-q) * d) by (nonlinear_arith);
        vstd::arithmetic::div_mod::lemma_fundamental_div_mod_converse(-(q * d) + half, d, -q, half);
    }
}

} // verus!
