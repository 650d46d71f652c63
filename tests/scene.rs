use shanimation_rs::behaviour::{Behaviour, FrameView, RenderableParams};
use shanimation_rs::color::Rgba;
use shanimation_rs::errors::{RenderableBuilderError, SceneBuilderError};
use shanimation_rs::frame::Img;
use shanimation_rs::geometry::{Point, Rotation, ONE};
use shanimation_rs::scene::{RateControlMode, Renderable, Scene};

#[derive(Clone)]
struct Paint {
    colour: Rgba,
    updates: u64,
}

impl Behaviour for Paint {
    fn update_spec(&self, params: RenderableParams, _time: u64, next: Self, next_params: RenderableParams) -> bool {
        next.colour == self.colour && next.updates == self.updates + 1 && next_params == params
    }

    fn shade_spec(&self, _frame: FrameView, _uv: Point, _time: u64) -> Rgba {
        self.colour
    }

    fn update(&mut self, _params: &mut RenderableParams, _time: u64) {
        self.updates += 1;
    }

    fn shade(&self, _frame: &Img, _uv: Point, _time: u64) -> Rgba {
        self.colour
    }

    fn duplicate(&self) -> Self {
        self.clone()
    }
}

fn paint(colour: Rgba) -> Paint {
    Paint { colour, updates: 0 }
}

fn node(colour: Rgba, position: Point, size: Point) -> Renderable<Paint> {
    let mut b = Renderable::builder();
    b.with_position(position).with_size(size).with_behaviour(paint(colour));
    b.build().unwrap()
}

fn scene(w: u32, h: u32) -> Scene<Paint> {
    let mut b = Scene::builder();
    b.with_resolution(w, h).with_fps(30).with_length(1_000_000_000);
    b.build().unwrap()
}

fn count(img: &Img, c: Rgba) -> usize {
    img.pixels().iter().filter(|p| **p == c).count()
}

const RED: Rgba = Rgba { r: 255, g: 0, b: 0, a: 255 };
const BLUE: Rgba = Rgba { r: 0, g: 0, b: 255, a: 255 };
const CLEAR: Rgba = Rgba { r: 0, g: 0, b: 0, a: 0 };

#[test]
fn empty_scene_renders_transparent() {
    let s = scene(4, 3);
    for t in [0u64, 500_000_000] {
        let img = s.render_frame(0, t);
        assert_eq!(img.width(), 4);
        assert_eq!(img.height(), 3);
        assert_eq!(img.pixels().len(), 12);
        assert_eq!(count(&img, CLEAR), 12);
    }
}

#[test]
fn full_opaque_node_fills_frame() {
    let mut s = scene(6, 4);
    s.add_child_simple(node(RED, Point::new(0, 0), Point::new(ONE, ONE)));
    for t in [0u64, 33_333_333, 900_000_000] {
        let img = s.render_frame(0, t);
        assert_eq!(count(&img, RED), 24);
    }
}

#[test]
fn offscreen_node_contributes_nothing() {
    let mut s = scene(8, 8);
    s.add_child_simple(node(RED, Point::new(2 * ONE, 0), Point::new(ONE / 2, ONE / 2)));
    s.add_child_simple(node(RED, Point::new(-ONE, -ONE), Point::new(ONE / 2, ONE / 2)));
    s.add_child_simple(node(RED, Point::new(0, 0), Point::new(0, ONE)));
    s.add_child_simple(node(RED, Point::new(0, 0), Point::new(-ONE, ONE)));
    let img = s.render_frame(0, 0);
    assert_eq!(count(&img, CLEAR), 64);
}

#[test]
fn partly_offscreen_node_is_cropped() {
    let mut s = scene(8, 8);
    s.add_child_simple(node(RED, Point::new(3 * ONE / 4, 3 * ONE / 4), Point::new(ONE / 2, ONE / 2)));
    let img = s.render_frame(0, 0);
    assert_eq!(count(&img, RED), 4);
    assert_eq!(img.get_pixel(7, 7), RED);
    assert_eq!(img.get_pixel(5, 5), CLEAR);
}

fn rotated_scene(rotation: Rotation) -> Img {
    let mut s = scene(8, 8);
    let idx = s.add_child_simple(node(RED, Point::new(ONE / 4, ONE / 4), Point::new(ONE / 2, ONE / 2)));
    let mut p = s.node(idx).params;
    p.rotation = rotation;
    s.set_params(idx, p);
    s.render_frame(0, 0)
}

#[test]
fn full_turn_matches_unrotated() {
    let turn = 2.0 * std::f64::consts::PI;
    let rotation = Rotation::new(
        (turn.cos() * ONE as f64).round() as i64,
        (turn.sin() * ONE as f64).round() as i64,
    );
    let unrotated = rotated_scene(Rotation::identity());
    let turned = rotated_scene(rotation);
    assert_eq!(unrotated.pixels(), turned.pixels());
    assert_eq!(count(&turned, RED), 16);
}

#[test]
fn quarter_turn_keeps_square_silhouette() {
    let img = rotated_scene(Rotation::new(0, ONE));
    assert_eq!(count(&img, RED), 16);
    assert_eq!(img.get_pixel(2, 2), RED);
    assert_eq!(img.get_pixel(5, 5), RED);
    assert_eq!(img.get_pixel(1, 1), CLEAR);
}

#[test]
fn eighth_turn_clears_corners() {
    let img = rotated_scene(Rotation::new(46341, 46341));
    assert_eq!(img.get_pixel(2, 2), CLEAR);
    assert_eq!(img.get_pixel(4, 4), RED);
    assert!(count(&img, RED) < 16);
}

#[test]
fn later_sibling_is_drawn_first() {
    let mut s = scene(4, 4);
    s.add_child_simple(node(RED, Point::new(0, 0), Point::new(ONE, ONE)));
    s.add_child_simple(node(BLUE, Point::new(0, 0), Point::new(ONE, ONE)));
    let img = s.render_frame(0, 0);
    assert_eq!(count(&img, RED), 16);
}

#[test]
fn rescaling_parent_scales_children() {
    let mut s = scene(16, 16);
    let parent = s.add_child_simple(node(CLEAR, Point::new(ONE / 4, ONE / 4), Point::new(0, 0)));
    s.add_child_to(parent, node(RED, Point::new(0, 0), Point::new(ONE / 4, ONE / 4)));
    let img = s.render_frame(0, 0);
    assert_eq!(count(&img, RED), 16);
    assert_eq!(img.get_pixel(4, 4), RED);
    assert_eq!(img.get_pixel(7, 7), RED);
    assert_eq!(img.get_pixel(8, 8), CLEAR);

    let mut p = s.node(parent).params;
    p.scale = Point::new(2 * ONE, 2 * ONE);
    s.set_params(parent, p);
    let img = s.render_frame(0, 0);
    assert_eq!(count(&img, RED), 64);
    assert_eq!(img.get_pixel(4, 4), RED);
    assert_eq!(img.get_pixel(11, 11), RED);
    assert_eq!(img.get_pixel(3, 3), CLEAR);
    assert_eq!(img.get_pixel(12, 12), CLEAR);
}

#[test]
fn child_offset_follows_inherited_scale() {
    let mut s = scene(16, 16);
    let parent = s.add_child_simple(node(CLEAR, Point::new(0, 0), Point::new(0, 0)));
    let mut p = s.node(parent).params;
    p.scale = Point::new(ONE / 2, ONE / 2);
    s.set_params(parent, p);
    s.add_child_to(parent, node(RED, Point::new(ONE / 2, ONE / 2), Point::new(ONE / 2, ONE / 2)));
    let img = s.render_frame(0, 0);
    // anchored at 16 * 0.5 * 0.5 = 4, extent 16 * 0.5 * 0.5 = 4
    assert_eq!(count(&img, RED), 16);
    assert_eq!(img.get_pixel(4, 4), RED);
    assert_eq!(img.get_pixel(7, 7), RED);
}

#[test]
fn shared_node_updates_once() {
    let mut s = scene(4, 4);
    let a = s.add_child_simple(node(CLEAR, Point::new(0, 0), Point::new(0, 0)));
    let b = s.add_child_simple(node(CLEAR, Point::new(0, 0), Point::new(0, 0)));
    let shared = s.add_child_to(a, node(RED, Point::new(0, 0), Point::new(ONE / 2, ONE / 2)));
    assert!(s.link_child(b, shared));
    let next = s.node_count();
    let mut leaf = Renderable::builder();
    leaf.with_behaviour(paint(BLUE));
    let grandchild = s.add_child_to(shared, leaf.build().unwrap());
    assert_eq!(grandchild, next);
    s.run_behaviours(0);
    assert_eq!(s.node(a).behaviour.updates, 1);
    assert_eq!(s.node(b).behaviour.updates, 1);
    assert_eq!(s.node(shared).behaviour.updates, 1);
    assert_eq!(s.node(grandchild).behaviour.updates, 1);
}

#[test]
fn run_behaviours_keeps_structure() {
    let mut s = scene(4, 4);
    let root = s.add_child_simple(node(RED, Point::new(0, 0), Point::new(ONE, ONE)));
    let mut b = Renderable::builder();
    b.with_behaviour(paint(BLUE));
    let child = s.add_child_to(root, b.build().unwrap());
    assert!(!s.link_child(child, root));
    s.run_behaviours(5);
    assert_eq!(s.node(root).behaviour.updates, 1);
    assert_eq!(s.node(child).behaviour.updates, 1);
    assert_eq!(s.get_children(), &vec![root]);
    assert_eq!(s.node(root).get_children(), &vec![child]);
}

#[test]
fn link_child_refuses_cycles() {
    let mut s = scene(4, 4);
    let a = s.add_child_simple(node(RED, Point::new(0, 0), Point::new(ONE, ONE)));
    let b = s.add_child_to(a, node(RED, Point::new(0, 0), Point::new(ONE, ONE)));
    assert!(!s.link_child(b, a));
    assert!(!s.link_child(a, a));
    assert!(!s.link_child(a, 99));
    assert!(s.link_child(a, b));
    assert_eq!(s.node(a).get_children(), &vec![b, b]);
}

#[test]
fn scene_builder_requires_length() {
    let mut b = Scene::<Paint>::builder();
    b.with_resolution(4, 4).with_fps(30);
    assert_eq!(b.build().err(), Some(SceneBuilderError));
    b.with_length(2_000_000_000);
    let s = b.build().unwrap();
    assert_eq!(s.width(), 4);
    assert_eq!(s.fps(), 30);
    assert_eq!(s.length(), 2_000_000_000);
    assert_eq!(s.rate_control_mode(), RateControlMode::Bufferbased);
}

#[test]
fn scene_builder_adds_top_level_nodes() {
    let mut b = Scene::builder();
    b.with_length(1).add_child(node(RED, Point::new(0, 0), Point::new(ONE, ONE)));
    b.add_child(node(BLUE, Point::new(0, 0), Point::new(ONE, ONE)));
    let s = b.build().unwrap();
    assert_eq!(s.width(), 1280);
    assert_eq!(s.height(), 720);
    assert_eq!(s.node_count(), 2);
    assert_eq!(s.get_children(), &vec![0, 1]);
    assert_eq!(s.node(1).behaviour.colour, BLUE);
}

#[test]
fn renderable_builder_requires_behaviour() {
    let mut b = Renderable::<Paint>::builder();
    b.with_position(Point::new(1, 2)).with_scale(Point::new(3, 4)).with_rotation(Rotation::new(0, ONE));
    assert_eq!(b.build().err(), Some(RenderableBuilderError));
    b.with_behaviour(paint(RED));
    let n = b.build().unwrap();
    assert_eq!(n.params.position, Point::new(1, 2));
    assert_eq!(n.params.size, Point::new(ONE, ONE));
    assert_eq!(n.params.scale, Point::new(3, 4));
    assert_eq!(n.params.rotation, Rotation::new(0, ONE));
    assert!(n.get_children().is_empty());
}

#[test]
fn frame_count_and_times() {
    let mut b = Scene::<Paint>::builder();
    b.with_fps(30).with_length(10_000_000_000);
    let s = b.build().unwrap();
    assert_eq!(s.frame_count(), 300);
    assert_eq!(s.frame_time(0), 0);
    assert_eq!(s.frame_time(1), 33_333_333);
    assert_eq!(s.frame_time(299), 9_966_666_666);
    let mut b = Scene::<Paint>::builder();
    b.with_fps(24).with_length(1_500_000_000);
    assert_eq!(b.build().unwrap().frame_count(), 36);
    let mut b = Scene::<Paint>::builder();
    b.with_fps(30).with_length(33_000_000);
    assert_eq!(b.build().unwrap().frame_count(), 0);
}

#[test]
fn snapshot_renders_like_the_live_scene() {
    let mut s = scene(6, 6);
    let a = s.add_child_simple(node(RED, Point::new(0, 0), Point::new(ONE / 2, ONE / 2)));
    s.add_child_to(a, node(BLUE, Point::new(ONE / 2, 0), Point::new(ONE / 3, ONE)));
    let copy = s.clone_entire();
    assert_eq!(copy.node_count(), s.node_count());
    assert_eq!(copy.node(a).get_children(), s.node(a).get_children());
    assert_eq!(copy.render_frame(0, 0).pixels(), s.render_frame(0, 0).pixels());
}

#[test]
fn step_frame_updates_then_snapshots() {
    let mut s = scene(4, 4);
    let a = s.add_child_simple(node(RED, Point::new(0, 0), Point::new(ONE, ONE)));
    let (snap, time) = s.step_frame(3);
    assert_eq!(time, 100_000_000);
    assert_eq!(s.node(a).behaviour.updates, 1);
    assert_eq!(snap.node(a).params, s.node(a).params);
    assert_eq!(snap.node(a).behaviour.updates, 1);
    let (_, _) = s.step_frame(4);
    assert_eq!(s.node(a).behaviour.updates, 2);
    assert_eq!(snap.node(a).behaviour.updates, 1);
}

#[test]
fn offscreen_root_changes_nothing() {
    let mut s = scene(8, 8);
    let a = s.add_child_simple(node(RED, Point::new(0, 0), Point::new(ONE / 2, ONE / 2)));
    let off = s.add_child_to(a, node(BLUE, Point::new(-2 * ONE, 0), Point::new(ONE, ONE)));
    let before = s.render_frame(0, 0);
    s.add_child(off);
    let after = s.render_frame(0, 0);
    assert_eq!(before.pixels(), after.pixels());
    assert_eq!(count(&after, RED), 16);
}
