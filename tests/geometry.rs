use shanimation_rs::geometry::{extent, next_offset, next_scale, Point, Rotation, ONE};
use shanimation_rs::raster::{pixel_uv, to_uv, ScreenRect};

#[test]
fn point_maps_and_length() {
    let p = Point::new(3, -4);
    assert_eq!(p.length_squared(), 25);
    assert_eq!(p.map_x(|x| x * 2), Point::new(6, -4));
    assert_eq!(p.map_y(|y| y + 1), Point::new(3, -3));
    assert_eq!(p.map_both(|v| v - 1), Point::new(2, -5));
    let big = Point::new(i64::MIN, i64::MIN);
    assert_eq!(big.length_squared(), 2 * (1u128 << 126));
}

#[test]
fn scale_offset_and_extent() {
    // half of a half is a quarter
    assert_eq!(next_scale(ONE / 2, ONE / 2), ONE / 4);
    // a quarter of 1280 pixels at full scale
    assert_eq!(next_offset(0, ONE / 4, 1280, ONE), 320);
    // the offset rounds to the nearest pixel: 1/3 of 100 = 33.33...
    assert_eq!(next_offset(10, ONE / 3, 100, ONE), 10 + 33);
    // 0.999 of 2 pixels rounds up to 2
    assert_eq!(next_offset(0, ONE - 33, 2, ONE), 2);
    // the extent rounds toward zero
    assert_eq!(extent(ONE / 3, 100, ONE), 33);
    assert_eq!(extent(-(ONE / 3), 100, ONE), -33);
    // a doubled scale doubles the extent
    assert_eq!(extent(ONE / 4, 720, 2 * ONE), 360);
}

#[test]
fn uv_of_unrotated_rectangle() {
    let tl = Point::new(10, 20);
    let br = Point::new(14, 24);
    assert_eq!(to_uv(tl, br, Point::new(10, 20)), Point::new(0, ONE));
    assert_eq!(to_uv(tl, br, Point::new(12, 22)), Point::new(ONE / 2, ONE / 2));
    assert_eq!(to_uv(tl, br, Point::new(13, 23)), Point::new(3 * ONE / 4, ONE / 4));
}

#[test]
fn rotated_uv_leaves_corners_uncovered() {
    let r = ScreenRect { left: 0, top: 0, width: 8, height: 8 };
    // 45 degrees: cos = sin = 0.7071
    let rot = Rotation::new(46341, 46341);
    assert_eq!(pixel_uv(r, rot, 0, 0), None);
    assert!(pixel_uv(r, rot, 4, 4).is_some());
    // identity: every pixel covered, same UV as the plain mapping
    let id = Rotation::identity();
    assert_eq!(pixel_uv(r, id, 0, 0), Some(Point::new(0, ONE)));
    // a half turn flips both coordinates about the centre
    let half = Rotation::new(-ONE, 0);
    assert_eq!(pixel_uv(r, half, 2, 2), Some(Point::new(3 * ONE / 4, ONE / 4)));
}

#[test]
fn point_add_and_sub_assign() {
    let mut p = Point::new(3, -4);
    p.add_assign(Point::new(10, 20));
    assert_eq!(p, Point::new(13, 16));
    p.sub_assign(Point::new(13, 20));
    assert_eq!(p, Point::new(0, -4));
}
