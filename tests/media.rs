use shanimation_rs::behaviour::Behaviour;
use shanimation_rs::color::Rgba;
use shanimation_rs::encoding::{rgba_to_rgb, rgba_to_yuv};
use shanimation_rs::frame::Img;
use shanimation_rs::geometry::{Point, ONE};
use shanimation_rs::rendered_image::RendreableImage;

#[test]
fn image_pixels_round_trip() {
    let mut img = Img::new(3, 2);
    assert!(img.is_valid());
    assert_eq!(img.get_pixel(2, 1), Rgba::transparent());
    img.set_pixel(2, 1, Rgba::new(1, 2, 3, 4));
    assert_eq!(img.get_pixel(2, 1), Rgba::new(1, 2, 3, 4));
    assert_eq!(img.pixels()[5], Rgba::new(1, 2, 3, 4));
    let copy = img.snapshot();
    assert_eq!(copy.pixels(), img.pixels());
}

#[test]
fn rgb_drops_alpha() {
    let mut img = Img::new(2, 1);
    img.set_pixel(0, 0, Rgba::new(1, 2, 3, 4));
    img.set_pixel(1, 0, Rgba::new(5, 6, 7, 8));
    assert_eq!(rgba_to_rgb(&img), vec![1, 2, 3, 5, 6, 7]);
}

#[test]
fn yuv_of_black_frame() {
    let mut img = Img::new(2, 2);
    for y in 0..2 {
        for x in 0..2 {
            img.set_pixel(x, y, Rgba::new(0, 0, 0, 255));
        }
    }
    assert_eq!(rgba_to_yuv(&img), Some(vec![16, 16, 16, 16, 128, 128]));
}

#[test]
fn yuv_needs_even_sides() {
    assert_eq!(rgba_to_yuv(&Img::new(3, 2)), None);
    assert_eq!(rgba_to_yuv(&Img::new(2, 1)), None);
    assert_eq!(rgba_to_yuv(&Img::new(4, 2)).map(|v| v.len()), Some(12));
}

#[test]
fn image_behaviour_samples_with_v_up() {
    let mut img = Img::new(2, 2);
    img.set_pixel(0, 0, Rgba::new(1, 0, 0, 255));
    img.set_pixel(1, 0, Rgba::new(2, 0, 0, 255));
    img.set_pixel(0, 1, Rgba::new(3, 0, 0, 255));
    img.set_pixel(1, 1, Rgba::new(4, 0, 0, 255));
    let b = RendreableImage::new(img);
    // v = 1 is the top row
    assert_eq!(b.sample(Point::new(0, ONE)), Rgba::new(1, 0, 0, 255));
    assert_eq!(b.sample(Point::new(ONE, ONE)), Rgba::new(2, 0, 0, 255));
    assert_eq!(b.sample(Point::new(0, 0)), Rgba::new(3, 0, 0, 255));
    assert_eq!(b.sample(Point::new(ONE, 0)), Rgba::new(4, 0, 0, 255));
    assert_eq!(b.sample(Point::new(ONE / 2 - 1, ONE / 2 + 1)), Rgba::new(1, 0, 0, 255));
    assert_eq!(b.sample(Point::new(-5, 3 * ONE)), Rgba::new(1, 0, 0, 255));
    let frame = Img::new(1, 1);
    assert_eq!(b.shade(&frame, Point::new(ONE, 0), 0), Rgba::new(4, 0, 0, 255));
}

#[test]
fn empty_image_shows_nothing() {
    let b = RendreableImage::new(Img::new(0, 0));
    assert_eq!(b.sample(Point::new(0, 0)), Rgba::transparent());
}
