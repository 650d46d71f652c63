use shanimation_rs::color::{composite, mix_alpha, mix_channel, Rgba};

#[test]
fn blend_worked_example() {
    let src = Rgba::new(255, 0, 0, 128);
    let dst = Rgba::new(0, 0, 255, 255);
    let out = composite(src, dst);
    assert_eq!(out, Rgba::new(128, 0, 127, 255));
}

#[test]
fn opaque_source_replaces_destination() {
    let src = Rgba::new(10, 20, 30, 255);
    let dst = Rgba::new(200, 100, 50, 77);
    assert_eq!(composite(src, dst), src);
}

#[test]
fn transparent_source_keeps_destination_colour() {
    let src = Rgba::new(10, 20, 30, 0);
    let dst = Rgba::new(200, 100, 50, 77);
    assert_eq!(composite(src, dst), Rgba::new(200, 100, 50, 77));
}

#[test]
fn mix_channel_rounds_to_nearest() {
    // (100 * 100 + 0 * 155) / 255 = 39.2..., rounds down
    assert_eq!(mix_channel(100, 0, 100), 39);
    // (200 * 100 + 0) / 255 = 78.43..., rounds down; (255 * 1) / 255 = 1
    assert_eq!(mix_channel(200, 0, 100), 78);
    assert_eq!(mix_channel(255, 0, 1), 1);
    // (1 * 128 + 0) / 255 = 0.50..., rounds up
    assert_eq!(mix_channel(1, 0, 128), 1);
}

#[test]
fn mix_alpha_accumulates() {
    assert_eq!(mix_alpha(0, 0), 0);
    assert_eq!(mix_alpha(0, 200), 200);
    // 100 + 100 * 155 / 255 = 100 + 60
    assert_eq!(mix_alpha(100, 100), 160);
    assert_eq!(mix_alpha(255, 255), 255);
}
