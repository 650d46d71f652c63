use shanimation_rs::frame_dictionary::FrameDict;

#[test]
fn listing_names_each_frame() {
    let text = String::from_utf8(FrameDict { frame_count: 3 }.listing()).unwrap();
    assert_eq!(text, "file '1.png'\nfile '2.png'\nfile '3.png'\n");
}

#[test]
fn listing_of_many_frames() {
    let text = String::from_utf8(FrameDict { frame_count: 105 }.listing()).unwrap();
    let expected: String = (1..=105).map(|i| format!("file '{}.png'\n", i)).collect();
    assert_eq!(text, expected);
}

#[test]
fn empty_listing() {
    assert!(FrameDict { frame_count: 0 }.listing().is_empty());
}
