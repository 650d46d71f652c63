use shanimation_rs::pipeline::FrameCollector;

fn drain(c: &mut FrameCollector<Vec<u8>>, out: &mut Vec<Vec<u8>>) {
    while let Some(f) = c.pop_ready() {
        out.push(f);
    }
}

fn frame(i: usize) -> Vec<u8> {
    vec![i as u8, (i * 7) as u8, 3]
}

fn run(order: &[usize]) -> Vec<Vec<u8>> {
    let mut c = FrameCollector::new(order.len());
    let mut out = vec![];
    for &i in order {
        assert!(c.accept(i, frame(i)));
        drain(&mut c, &mut out);
    }
    assert!(c.is_done());
    out
}

#[test]
fn frames_leave_in_index_order() {
    let n = 60;
    let in_order: Vec<usize> = (0..n).collect();
    let reference = run(&in_order);
    assert_eq!(reference, (0..n).map(frame).collect::<Vec<_>>());

    let reversed: Vec<usize> = (0..n).rev().collect();
    assert_eq!(run(&reversed), reference);

    // a fixed shuffle: multiply by a unit modulo the frame count
    let shuffled: Vec<usize> = (0..n).map(|i| (i * 37 + 11) % n).collect();
    let mut seen = shuffled.clone();
    seen.sort();
    assert_eq!(seen, in_order);
    assert_eq!(run(&shuffled), reference);
}

#[test]
fn early_frames_wait_for_earlier_ones() {
    let mut c = FrameCollector::new(3);
    assert!(c.accept(2, frame(2)));
    assert!(c.accept(1, frame(1)));
    assert_eq!(c.pop_ready(), None);
    assert!(c.accept(0, frame(0)));
    assert_eq!(c.pop_ready(), Some(frame(0)));
    assert_eq!(c.pop_ready(), Some(frame(1)));
    assert_eq!(c.pop_ready(), Some(frame(2)));
    assert_eq!(c.pop_ready(), None);
    assert!(c.is_done());
}

#[test]
fn duplicate_and_out_of_range_frames_are_refused() {
    let mut c = FrameCollector::new(2);
    assert!(!c.accept(2, frame(2)));
    assert!(c.accept(0, frame(0)));
    assert!(!c.accept(0, frame(9)));
    assert_eq!(c.pop_ready(), Some(frame(0)));
    assert!(!c.accept(0, frame(0)));
    assert!(!c.is_done());
}

#[test]
fn empty_render_is_done_at_once() {
    let mut c: FrameCollector<Vec<u8>> = FrameCollector::new(0);
    assert!(c.is_done());
    assert_eq!(c.pop_ready(), None);
}
