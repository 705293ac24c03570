use tifflin::video::{diff_keys, translate_keycode, Dims, KeyCode, KeyTracker, Rect, State, HOST_KEY_A};

#[test]
fn new_state() {
    let mut s = State::new();
    assert_eq!(s.get_size(), Dims::new(640, 480));
    assert_eq!(s.get_size().width(), 640);
    assert_eq!(s.get_size().height(), 480);
    assert_eq!(s.backbuffer().len(), 640 * 480);
    assert!(s.take_dirty());
    assert!(!s.take_dirty());
}

#[test]
fn blit_copies_rows() {
    let mut s = State::new();
    s.take_dirty();
    let src: Vec<u32> = (1..=6).collect();
    s.blit_buf(Rect::new(2, 1, 3, 2), &src);
    let b = s.backbuffer();
    assert_eq!(&b[640 + 2..640 + 5], &[1, 2, 3]);
    assert_eq!(&b[1280 + 2..1280 + 5], &[4, 5, 6]);
    assert_eq!(b[640 + 1], 0);
    assert_eq!(b[640 + 5], 0);
    assert_eq!(b.iter().filter(|&&p| p != 0).count(), 6);
    assert!(s.take_dirty());
}

#[test]
fn blit_bottom_right_corner() {
    let mut s = State::new();
    s.blit_buf(Rect::new(639, 479, 1, 1), &[0xffffff]);
    assert_eq!(s.backbuffer()[640 * 480 - 1], 0xffffff);
}

#[test]
fn rect_edges() {
    let r = Rect::new(2, 3, 4, 5);
    assert_eq!((r.left(), r.top(), r.right(), r.bottom()), (2, 3, 6, 8));
}

#[test]
fn key_diff_events() {
    assert_eq!(
        diff_keys(&vec![1, 3, 5], &vec![2, 3, 6]),
        vec![(true, 1), (false, 2), (true, 5), (false, 6)]
    );
    assert_eq!(diff_keys(&vec![], &vec![4]), vec![(false, 4)]);
    assert_eq!(diff_keys(&vec![4], &vec![]), vec![(true, 4)]);
    assert_eq!(diff_keys(&vec![4, 9], &vec![4, 9]), vec![]);
}

#[test]
fn keycodes() {
    assert_eq!(translate_keycode(HOST_KEY_A), KeyCode::A);
    assert_eq!(translate_keycode(35), KeyCode::Z);
    assert_eq!(translate_keycode(69), KeyCode::Return);
    assert_eq!(translate_keycode(84), KeyCode::LeftCtrl);
    assert_eq!(translate_keycode(0), KeyCode::NoKey);
    assert_eq!(translate_keycode(85), KeyCode::NoKey);
}

#[test]
fn key_tracker_frames() {
    let mut t = KeyTracker::new();
    // A pressed, then Enter added (unsorted input), then A released and
    // an untranslated key (Space) pressed.
    assert_eq!(t.update(vec![10]), vec![(false, KeyCode::A)]);
    assert_eq!(t.update(vec![69, 10]), vec![(false, KeyCode::Return)]);
    assert_eq!(t.update(vec![77, 69]), vec![(true, KeyCode::A)]);
    assert_eq!(t.update(vec![]), vec![(true, KeyCode::Return)]);
}
