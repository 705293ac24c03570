use tifflin::arch::{cur_timestamp, init, Backtrace, Timer};

#[test]
fn init_does_nothing() {
    init();
}

#[test]
fn timestamps_never_decrease() {
    let mut t = Timer::new();
    let a = cur_timestamp(&mut t);
    let start = std::time::Instant::now();
    while start.elapsed() < std::time::Duration::from_millis(5) {}
    let b = cur_timestamp(&mut t);
    let c = cur_timestamp(&mut t);
    assert!(a <= b && b <= c);
    assert!(b >= 5);
}

#[test]
fn backtrace_walks_frames() {
    let mut bt = Backtrace::new(0x1000);
    assert_eq!(bt.current(), 0x1000);
    assert_eq!(bt.advance(Some((0x2000, 0xdead))), Some(0xdead));
    assert_eq!(bt.current(), 0x2000);
    assert_eq!(bt.advance(None), None);
    assert_eq!(bt.current(), 0x2000);
}

#[test]
fn timer_record_keeps_the_largest() {
    let mut t = Timer::new();
    assert_eq!(t.record(40), 40);
    assert_eq!(t.record(10), 40);
    assert_eq!(t.record(41), 41);
}
