use engine::timer::Timer;

#[test]
fn test_timer_accumulates_until_done() {
    let mut t = Timer::new(100, false);
    assert_eq!(t.acc, 0);
    assert!(!t.done);
    t.update(40);
    assert_eq!(t.acc, 40);
    assert!(!t.done);
    t.update(60);
    assert_eq!(t.acc, 100);
    assert!(t.done);
}

#[test]
fn test_timer_done_latches() {
    let mut t = Timer::new(10, false);
    t.update(25);
    assert!(t.done);
    t.update(1);
    assert!(t.done);
}

#[test]
fn test_timer_restart_clears() {
    let mut t = Timer::new(50, true);
    assert!(t.done);
    t.update(5);
    t.restart();
    assert_eq!(t.acc, 0);
    assert!(!t.done);
    t.update(49);
    assert!(!t.done);
    t.update(1);
    assert!(t.done);
}
