use doc_manager::scan::ScanSession;
use doc_manager::scan::SCAN_PROGRESS_LIMIT;

#[test]
fn progress_wraps_and_stays_bounded() {
    let mut s = ScanSession::new();
    s.start();
    assert!(s.scanning);
    for _ in 0..(SCAN_PROGRESS_LIMIT * 3 + 7) {
        s.on_tick();
        assert!(s.progress <= SCAN_PROGRESS_LIMIT);
    }
    assert!(s.scanning);
}

#[test]
fn tick_does_nothing_while_idle() {
    let mut s = ScanSession::new();
    s.on_tick();
    assert_eq!(s.progress, 0);
    assert!(!s.scanning);
}

#[test]
fn acquisition_resolves_with_bytes() {
    let mut s = ScanSession::new();
    s.start();
    s.on_acquired(vec![1, 2, 3]);
    assert!(!s.scanning);
    assert_eq!(s.acquired, Some(vec![1, 2, 3]));
    assert_eq!(s.progress, SCAN_PROGRESS_LIMIT);
}

#[test]
fn failure_and_cancellation_resolve_to_the_failure_event() {
    let mut s = ScanSession::new();
    s.start();
    s.on_failed();
    assert!(!s.scanning);
    assert_eq!(s.acquired, None);
    assert_eq!(s.progress, 0);
}
