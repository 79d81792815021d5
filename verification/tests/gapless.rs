use tunecraft::gapless::GaplessPreloader;

#[test]
fn preloaded_session_is_taken_once() {
    let mut p: GaplessPreloader<String> = GaplessPreloader::new();
    assert!(!p.is_ready());
    assert_eq!(p.take_ready(), None);
    p.preload();
    assert!(!p.is_ready());
    p.build_finished(false, Some("next".to_string()));
    assert!(p.is_ready());
    assert_eq!(p.take_ready(), Some("next".to_string()));
    assert!(!p.is_ready());
    assert_eq!(p.take_ready(), None);
}

#[test]
fn cancelled_or_failed_builds_leave_nothing() {
    let mut p: GaplessPreloader<u32> = GaplessPreloader::new();
    p.preload();
    p.build_finished(true, Some(7));
    assert!(!p.is_ready());
    assert_eq!(p.take_ready(), None);
    p.preload();
    p.build_finished(false, None);
    assert_eq!(p.take_ready(), None);
    p.preload();
    p.build_skipped();
    assert_eq!(p.take_ready(), None);
    p.preload();
    p.build_finished(false, Some(9));
    p.cancel();
    assert_eq!(p.take_ready(), None);
}
