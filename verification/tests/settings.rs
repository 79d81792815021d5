use tunecraft::settings::{parse_theme, theme_str, SaveSchedule, Theme, SAVE_INTERVAL_SECS};

#[test]
fn nothing_due_until_modified() {
    let s = SaveSchedule::new(1_000);
    assert_eq!(SAVE_INTERVAL_SECS, 30);
    assert!(!s.is_dirty());
    assert!(!s.save_due(1_000_000));
}

#[test]
fn due_once_interval_has_passed() {
    let mut s = SaveSchedule::new(1_000);
    s.mark_dirty();
    assert!(s.is_dirty());
    assert!(!s.save_due(30_999));
    assert!(s.save_due(31_000));
    assert!(!s.save_due(500));
}

#[test]
fn successful_save_clears_and_restarts() {
    let mut s = SaveSchedule::new(0);
    s.mark_dirty();
    assert!(s.record_save(true, 40_000));
    assert!(!s.is_dirty());
    assert_eq!(s.last_save_ms, 40_000);
    s.mark_dirty();
    assert!(!s.save_due(60_000));
    assert!(s.save_due(70_000));
}

#[test]
fn failed_save_changes_nothing() {
    let mut s = SaveSchedule::new(0);
    s.mark_dirty();
    let before = s;
    assert!(!s.record_save(false, 40_000));
    assert_eq!(s, before);
    assert!(s.save_due(40_000));
}

#[test]
fn theme_names_roundtrip_and_default_to_dark() {
    let all = [
        Theme::Light,
        Theme::Dark,
        Theme::System,
        Theme::Ocean,
        Theme::Forest,
        Theme::Sunset,
        Theme::Berry,
        Theme::Midnight,
        Theme::Rose,
        Theme::Coffee,
        Theme::Mint,
    ];
    for t in all {
        assert_eq!(parse_theme(theme_str(t)), t);
    }
    assert_eq!(theme_str(Theme::Midnight), "midnight");
    assert_eq!(parse_theme("neon"), Theme::Dark);
    assert_eq!(parse_theme("Light"), Theme::Dark);
}
