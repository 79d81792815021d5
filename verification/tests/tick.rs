use tunecraft::engine::PlayerState;
use tunecraft::tick::{ring_sizes, BusEvent, EngineNotice, TickTracker};

#[test]
fn tick_without_session_reports_nothing() {
    let mut t = TickTracker::new();
    let out = t.tick(false, vec![BusEvent::EndOfStream], true, Some(5), Some(9));
    assert!(out.is_empty());
    assert_eq!(t, TickTracker::new());
}

#[test]
fn tick_reports_bus_then_position_then_duration() {
    let mut t = TickTracker::new();
    let out = t.tick(
        true,
        vec![BusEvent::Warning("late".into()), BusEvent::EndOfStream],
        true,
        Some(1_000),
        Some(200_000),
    );
    assert_eq!(
        out,
        vec![
            EngineNotice::Warning("late".into()),
            EngineNotice::EndOfStream,
            EngineNotice::State(PlayerState::Stopped),
            EngineNotice::Position(1_000),
            EngineNotice::Duration(200_000),
        ]
    );
    assert_eq!(t.last_position, Some(1_000));
    assert_eq!(t.last_duration, Some(200_000));
}

#[test]
fn tick_skips_unchanged_readings() {
    let mut t = TickTracker::new();
    t.tick(true, vec![], true, Some(1_000), Some(200_000));
    let out = t.tick(true, vec![], true, Some(1_000), Some(200_000));
    assert!(out.is_empty());
    let out = t.tick(true, vec![], true, Some(2_000), Some(200_000));
    assert_eq!(out, vec![EngineNotice::Position(2_000)]);
}

#[test]
fn tick_reads_no_position_while_paused() {
    let mut t = TickTracker::new();
    let out = t.tick(true, vec![BusEvent::Error("boom".into())], false, Some(7), None);
    assert_eq!(out, vec![EngineNotice::Error("boom".into())]);
    assert_eq!(t.last_position, None);
}

#[test]
fn reset_forgets_readings() {
    let mut t = TickTracker::new();
    t.tick(true, vec![], true, Some(3), Some(4));
    t.reset();
    assert_eq!(t, TickTracker::new());
    let out = t.tick(true, vec![], true, Some(3), Some(4));
    assert_eq!(out.len(), 2);
}

#[test]
fn ring_sizes_clamp_and_default() {
    assert_eq!(ring_sizes(None), (65_536, 32_768));
    assert_eq!(ring_sizes(Some((1, 1))), (4_096, 2_048));
    assert_eq!(ring_sizes(Some((1 << 30, 1 << 30))), (262_144, 131_072));
    assert_eq!(ring_sizes(Some((10_000, 5_000))), (10_000, 5_000));
}
