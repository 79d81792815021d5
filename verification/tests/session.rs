use tunecraft::playback::{PlaybackService, RepeatMode};
use tunecraft::session::TransportAction;

#[test]
fn next_plays_the_track_reached() {
    let mut svc = PlaybackService::new(false, RepeatMode::Off);
    svc.set_play_queue(vec![10, 20]);
    let reached = svc.navigate_next();
    assert_eq!(svc.finish_next(reached), TransportAction::Play(10));
}

#[test]
fn next_at_end_of_queue_pauses_instead_of_stopping() {
    let mut svc = PlaybackService::new(false, RepeatMode::Off);
    svc.set_play_queue(vec![10]);
    let first = svc.navigate_next();
    svc.play_track(first.unwrap(), false);
    assert!(svc.state().is_playing);
    let reached = svc.navigate_next();
    assert_eq!(reached, None);
    assert_eq!(svc.finish_next(reached), TransportAction::Paused);
    assert!(!svc.state().is_playing);
    assert_eq!(svc.state().current_track_id, Some(10));
    assert_eq!(svc.finish_next(None), TransportAction::Nothing);
}

#[test]
fn next_with_empty_queue_stops() {
    let mut svc = PlaybackService::new(false, RepeatMode::Off);
    let v = svc.state().version;
    assert_eq!(svc.finish_next(None), TransportAction::Stopped);
    assert!(!svc.state().is_playing);
    assert_eq!(svc.state().version, v + 1);
}

#[test]
fn previous_restarts_the_current_track() {
    let mut svc = PlaybackService::new(false, RepeatMode::Off);
    svc.set_play_queue(vec![10, 20]);
    svc.play_track(20, false);
    let v = svc.state().version;
    let reached = svc.navigate_prev(true);
    assert_eq!(reached, Some(20));
    assert_eq!(svc.finish_prev(reached), TransportAction::Restart);
    assert_eq!(svc.state().version, v + 3);
    let reached = svc.navigate_prev(false);
    assert_eq!(svc.finish_prev(reached), TransportAction::Play(10));
    assert_eq!(svc.finish_prev(None), TransportAction::Nothing);
}
