use tunecraft::playback::{next_repeat_mode, PlaybackService, PlaybackState, RepeatMode, ScrobbleCheck, ToggleOutcome};
use tunecraft::shuffle::shuffle_order_from_seed;

fn make_service() -> PlaybackService {
    PlaybackService::new(false, RepeatMode::Off)
}

#[test]
fn test_playback_state_default() {
    let state = PlaybackState::default();
    assert_eq!(state.current_track_id, None);
    assert!(!state.is_playing);
    assert!(!state.shuffle);
    assert_eq!(state.repeat, RepeatMode::Off);
    assert!(state.play_queue.is_empty());
    assert_eq!(state.version, 0);
    assert!(!state.resampler_disabled);
}

#[test]
fn test_set_shuffle_generates_order() {
    let mut svc = make_service();
    svc.set_play_queue(vec![1, 2, 3, 4, 5]);
    svc.set_shuffle(true);
    let state = svc.state();
    assert!(state.shuffle);
    assert_eq!(state.shuffle_order.len(), 5);
    let mut sorted = state.shuffle_order.clone();
    sorted.sort();
    assert_eq!(sorted, vec![0, 1, 2, 3, 4]);
}

#[test]
fn test_set_repeat() {
    let mut svc = make_service();
    svc.set_repeat(RepeatMode::All);
    assert_eq!(svc.state().repeat, RepeatMode::All);
    svc.set_repeat(RepeatMode::One);
    assert_eq!(svc.state().repeat, RepeatMode::One);
}

#[test]
fn test_navigate_next_empty_queue() {
    let mut svc = make_service();
    assert!(svc.navigate_next().is_none());
}

#[test]
fn test_navigate_next_sequential() {
    let mut svc = make_service();
    svc.set_play_queue(vec![10, 20, 30]);
    let next = svc.navigate_next();
    assert_eq!(next, Some(10));
    assert_eq!(svc.state().play_queue_index, Some(0));
    let next = svc.navigate_next();
    assert_eq!(next, Some(20));
    assert_eq!(svc.state().play_queue_index, Some(1));
}

#[test]
fn test_navigate_next_repeat_all_wraps() {
    let mut svc = make_service();
    svc.set_play_queue(vec![10, 20]);
    svc.set_repeat(RepeatMode::All);
    svc.navigate_next();
    svc.navigate_next();
    let next = svc.navigate_next();
    assert_eq!(next, Some(10));
}

#[test]
fn test_navigate_next_repeat_off_at_end() {
    let mut svc = make_service();
    svc.set_play_queue(vec![10, 20]);
    svc.set_repeat(RepeatMode::Off);
    svc.navigate_next();
    svc.navigate_next();
    assert!(svc.navigate_next().is_none());
}

#[test]
fn test_navigate_prev_empty_queue() {
    let mut svc = make_service();
    assert!(svc.navigate_prev(false).is_none());
}

#[test]
fn test_navigate_prev_at_beginning() {
    let mut svc = make_service();
    svc.set_play_queue(vec![10, 20, 30]);
    svc.set_queue_index(Some(0));
    assert!(svc.navigate_prev(false).is_none());
}

#[test]
fn test_set_play_queue_clears_shuffle() {
    let mut svc = make_service();
    svc.set_play_queue(vec![1, 2, 3]);
    svc.set_shuffle(true);
    assert!(!svc.state().shuffle_order.is_empty());
    svc.set_play_queue(vec![4, 5]);
    assert!(svc.state().shuffle_order.is_empty());
}

#[test]
fn test_stop_playback_resets_state() {
    let mut svc = make_service();
    svc.set_play_queue(vec![10, 20]);
    svc.set_queue_index(Some(0));
    svc.set_favorited(true);
    {
        let state = svc.state_mut();
        state.is_playing = true;
    }
    svc.stop_playback();
    let state = svc.state();
    assert!(!state.is_playing);
}

#[test]
fn test_scrobble_threshold_short_track() {
    let svc = make_service();
    let mut last_id: Option<i64> = None;
    match svc.check_scrobble_threshold(&mut last_id, false) {
        ScrobbleCheck::Error(_) => {},
        _ => panic!("Expected error for no current track"),
    }
}

#[test]
fn test_version_increments_on_mutations() {
    let mut svc = make_service();
    let v0 = svc.state().version;
    svc.set_shuffle(true);
    let v1 = svc.state().version;
    assert!(v1 > v0);
}

#[test]
fn test_compute_next_index_empty() {
    let svc = make_service();
    assert!(svc.compute_next_index().is_none());
}

#[test]
fn test_compute_prev_index_empty() {
    let svc = make_service();
    assert!(svc.compute_prev_index(false).is_none());
}

// ── further cases ──

#[test]
fn next_prediction_matches_navigation() {
    let mut svc = PlaybackService::new(false, RepeatMode::All);
    svc.set_play_queue(vec![7, 8, 9]);
    for _ in 0..7 {
        let predicted = svc.compute_next_index();
        let id = svc.navigate_next();
        assert_eq!(svc.state().play_queue_index, predicted);
        assert_eq!(id, predicted.map(|i| svc.state().play_queue[i]));
    }
}

#[test]
fn prev_prediction_matches_navigation() {
    let mut svc = PlaybackService::new(false, RepeatMode::All);
    svc.set_play_queue(vec![7, 8, 9]);
    svc.set_queue_index(Some(1));
    assert_eq!(svc.compute_prev_index(false), Some(0));
    assert_eq!(svc.navigate_prev(false), Some(7));
    assert_eq!(svc.compute_prev_index(false), Some(2));
    assert_eq!(svc.navigate_prev(false), Some(9));
    assert_eq!(svc.state().play_queue_index, Some(2));
}

#[test]
fn prev_past_restart_point_returns_current_track() {
    let mut svc = make_service();
    svc.set_play_queue(vec![10, 20, 30]);
    svc.play_track(20, false);
    let v = svc.state().version;
    assert_eq!(svc.compute_prev_index(true), Some(1));
    assert_eq!(svc.navigate_prev(true), Some(20));
    assert_eq!(svc.state().play_queue_index, Some(1));
    assert_eq!(svc.state().version, v + 1);
}

#[test]
fn repeat_one_stays_on_track() {
    let mut svc = PlaybackService::new(false, RepeatMode::One);
    svc.set_play_queue(vec![10, 20]);
    svc.set_queue_index(Some(1));
    assert_eq!(svc.navigate_next(), Some(20));
    assert_eq!(svc.navigate_next(), Some(20));
}

#[test]
fn shuffle_visits_every_track_once_per_cycle() {
    let mut svc = PlaybackService::new(true, RepeatMode::All);
    svc.set_play_queue(vec![1, 2, 3, 4, 5, 6]);
    svc.play_track(3, false);
    let mut seen = Vec::new();
    for _ in 0..6 {
        seen.push(svc.navigate_next().unwrap());
    }
    // the first cycle draws a fresh order that does not start with the current track
    assert_ne!(seen[0], 3);
    seen.sort();
    assert_eq!(seen, vec![1, 2, 3, 4, 5, 6]);
}

#[test]
fn play_track_aligns_queue_and_shuffle_position() {
    let mut svc = PlaybackService::new(false, RepeatMode::Off);
    svc.set_play_queue(vec![5, 6, 7, 6]);
    svc.set_shuffle(true);
    let order = svc.state().shuffle_order.clone();
    svc.play_track(6, true);
    let st = svc.state();
    assert_eq!(st.play_queue_index, Some(1));
    assert_eq!(st.current_track_id, Some(6));
    assert!(st.is_playing);
    assert!(st.is_favorited);
    assert_eq!(order[st.shuffle_position], 1);
}

#[test]
fn toggle_playback_outcomes() {
    let mut svc = make_service();
    assert_eq!(svc.toggle_playback(), ToggleOutcome::Unchanged);
    svc.set_play_queue(vec![1]);
    assert_eq!(svc.toggle_playback(), ToggleOutcome::QueuePending);
    svc.play_track(1, false);
    assert_eq!(svc.toggle_playback(), ToggleOutcome::Paused);
    assert!(!svc.state().is_playing);
    assert_eq!(svc.toggle_playback(), ToggleOutcome::Resumed);
    assert!(svc.state().is_playing);
}

#[test]
fn scrobble_reported_once_per_track() {
    let mut svc = make_service();
    svc.set_play_queue(vec![42]);
    svc.play_track(42, false);
    let mut last = None;
    assert!(matches!(svc.check_scrobble_threshold(&mut last, false), ScrobbleCheck::NotYet));
    assert_eq!(last, None);
    assert!(matches!(svc.check_scrobble_threshold(&mut last, true), ScrobbleCheck::Ready(42)));
    assert_eq!(last, Some(42));
    assert!(matches!(svc.check_scrobble_threshold(&mut last, true), ScrobbleCheck::NotYet));
}

#[test]
fn engine_stop_clears_playing() {
    let mut svc = make_service();
    svc.set_play_queue(vec![1]);
    svc.play_track(1, false);
    svc.sync_from_engine(true, true, false);
    assert!(!svc.state().is_playing);
    assert!(svc.state().resampler_disabled);
}

#[test]
fn shuffle_from_seed_is_deterministic_permutation() {
    let a = shuffle_order_from_seed(10, 12345, None);
    let b = shuffle_order_from_seed(10, 12345, None);
    assert_eq!(a, b);
    let mut s = a.clone();
    s.sort();
    assert_eq!(s, (0..10).collect::<Vec<usize>>());
    let c = shuffle_order_from_seed(10, 12345, Some(a[0]));
    assert_ne!(c[0], a[0]);
    assert!(shuffle_order_from_seed(0, 1, Some(0)).is_empty());
    assert_eq!(shuffle_order_from_seed(1, 1, Some(0)), vec![0]);
}

#[test]
fn shuffle_from_seed_exact_value() {
    // n = 2: one Fisher–Yates step; seed 0 steps the generator to the increment.
    let s1: u64 = 0u64.wrapping_mul(6364136223846793005).wrapping_add(1442695040888963407);
    let j = ((s1 >> 33) as usize) % 2;
    let expected = if j == 0 { vec![1, 0] } else { vec![0, 1] };
    assert_eq!(shuffle_order_from_seed(2, 0, None), expected);
}

#[test]
fn repeat_button_cycles_off_all_one() {
    assert_eq!(next_repeat_mode(RepeatMode::Off), RepeatMode::All);
    assert_eq!(next_repeat_mode(RepeatMode::All), RepeatMode::One);
    assert_eq!(next_repeat_mode(RepeatMode::One), RepeatMode::Off);
}

#[test]
fn advancing_the_shuffle_moves_one_step_and_counts_a_change() {
    let mut svc = make_service();
    let v0 = svc.state().version;
    let p0 = svc.state().shuffle_position;
    svc.advance_shuffle();
    assert_eq!(svc.state().shuffle_position, p0 + 1);
    assert_eq!(svc.state().version, v0 + 1);
}

#[test]
fn engine_side_requests_count_as_changes() {
    let mut svc = make_service();
    svc.set_play_queue(vec![1, 2, 3]);
    let before = svc.state().clone();
    svc.seek();
    svc.set_speed();
    svc.reset_play_started_at();
    let after = svc.state();
    assert_eq!(after.version, before.version + 3);
    assert_eq!(after.play_queue, before.play_queue);
    assert_eq!(after.current_track_id, before.current_track_id);
}

#[test]
fn regenerating_the_shuffle_order_keeps_the_queue() {
    let mut svc = PlaybackService::new(true, RepeatMode::Off);
    svc.set_play_queue(vec![10, 20, 30, 40]);
    let v = svc.state().version;
    svc.regenerate_shuffle_order();
    let st = svc.state();
    assert_eq!(st.version, v + 1);
    let mut order = st.shuffle_order.clone();
    order.sort();
    assert_eq!(order, vec![0, 1, 2, 3]);
    let mut empty = PlaybackService::new(true, RepeatMode::Off);
    empty.regenerate_shuffle_order();
    assert!(empty.state().shuffle_order.is_empty());
}

#[test]
fn plain_next_follows_the_prediction() {
    let mut svc = make_service();
    svc.set_play_queue(vec![7, 8]);
    for _ in 0..3 {
        let before = svc.state().clone();
        let k = svc.compute_next_index();
        let r = svc.navigate_next();
        assert_eq!(r, k.and_then(|i| before.play_queue.get(i).copied()));
        match k {
            Some(i) => {
                assert_eq!(svc.state().play_queue_index, Some(i));
                assert_eq!(svc.state().version, before.version + 1);
            },
            None => {
                assert_eq!(svc.state().version, before.version);
                assert_eq!(svc.state().play_queue_index, before.play_queue_index);
            },
        }
    }
}
