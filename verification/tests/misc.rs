use tunecraft::engine::{
    notify_state, seek_fade_ms, transport_state, OutputDeviceId, PlayerState, ReplayGainApplyMode,
    ReplayGainMode, TpdfDither,
};
use tunecraft::toasts::{
    check_dsp_warnings, level_str, scrobble_event_toast, ScrobbleEvent, ToastLevel, ToastQueue,
};

#[test]
fn toast_queue_keeps_last_five() {
    let mut q = ToastQueue::new();
    for i in 0..7u64 {
        q.push_toast_with_id(format!("t{}", i), ToastLevel::Info, i, 1000 * i);
    }
    let ids: Vec<u64> = q.toasts().iter().map(|t| t.id).collect();
    assert_eq!(ids, vec![2, 3, 4, 5, 6]);
    assert_eq!(q.toasts()[0].expiry_ms, 6000);
    q.retain_unexpired(8000);
    let ids: Vec<u64> = q.toasts().iter().map(|t| t.id).collect();
    assert_eq!(ids, vec![5, 6]);
    q.push_toast("x".to_string(), ToastLevel::Error, 0);
    assert_eq!(q.toasts().last().unwrap().id, 0);
    assert_eq!(level_str(ToastLevel::Warning), "warning");
}

#[test]
fn scrobble_toasts() {
    let (m, l) = scrobble_event_toast(&ScrobbleEvent::Recorded {
        artist: "Aurora Glass".into(),
        track: "Northern Lights".into(),
    });
    assert_eq!(m, "Saved: Northern Lights by Aurora Glass");
    assert_eq!(l, ToastLevel::Success);
    let (m, l) = scrobble_event_toast(&ScrobbleEvent::Failed {
        artist: "A".into(),
        track: "T".into(),
        error: "disk full".into(),
    });
    assert_eq!(m, "Could not save listen: T by A — disk full");
    assert_eq!(l, ToastLevel::Error);
}

#[test]
fn dsp_warning_once() {
    let mut shown = false;
    assert!(check_dsp_warnings(true, &mut shown));
    assert!(!check_dsp_warnings(true, &mut shown));
    assert!(!check_dsp_warnings(false, &mut shown));
    assert!(!shown);
    assert!(check_dsp_warnings(true, &mut shown));
}

#[test]
fn dither_generators() {
    let mut d = TpdfDither::new();
    assert!(!d.enabled);
    let (a, b) = d.next_pair();
    let s1 = 0xDEAD_BEEFu32.wrapping_mul(1664525).wrapping_add(1013904223);
    let s2 = 0xCAFE_BABEu32.wrapping_mul(22695477).wrapping_add(1);
    assert_eq!((a, b), (s1 as i32, s2 as i32));
}

#[test]
fn engine_defaults() {
    assert_eq!(ReplayGainMode::default(), ReplayGainMode::Track);
    assert_eq!(ReplayGainApplyMode::default(), ReplayGainApplyMode::ApplyAndClip);
    assert_eq!(OutputDeviceId::default_output().0, "default");
    assert_eq!(OutputDeviceId::new("Headphones (Realtek)").0, "Headphones (Realtek)");
}

#[test]
fn engine_transport_state_and_seek_fade() {
    assert_eq!(transport_state(false, true), PlayerState::Stopped);
    assert_eq!(transport_state(true, true), PlayerState::Playing);
    assert_eq!(transport_state(true, false), PlayerState::Paused);
    assert_eq!(seek_fade_ms(0), 0);
    assert_eq!(seek_fade_ms(20), 20);
    assert_eq!(seek_fade_ms(5000), 200);
}

#[test]
fn toast_rows_show_unexpired_toasts() {
    let mut q = ToastQueue::new();
    q.push_toast_with_id("old".to_string(), ToastLevel::Info, 1, 0);
    q.push_toast_with_id("new".to_string(), ToastLevel::Error, (1u64 << 32) + 2, 3000);
    let rows = q.rows(4000);
    assert_eq!(rows.len(), 1);
    assert_eq!(rows[0].id, 2);
    assert_eq!(rows[0].message, "new");
    assert_eq!(rows[0].level, "error");
    assert_eq!(q.rows(0).len(), 2);
    assert!(q.rows(7000).is_empty());
}

#[test]
fn state_listener_is_notified() {
    let seen = std::cell::RefCell::new(Vec::new());
    let listener = Some(|s: PlayerState| seen.borrow_mut().push(s));
    notify_state(&listener, PlayerState::Playing);
    notify_state(&listener, PlayerState::Paused);
    assert_eq!(*seen.borrow(), vec![PlayerState::Playing, PlayerState::Paused]);
    let none: Option<fn(PlayerState)> = None;
    notify_state(&none, PlayerState::Stopped);
}
