use tunecraft::media::{
    loop_status_to_repeat, mpris_track_id, respond_to_media_key, MediaKeyAction, MediaResponse,
};
use tunecraft::playback::RepeatMode;

#[test]
fn play_and_pause_only_toggle_when_needed() {
    assert_eq!(respond_to_media_key(MediaKeyAction::Play, true), MediaResponse::Ignore);
    assert_eq!(respond_to_media_key(MediaKeyAction::Play, false), MediaResponse::TogglePlayback);
    assert_eq!(respond_to_media_key(MediaKeyAction::Pause, true), MediaResponse::TogglePlayback);
    assert_eq!(respond_to_media_key(MediaKeyAction::Pause, false), MediaResponse::Ignore);
    assert_eq!(
        respond_to_media_key(MediaKeyAction::PlayPause, false),
        MediaResponse::TogglePlayback
    );
}

#[test]
fn loop_status_names() {
    assert_eq!(loop_status_to_repeat("Track"), RepeatMode::One);
    assert_eq!(loop_status_to_repeat("Playlist"), RepeatMode::All);
    assert_eq!(loop_status_to_repeat("None"), RepeatMode::Off);
    assert_eq!(loop_status_to_repeat("track"), RepeatMode::Off);
    assert_eq!(
        respond_to_media_key(MediaKeyAction::SetLoopStatus("Playlist".into()), true),
        MediaResponse::SetRepeat(RepeatMode::All)
    );
}

#[test]
fn only_file_uris_are_opened() {
    assert_eq!(
        respond_to_media_key(MediaKeyAction::OpenUri("file:///music/a.flac".into()), true),
        MediaResponse::OpenUri("file:///music/a.flac".into())
    );
    assert_eq!(
        respond_to_media_key(MediaKeyAction::OpenUri("https://x/a.mp3".into()), true),
        MediaResponse::RejectUri("https://x/a.mp3".into())
    );
    assert_eq!(
        respond_to_media_key(MediaKeyAction::OpenUri("file:/".into()), false),
        MediaResponse::RejectUri("file:/".into())
    );
}

#[test]
fn other_requests_map_one_to_one() {
    assert_eq!(respond_to_media_key(MediaKeyAction::Next, false), MediaResponse::PlayNext);
    assert_eq!(respond_to_media_key(MediaKeyAction::Previous, false), MediaResponse::PlayPrevious);
    assert_eq!(respond_to_media_key(MediaKeyAction::Stop, true), MediaResponse::Stop);
    assert_eq!(
        respond_to_media_key(MediaKeyAction::VolumeDown, true),
        MediaResponse::VolumeStep { up: false }
    );
    assert_eq!(
        respond_to_media_key(MediaKeyAction::Seek(-5_000_000), true),
        MediaResponse::SeekBy { offset_us: -5_000_000 }
    );
    assert_eq!(
        respond_to_media_key(MediaKeyAction::SetPosition { position_us: 42 }, true),
        MediaResponse::SeekTo { position_us: 42 }
    );
    assert_eq!(respond_to_media_key(MediaKeyAction::GlobalSearch, true), MediaResponse::FocusSearch);
    assert_eq!(respond_to_media_key(MediaKeyAction::Quit, true), MediaResponse::Quit);
}

#[test]
fn track_object_paths() {
    assert_eq!(mpris_track_id(42), "/org/tunecraft/track/42");
    assert_eq!(mpris_track_id(0), "/org/tunecraft/track/0");
    assert_eq!(mpris_track_id(-7), "/org/tunecraft/track/-7");
    assert_eq!(mpris_track_id(i64::MIN), format!("/org/tunecraft/track/{}", i64::MIN));
}
