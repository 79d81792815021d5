use tunecraft::converters::{
    folder_to_item, format_duration, lyrics_line_to_item, playlist_to_item, repeat_mode_str,
    toast_to_item, track_rows, track_to_item,
};
use tunecraft::playback::RepeatMode;

#[test]
fn folder_row_copies_fields() {
    let item = folder_to_item("/music/jazz", "jazz", 42, false);
    assert_eq!(item.path, "/music/jazz");
    assert_eq!(item.name, "jazz");
    assert_eq!(item.track_count, 42);
    assert!(!item.is_parent);
    let parent = folder_to_item("/music", "..", 0, true);
    assert!(parent.is_parent);
}

#[test]
fn folder_row_count_wraps_to_i32() {
    let item = folder_to_item("/a", "a", u32::MAX, false);
    assert_eq!(item.track_count, -1);
}

#[test]
fn toast_row_fields() {
    let item = toast_to_item(7, "Scan complete", "success");
    assert_eq!(item.id, 7);
    assert_eq!(item.message, "Scan complete");
    assert_eq!(item.level, "success");
    let big = toast_to_item((1u64 << 32) + 5, "m", "info");
    assert_eq!(big.id, 5);
}

#[test]
fn lyrics_row_fields() {
    let line = lyrics_line_to_item(83_450, "Hello", true);
    assert_eq!(line.timestamp_ms, 83_450);
    assert_eq!(line.text, "Hello");
    assert!(line.is_current);
}

#[test]
fn playlist_row_fields() {
    let item = playlist_to_item(3, "Road trip", 12);
    assert_eq!(item.id, 3);
    assert_eq!(item.name, "Road trip");
    assert_eq!(item.track_count, 12);
}

#[test]
fn duration_text_is_minutes_and_two_digit_seconds() {
    assert_eq!(format_duration(0), "0:00");
    assert_eq!(format_duration(59), "0:59");
    assert_eq!(format_duration(60), "1:00");
    assert_eq!(format_duration(245), "4:05");
    assert_eq!(format_duration(3725), "62:05");
}

#[test]
fn repeat_mode_names() {
    assert_eq!(repeat_mode_str(RepeatMode::Off), "off");
    assert_eq!(repeat_mode_str(RepeatMode::All), "all");
    assert_eq!(repeat_mode_str(RepeatMode::One), "one");
}

fn lib_track(id: i64, title: &str, artist: Option<&str>) -> tunecraft::library::Track {
    tunecraft::library::Track {
        id,
        path: format!("/music/{}.flac", id),
        title: title.to_string(),
        artist: artist.map(|a| a.to_string()),
        album: None,
        play_count: 3,
        last_played: None,
        lyrics_synced: None,
    }
}

#[test]
fn track_rows_mark_current_and_favorites() {
    let tracks = vec![lib_track(1, "One", Some("A")), lib_track(2, "Two", None)];
    let mut favs = std::collections::HashSet::new();
    favs.insert(2i64);
    let rows = track_rows(&tracks, Some(2), false, &favs);
    assert_eq!(rows.len(), 2);
    assert_eq!((rows[0].id, rows[0].title.as_str(), rows[0].artist.as_str()), (1, "One", "A"));
    assert_eq!((rows[0].is_playing, rows[0].is_paused, rows[0].is_favorite), (false, false, false));
    assert_eq!((rows[1].artist.as_str(), rows[1].album.as_str()), ("", ""));
    assert_eq!((rows[1].is_playing, rows[1].is_paused, rows[1].is_favorite), (true, true, true));
    assert_eq!(rows[1].file_path, "/music/2.flac");
    assert_eq!(rows[1].play_count, 3);
    let rows = track_rows(&tracks, Some(2), true, &favs);
    assert!(rows[1].is_playing && !rows[1].is_paused);
    let item = track_to_item(&lib_track(5_000_000_000, "Big", None), false, false, false);
    assert_eq!(item.id, 5_000_000_000i64 as i32);
}
