use tunecraft::library::{queue_after_scan, LibraryService, ScanProgress, Track};
use tunecraft::sidebar::{parse_section, section_id, NavSection};

fn track(id: i64, play_count: u32, last_played: Option<i64>) -> Track {
    Track {
        id,
        path: format!("/music/{}.mp3", id),
        title: format!("Track {}", id),
        artist: Some("Artist".to_string()),
        album: None,
        play_count,
        last_played,
        lyrics_synced: None,
    }
}

#[test]
fn section_ids_roundtrip() {
    let all = [
        NavSection::AllTracks,
        NavSection::Albums,
        NavSection::Artists,
        NavSection::Folders,
        NavSection::Favorites,
        NavSection::RecentlyPlayed,
        NavSection::MostPlayed,
        NavSection::Settings,
    ];
    for s in all {
        assert_eq!(parse_section(section_id(s)), s);
    }
    assert_eq!(section_id(NavSection::RecentlyPlayed), "recently_played");
    assert_eq!(parse_section("bogus"), NavSection::AllTracks);
    assert_eq!(NavSection::MostPlayed.label(), "Most Played");
}

#[test]
fn badge_counts() {
    let now = 1_700_000_000i64;
    let tracks = vec![
        track(1, 5, Some(now - 3600)),
        track(2, 1, Some(now - 48 * 3600 - 3599)),
        track(3, 4, Some(now - 49 * 3600)),
        track(4, 0, None),
    ];
    assert_eq!(NavSection::AllTracks.badge_count_at(&tracks, now), Some(4));
    assert_eq!(NavSection::RecentlyPlayed.badge_count_at(&tracks, now), Some(2));
    assert_eq!(NavSection::MostPlayed.badge_count_at(&tracks, now), Some(2));
    assert_eq!(NavSection::Albums.badge_count_at(&tracks, now), None);
    let many: Vec<Track> = (0..40).map(|i| track(i, 10, None)).collect();
    assert_eq!(NavSection::MostPlayed.badge_count(&many), Some(30));
}

#[test]
fn paging() {
    let mut lib = LibraryService::new(10);
    assert!(!lib.next_page());
    lib.refresh_tracks(20, vec![]);
    assert!(lib.next_page());
    assert_eq!(lib.page_query(), (10, 10));
    assert!(!lib.next_page());
    lib.refresh_tracks(21, vec![]);
    assert!(lib.next_page());
    assert!(!lib.next_page());
    assert!(lib.prev_page());
    assert!(lib.prev_page());
    assert!(!lib.prev_page());
}

#[test]
fn scan_status_messages() {
    let mut lib = LibraryService::new(10);
    lib.check_scan_state(None, false, false);
    assert!(lib.snapshot().is_scanning);
    assert_eq!(lib.snapshot().status_message, "Scanning library...");
    let p = ScanProgress { files_found: 12, files_processed: 3, files_added: 2, files_updated: 1 };
    lib.check_scan_state(Some(p), false, false);
    assert_eq!(lib.snapshot().status_message, "Scanning 3/12 files...");
    lib.check_scan_state(Some(p), true, false);
    assert!(!lib.snapshot().is_scanning);
    assert_eq!(lib.snapshot().status_message, "Scan complete: 2 added, 1 updated");
    lib.check_scan_state(None, true, true);
    assert_eq!(lib.snapshot().status_message, "Scan complete: 2 added, 1 updated");
    let mut lib2 = LibraryService::new(10);
    lib2.check_scan_state(None, false, false);
    lib2.check_scan_state(None, true, true);
    assert_eq!(lib2.snapshot().status_message, "Library scan failed");
}

#[test]
fn favorites_and_badges() {
    let mut lib = LibraryService::new(5);
    lib.refresh_favorite_ids(&vec![3, 9, 3]);
    assert!(lib.is_favorite(3));
    assert!(!lib.is_favorite(4));
    assert!(lib.toggle_favorite(false, true));
    assert!(!lib.toggle_favorite(false, false));
    lib.refresh_tracks(2, vec![track(1, 9, None), track(2, 0, None)]);
    let badges = lib.compute_badge_counts(0);
    assert_eq!(badges[0], (NavSection::AllTracks, 2));
    assert_eq!(badges[2], (NavSection::MostPlayed, 1));
    assert_eq!(badges[3], (NavSection::Favorites, 2));
}

#[test]
fn queue_refresh_after_scan() {
    assert_eq!(queue_after_scan(10, 5, false), (true, true));
    assert_eq!(queue_after_scan(10, 5, true), (true, false));
    assert_eq!(queue_after_scan(5, 5, false), (false, false));
}

#[test]
fn scan_progress_reported_every_tenth_file_and_at_the_end() {
    let p = |done: usize, found: usize| ScanProgress {
        files_found: found,
        files_processed: done,
        files_added: 0,
        files_updated: 0,
    };
    assert!(p(0, 25).worth_reporting());
    assert!(!p(7, 25).worth_reporting());
    assert!(p(20, 25).worth_reporting());
    assert!(p(25, 25).worth_reporting());
    assert!(!p(24, 25).worth_reporting());
}

#[test]
fn page_size_is_reported() {
    let lib = LibraryService::new(25);
    assert_eq!(lib.tracks_per_page(), 25);
    assert_eq!(lib.page_query(), (25, 0));
}

#[test]
fn badges_for_every_clock_reading() {
    let t = Track {
        id: 1,
        path: String::new(),
        title: String::new(),
        artist: None,
        album: None,
        play_count: 5,
        last_played: None,
        lyrics_synced: None,
    };
    let tracks = vec![t];
    assert_eq!(NavSection::AllTracks.badge_count(&tracks), Some(1));
    assert_eq!(NavSection::MostPlayed.badge_count(&tracks), Some(1));
    assert_eq!(NavSection::RecentlyPlayed.badge_count(&tracks), Some(0));
}
