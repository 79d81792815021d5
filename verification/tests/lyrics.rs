use tunecraft::library::Track;
use tunecraft::lyrics::{
    apply_lyrics_event, classify_get_status, current_lyrics_line, fetched_from_get,
    lyrics_event_for, maybe_fetch_lyrics, parse_lrc, parse_lrc_timestamp, search_unanswered,
    select_search_result, url_encode, FetchedLyrics, GetAnswer, LrcLibSearchItem, LyricsEvent,
    LyricsService,
};

#[test]
fn test_url_encode_basic() {
    assert_eq!(url_encode("hello"), "hello");
    assert_eq!(url_encode("hello world"), "hello+world");
    assert_eq!(url_encode("AC/DC"), "AC%2FDC");
    assert_eq!(url_encode("Sigur Rós"), "Sigur+R%C3%B3s");
}

#[test]
fn url_encode_keeps_unreserved() {
    assert_eq!(url_encode("a-b.c_d~e"), "a-b.c_d~e");
    assert_eq!(url_encode("&="), "%26%3D");
    assert_eq!(url_encode(""), "");
}

#[test]
fn timestamp_parsing() {
    assert_eq!(parse_lrc_timestamp("01:23.45"), Some(83_450));
    assert_eq!(parse_lrc_timestamp("01:23"), Some(83_000));
    assert_eq!(parse_lrc_timestamp(" 2 : 05.5 "), Some(125_500));
    assert_eq!(parse_lrc_timestamp("00:01.0004"), Some(1_000));
    assert_eq!(parse_lrc_timestamp("00:01.0005"), Some(1_001));
    assert_eq!(parse_lrc_timestamp("00:.5"), Some(500));
    assert_eq!(parse_lrc_timestamp("-1:00"), Some(-60_000));
    assert_eq!(parse_lrc_timestamp("ar:Foo"), None);
    assert_eq!(parse_lrc_timestamp("00:"), None);
    assert_eq!(parse_lrc_timestamp("0023"), None);
    assert_eq!(parse_lrc_timestamp("x1:00"), None);
}

#[test]
fn lrc_parsing_sorts_and_expands_tags() {
    let lrc = "[ar:Someone]\n[00:03.50]World\n[00:01.00][00:05.00] Hello \n\nplain text\n[00:02.00]\n";
    let parsed = parse_lrc(lrc);
    assert_eq!(
        parsed,
        vec![
            (1000, "Hello".to_string()),
            (3500, "World".to_string()),
            (5000, "Hello".to_string()),
        ]
    );
}

#[test]
fn lrc_parsing_is_stable_and_handles_crlf() {
    let lrc = "[00:02]b\r\n[00:01]a\r\n[00:02]c";
    let parsed = parse_lrc(lrc);
    assert_eq!(
        parsed,
        vec![(1000, "a".to_string()), (2000, "b".to_string()), (2000, "c".to_string())]
    );
    assert!(parse_lrc("").is_empty());
}

#[test]
fn lyrics_line_highlight() {
    let lines = vec![(1000, "a".to_string()), (2000, "b".to_string()), (3000, "c".to_string())];
    assert_eq!(current_lyrics_line(&lines, 500), None);
    assert_eq!(current_lyrics_line(&lines, 2000), Some(1));
    assert_eq!(current_lyrics_line(&lines, 9999), Some(2));
}

#[test]
fn base_url_and_query_urls() {
    let svc = LyricsService::new(true, "https://mirror.example///");
    assert_eq!(svc.base_url(), "https://mirror.example");
    assert_eq!(
        svc.get_url("AC/DC", "", "Back in Black", 255),
        "https://mirror.example/get?artist=AC%2FDC&album=&title=Back+in+Black&duration=255"
    );
    assert_eq!(
        svc.get_url("A", "B", "C", 0),
        "https://mirror.example/get?artist=A&album=B&title=C"
    );
    assert_eq!(
        svc.search_url("Sigur Rós", "Hoppípolla"),
        "https://mirror.example/search?artist=Sigur+R%C3%B3s&track_name=Hopp%C3%ADpolla"
    );
    let default = LyricsService::new(false, "/");
    assert_eq!(default.base_url(), "https://lrclib.net");
    assert!(!default.fetch_for_track(true));
    assert!(svc.fetch_for_track(true));
    assert!(!svc.fetch_for_track(false));
}

#[test]
fn search_result_selection() {
    let items = vec![
        LrcLibSearchItem { synced_lyrics: None, plain_lyrics: Some("p1".into()) },
        LrcLibSearchItem { synced_lyrics: Some("s2".into()), plain_lyrics: Some("p2".into()) },
    ];
    let r = select_search_result(&items);
    assert_eq!(r.synced.as_deref(), Some("s2"));
    assert_eq!(r.plain.as_deref(), Some("p2"));
    assert_eq!(r.source, "lrclib /search (synced)");
    let r = select_search_result(&items[..1].to_vec());
    assert_eq!(r.synced, None);
    assert_eq!(r.plain.as_deref(), Some("p1"));
    assert_eq!(r.source, "lrclib /search (plain)");
    let r = select_search_result(&Vec::new());
    assert_eq!(r.source, "lrclib /search (empty)");
}

#[test]
fn events_for_fetch_results() {
    let f = FetchedLyrics { synced: None, plain: Some("plain".into()), source: "x" };
    match lyrics_event_for(7, &f) {
        LyricsEvent::Fetched { track_id, synced } => {
            assert_eq!(track_id, 7);
            assert_eq!(synced, "plain");
        },
        _ => panic!("expected Fetched"),
    }
    let f = FetchedLyrics { synced: None, plain: None, source: "x" };
    assert!(matches!(lyrics_event_for(7, &f), LyricsEvent::NotFound { track_id: 7 }));
}

fn track(id: i64, title: &str, lyrics: Option<&str>) -> Track {
    Track {
        id,
        path: format!("/music/{}.flac", id),
        title: title.to_string(),
        artist: None,
        album: None,
        play_count: 0,
        last_played: None,
        lyrics_synced: lyrics.map(|s| s.to_string()),
    }
}

#[test]
fn fetch_decision() {
    let tracks = vec![track(1, "One", None), track(2, "", None), track(3, "Three", Some("[00:01]x"))];
    let mut fetched_for = None;
    assert_eq!(maybe_fetch_lyrics(Some(1), &mut fetched_for, &tracks, true, true), Some(0));
    assert_eq!(fetched_for, Some(1));
    assert_eq!(maybe_fetch_lyrics(Some(1), &mut fetched_for, &tracks, true, true), None);
    assert_eq!(maybe_fetch_lyrics(Some(2), &mut fetched_for, &tracks, true, true), None);
    assert_eq!(maybe_fetch_lyrics(Some(3), &mut fetched_for, &tracks, true, true), None);
    let mut fresh = None;
    assert_eq!(maybe_fetch_lyrics(Some(1), &mut fresh, &tracks, true, false), None);
    assert_eq!(fresh, Some(1));
    assert_eq!(maybe_fetch_lyrics(None, &mut fresh, &tracks, true, true), None);
    assert_eq!(fresh, None);
}

#[test]
fn fetched_event_updates_track() {
    let mut tracks = vec![track(1, "One", None), track(2, "Two", None)];
    apply_lyrics_event(&mut tracks, LyricsEvent::Fetched { track_id: 2, synced: "[00:01]hi".into() });
    assert_eq!(tracks[1].lyrics_synced.as_deref(), Some("[00:01]hi"));
    assert_eq!(tracks[0].lyrics_synced, None);
    apply_lyrics_event(&mut tracks, LyricsEvent::NotFound { track_id: 1 });
    assert_eq!(tracks[0].lyrics_synced, None);
}

#[test]
fn exact_match_status_classes() {
    assert_eq!(classify_get_status(200), GetAnswer::UseBody);
    assert_eq!(classify_get_status(299), GetAnswer::UseBody);
    assert_eq!(classify_get_status(404), GetAnswer::Search);
    assert_eq!(classify_get_status(503), GetAnswer::Search);
    assert_eq!(classify_get_status(302), GetAnswer::TryBody);
    assert_eq!(classify_get_status(101), GetAnswer::TryBody);
    assert_eq!(classify_get_status(600), GetAnswer::TryBody);
}

#[test]
fn exact_match_body_and_unanswered_search() {
    let f = fetched_from_get(LrcLibSearchItem {
        synced_lyrics: Some("[00:01.00]x".into()),
        plain_lyrics: None,
    });
    assert_eq!(f.synced.as_deref(), Some("[00:01.00]x"));
    assert_eq!(f.plain, None);
    assert_eq!(f.source, "lrclib /get");
    let n = search_unanswered();
    assert!(n.synced.is_none() && n.plain.is_none());
    assert_eq!(n.source, "lrclib /search (no response)");
}

#[test]
fn disabling_lyrics_stops_fetches_and_keeps_the_url() {
    let mut svc = LyricsService::new(true, "https://mirror.example/");
    assert!(svc.fetch_for_track(true));
    assert!(!svc.fetch_for_track(false));
    svc.set_enabled(false);
    assert!(!svc.fetch_for_track(true));
    assert_eq!(svc.base_url(), "https://mirror.example");
    svc.set_enabled(true);
    assert!(svc.fetch_for_track(true));
}

#[test]
fn find_track_gives_first_match() {
    let t = |id: i64| Track {
        id,
        path: String::new(),
        title: String::new(),
        artist: None,
        album: None,
        play_count: 0,
        last_played: None,
        lyrics_synced: None,
    };
    let tracks = vec![t(4), t(7), t(7)];
    assert_eq!(tunecraft::lyrics::find_track(&tracks, 7), Some(1));
    assert_eq!(tunecraft::lyrics::find_track(&tracks, 4), Some(0));
    assert_eq!(tunecraft::lyrics::find_track(&tracks, 9), None);
}
