use tunecraft::library::{LibraryService, Track};
use tunecraft::track_list::{
    apply_sort, column_named, page_for_request, sort_tracks, SortColumn, SortState,
};

fn t(id: i64, title: &str, artist: Option<&str>, album: Option<&str>) -> Track {
    Track {
        id,
        path: format!("/m/{}.flac", id),
        title: title.to_string(),
        artist: artist.map(|a| a.to_string()),
        album: album.map(|a| a.to_string()),
        play_count: 0,
        last_played: None,
        lyrics_synced: None,
    }
}

fn ids(v: &[Track]) -> Vec<i64> {
    v.iter().map(|x| x.id).collect()
}

#[test]
fn sorts_by_title_both_ways() {
    let mut v = vec![t(1, "beta", None, None), t(2, "Alpha", None, None), t(3, "alpha", None, None)];
    sort_tracks(&mut v, SortColumn::Title, true);
    assert_eq!(ids(&v), vec![2, 3, 1]);
    sort_tracks(&mut v, SortColumn::Title, false);
    assert_eq!(ids(&v), vec![1, 3, 2]);
}

#[test]
fn missing_artist_sorts_first_and_ties_keep_order() {
    let mut v = vec![
        t(1, "a", Some("Zed"), None),
        t(2, "b", None, None),
        t(3, "c", Some("Abe"), None),
        t(4, "d", Some("Abe"), None),
    ];
    sort_tracks(&mut v, SortColumn::Artist, true);
    assert_eq!(ids(&v), vec![2, 3, 4, 1]);
    let mut w = vec![t(1, "a", None, Some("X")), t(2, "b", None, Some("W"))];
    sort_tracks(&mut w, SortColumn::Album, true);
    assert_eq!(ids(&w), vec![2, 1]);
}

#[test]
fn sorting_agrees_with_std_order() {
    let titles = ["é", "z", "Z", "", "ab", "a", "ä", "b"];
    let mut v: Vec<Track> =
        titles.iter().enumerate().map(|(i, s)| t(i as i64, s, None, None)).collect();
    sort_tracks(&mut v, SortColumn::Title, true);
    let got: Vec<String> = v.iter().map(|x| x.title.clone()).collect();
    let mut want: Vec<String> = titles.iter().map(|s| s.to_string()).collect();
    want.sort();
    assert_eq!(got, want);
}

#[test]
fn clicking_a_column_twice_reverses() {
    let mut s = SortState::new();
    assert!(!s.active);
    assert_eq!(s.field, "");
    s.click("title");
    assert_eq!((s.field.as_str(), s.ascending, s.active), ("title", true, true));
    s.click("title");
    assert!(!s.ascending);
    s.click("album");
    assert_eq!((s.field.as_str(), s.ascending, s.active), ("album", true, true));
}

#[test]
fn header_fields_name_columns() {
    assert_eq!(column_named("title"), Some(SortColumn::Title));
    assert_eq!(column_named("artist"), Some(SortColumn::Artist));
    assert_eq!(column_named("album"), Some(SortColumn::Album));
    assert_eq!(column_named("duration"), None);
    assert_eq!(column_named("Title"), None);
}

#[test]
fn sort_by_field_sorts_or_only_reverses() {
    let mut v = vec![t(1, "b", None, None), t(2, "c", None, None), t(3, "a", None, None)];
    apply_sort(&mut v, "title", false);
    assert_eq!(ids(&v), vec![2, 1, 3]);
    apply_sort(&mut v, "genre", true);
    assert_eq!(ids(&v), vec![2, 1, 3]);
    apply_sort(&mut v, "genre", false);
    assert_eq!(ids(&v), vec![3, 1, 2]);
}

#[test]
fn requested_page_is_clamped() {
    assert_eq!(page_for_request(5, 0, 10), 0);
    assert_eq!(page_for_request(-3, 100, 10), 0);
    assert_eq!(page_for_request(3, 100, 10), 3);
    assert_eq!(page_for_request(10, 100, 10), 9);
    assert_eq!(page_for_request(10, 101, 10), 10);
    assert_eq!(page_for_request(i32::MAX, 101, 10), 10);
}

#[test]
fn library_steps_to_the_page() {
    let mut lib = LibraryService::new(10);
    lib.refresh_tracks(35, Vec::new());
    lib.go_to_page(2);
    assert_eq!(lib.current_page(), 2);
    lib.go_to_page(9);
    assert_eq!(lib.current_page(), 3);
    lib.go_to_page(0);
    assert_eq!(lib.current_page(), 0);
}
