use tunecraft::lyrics::lyrics_panel_lines;
use tunecraft::sidebar::{nav_rows, NavSection};

#[test]
fn lyrics_panel_marks_the_line_reached() {
    let lrc = "[ar:Someone]\n[00:05.00]Second\n[00:01.00]First\n[00:09.50]Third\n";
    let rows = lyrics_panel_lines(lrc, 6_000);
    let got: Vec<(i32, String, bool)> =
        rows.iter().map(|r| (r.timestamp_ms, r.text.clone(), r.is_current)).collect();
    assert_eq!(
        got,
        vec![
            (1_000, "First".to_string(), false),
            (5_000, "Second".to_string(), true),
            (9_500, "Third".to_string(), false),
        ]
    );
}

#[test]
fn lyrics_panel_before_first_line_has_no_current() {
    let rows = lyrics_panel_lines("[00:01.00]a\n[00:02.00]b", 500);
    assert!(rows.iter().all(|r| !r.is_current));
    assert!(lyrics_panel_lines("", 0).is_empty());
}

#[test]
fn nav_rows_carry_badges_and_selection() {
    let badges = vec![
        (NavSection::AllTracks, 120),
        (NavSection::RecentlyPlayed, 4),
        (NavSection::MostPlayed, 30),
        (NavSection::Favorites, 7),
    ];
    let rows = nav_rows(NavSection::Favorites, &badges);
    let got: Vec<(String, String, i32, bool)> = rows
        .iter()
        .map(|r| (r.section.clone(), r.label.clone(), r.badge, r.active))
        .collect();
    assert_eq!(
        got,
        vec![
            ("all_tracks".to_string(), "All Tracks".to_string(), 120, false),
            ("albums".to_string(), "Albums".to_string(), 0, false),
            ("artists".to_string(), "Artists".to_string(), 0, false),
            ("folders".to_string(), "Folders".to_string(), 0, false),
            ("favorites".to_string(), "Favorites".to_string(), 7, true),
            ("recently_played".to_string(), "Recently Played".to_string(), 4, false),
            ("most_played".to_string(), "Most Played".to_string(), 30, false),
        ]
    );
}

#[test]
fn badge_lookup_takes_first_entry_or_zero() {
    let badges = vec![(NavSection::AllTracks, 12u32), (NavSection::Favorites, 3), (NavSection::AllTracks, 99)];
    assert_eq!(tunecraft::sidebar::find_badge(&badges, NavSection::AllTracks), 12);
    assert_eq!(tunecraft::sidebar::find_badge(&badges, NavSection::Favorites), 3);
    assert_eq!(tunecraft::sidebar::find_badge(&badges, NavSection::MostPlayed), 0);
}
