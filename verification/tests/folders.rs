use tunecraft::folders::{
    add_watch_dirs, adding_files_label, folder_rows, folder_track_positions, lists_folder,
    remove_watch_dir, scanning_folders_label,
};
use tunecraft::library::Track;

fn s(v: &[&str]) -> Vec<String> {
    v.iter().map(|x| x.to_string()).collect()
}

#[test]
fn rows_group_tracks_by_directory() {
    let tracks = s(&[
        "/music/jazz/a.flac",
        "/music/rock/b.mp3",
        "/music/jazz/c.flac",
        "/music/jazz/live/d.flac",
    ]);
    let rows = folder_rows(&tracks, &Vec::new());
    let got: Vec<(String, String, i32)> =
        rows.iter().map(|r| (r.path.clone(), r.name.clone(), r.track_count)).collect();
    assert_eq!(
        got,
        vec![
            ("/music/jazz".to_string(), "jazz".to_string(), 2),
            ("/music/rock".to_string(), "rock".to_string(), 1),
            ("/music/jazz/live".to_string(), "live".to_string(), 1),
        ]
    );
    assert!(rows.iter().all(|r| !r.is_parent));
}

#[test]
fn watch_dirs_appear_even_when_empty() {
    let tracks = s(&["/music/jazz/a.flac"]);
    let watch = s(&["/music/jazz/", "/music/empty", "/music/empty"]);
    let rows = folder_rows(&tracks, &watch);
    let got: Vec<(String, i32)> = rows.iter().map(|r| (r.path.clone(), r.track_count)).collect();
    assert_eq!(
        got,
        vec![("/music/jazz".to_string(), 1), ("/music/empty".to_string(), 0)]
    );
}

#[test]
fn a_path_without_parent_is_not_counted() {
    let tracks = s(&["/", ""]);
    let rows = folder_rows(&tracks, &Vec::new());
    assert!(rows.is_empty());
    let rows = folder_rows(&s(&["a.flac"]), &Vec::new());
    assert_eq!(rows.len(), 1);
    assert_eq!(rows[0].path, "");
    assert_eq!(rows[0].name, "");
}

#[test]
fn root_folder_is_named_by_its_path() {
    let rows = folder_rows(&s(&["/a.flac"]), &Vec::new());
    assert_eq!(rows[0].path, "/");
    assert_eq!(rows[0].name, "/");
}

#[test]
fn adding_watch_dirs_skips_known_folders() {
    let mut dirs = s(&["/music/jazz"]);
    add_watch_dirs(&mut dirs, &s(&["/music/jazz/", "/music/rock", "/music/rock"]));
    assert_eq!(dirs, s(&["/music/jazz", "/music/rock"]));
    assert!(lists_folder(&dirs, "/music//rock"));
    assert!(!lists_folder(&dirs, "/music"));
}

#[test]
fn adding_and_scanning_labels() {
    assert_eq!(adding_files_label(1), "Adding 1 file…");
    assert_eq!(adding_files_label(12), "Adding 12 files…");
    assert_eq!(scanning_folders_label(&s(&["/music/jazz"])), "Scanning 'jazz'…");
    assert_eq!(scanning_folders_label(&s(&["/"])), "Scanning ''…");
    assert_eq!(scanning_folders_label(&s(&["/a", "/b", "/c"])), "Scanning 3 folders…");
}

#[test]
fn removing_a_watch_dir_removes_every_spelling() {
    let mut dirs = s(&["/music/jazz", "/music/rock", "/music/jazz/", "/music//jazz"]);
    remove_watch_dir(&mut dirs, "/music/jazz");
    assert_eq!(dirs, s(&["/music/rock"]));
    remove_watch_dir(&mut dirs, "/elsewhere");
    assert_eq!(dirs, s(&["/music/rock"]));
}

fn track_at(id: i64, path: &str) -> Track {
    Track {
        id,
        path: path.to_string(),
        title: String::new(),
        artist: None,
        album: None,
        play_count: 0,
        last_played: None,
        lyrics_synced: None,
    }
}

#[test]
fn opening_a_folder_lists_its_own_tracks() {
    let tracks = vec![
        track_at(1, "/music/jazz/a.flac"),
        track_at(2, "/music/jazz/live/b.flac"),
        track_at(3, "/music/jazz/c.flac"),
        track_at(4, "/"),
    ];
    assert_eq!(folder_track_positions(&tracks, "/music/jazz/"), vec![0, 2]);
    assert_eq!(folder_track_positions(&tracks, "/music/jazz/live"), vec![1]);
    assert!(folder_track_positions(&tracks, "/music").is_empty());
}
