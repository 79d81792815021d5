//! Row structures handed to the user interface, and the conversions that fill
//! them from domain values.
use vstd::prelude::*;
use std::collections::HashSet;
use crate::library::Track;
use crate::playback::RepeatMode;
use crate::text::{chars_to_string, decimal_chars, digit_char, push_decimal};

verus! {

broadcast use vstd::std_specs::hash::group_hash_axioms;

/// A folder row of the folder browser.
#[derive(Debug, Clone)]
pub struct FolderItem {
    pub path: String,
    pub name: String,
    pub track_count: i32,
    pub is_parent: bool,
}

/// A toast row as the UI shows it.
#[derive(Debug, Clone)]
pub struct ToastItem {
    pub id: i32,
    pub message: String,
    pub level: String,
}

/// One line of the lyrics panel.
#[derive(Debug, Clone)]
pub struct LyricsLine {
    pub timestamp_ms: i32,
    pub text: String,
    pub is_current: bool,
}

/// A playlist row of the sidebar.
#[derive(Debug, Clone)]
pub struct PlaylistItem {
    pub id: i32,
    pub name: String,
    pub track_count: i32,
}

/// A folder row; the count is narrowed to the UI's 32-bit integer.
pub fn folder_to_item(path: &str, name: &str, track_count: u32, is_parent: bool) -> (item:
    FolderItem)
    ensures
        item.path@ == path@,
        item.name@ == name@,
        item.track_count == track_count as i32,
        item.is_parent == is_parent,
{
    FolderItem {
        path: path.to_owned(),
        name: name.to_owned(),
        track_count: track_count as i32,
        is_parent,
    }
}

/// A toast row; the id is narrowed to the UI's 32-bit integer.
pub fn toast_to_item(id: u64, message: &str, level: &str) -> (item: ToastItem)
    ensures
        item.id == id as i32,
        item.message@ == message@,
        item.level@ == level@,
{
    ToastItem { id: id as i32, message: message.to_owned(), level: level.to_owned() }
}

/// A lyrics line; the timestamp is narrowed to the UI's 32-bit integer.
pub fn lyrics_line_to_item(timestamp_ms: i64, text: &str, is_current: bool) -> (line: LyricsLine)
    ensures
        line.timestamp_ms == timestamp_ms as i32,
        line.text@ == text@,
        line.is_current == is_current,
{
    LyricsLine { timestamp_ms: timestamp_ms as i32, text: text.to_owned(), is_current }
}

/// A playlist row for the playlist with database id `id`.
pub fn playlist_to_item(id: i64, name: &str, track_count: u32) -> (item: PlaylistItem)
    ensures
        item.id == id as i32,
        item.name@ == name@,
        item.track_count == track_count as i32,
{
    PlaylistItem { id: id as i32, name: name.to_owned(), track_count: track_count as i32 }
}

/// `M:SS` for a duration of `total` whole seconds: minutes without leading
/// zeros, seconds as two digits.
pub open spec fn duration_text(total: nat) -> Seq<char> {
    let m = total / 60;
    let s = total % 60;
    decimal_chars(m) + seq![':', digit_char(s / 10), digit_char(s % 10)]
}

/// Display text of a duration of `total_secs` whole seconds.
pub fn format_duration(total_secs: u32) -> (s: String)
    ensures
        s@ == duration_text(total_secs as nat),
{
    let m = total_secs / 60;
    let sec = total_secs % 60;
    let mut out: Vec<char> = Vec::new();
    push_decimal(&mut out, m as u64);
    out.push(':');
    let tens: u8 = 48u8 + (sec / 10) as u8;
    let ones: u8 = 48u8 + (sec % 10) as u8;
    out.push(tens as char);
    out.push(ones as char);
    assert(out@ =~= duration_text(total_secs as nat));
    chars_to_string(&out)
}

/// The lower-case name of a repeat mode, as the UI expects it.
pub open spec fn repeat_mode_name(mode: RepeatMode) -> Seq<char> {
    match mode {
        RepeatMode::Off => "off"@,
        RepeatMode::All => "all"@,
        RepeatMode::One => "one"@,
    }
}

/// Lower-case name of a repeat mode.
pub fn repeat_mode_str(mode: RepeatMode) -> (s: &'static str)
    ensures
        s@ == repeat_mode_name(mode),
{
    match mode {
        RepeatMode::Off => "off",
        RepeatMode::All => "all",
        RepeatMode::One => "one",
    }
}

/// A track row of the track list, with the flags that depend on playback.
/// What the library does not hold (duration, format, tags, cover art) the
/// interface adds to the row.
#[derive(Debug, Clone)]
pub struct TrackItem {
    pub id: i32,
    pub title: String,
    pub artist: String,
    pub album: String,
    pub play_count: u32,
    pub file_path: String,
    pub is_favorite: bool,
    pub is_playing: bool,
    pub is_paused: bool,
}

/// The text of an optional tag; empty when the tag is missing.
pub open spec fn text_or_empty(o: Option<String>) -> Seq<char> {
    match o {
        Some(s) => s@,
        None => Seq::empty(),
    }
}

/// `item` is the row of `t` with the given flags; the id is narrowed to the
/// UI's 32-bit integer.
pub open spec fn is_track_item(
    item: TrackItem,
    t: Track,
    is_playing: bool,
    is_paused: bool,
    is_favorite: bool,
) -> bool {
    &&& item.id == t.id as i32
    &&& item.title@ == t.title@
    &&& item.artist@ == text_or_empty(t.artist)
    &&& item.album@ == text_or_empty(t.album)
    &&& item.play_count == t.play_count
    &&& item.file_path@ == t.path@
    &&& item.is_favorite == is_favorite
    &&& item.is_playing == is_playing
    &&& item.is_paused == is_paused
}

fn text_of(o: &Option<String>) -> (s: String)
    ensures
        s@ == text_or_empty(*o),
{
    match o {
        Some(t) => t.clone(),
        None => String::new(),
    }
}

/// The row of one track.
pub fn track_to_item(track: &Track, is_playing: bool, is_paused: bool, is_favorite: bool) -> (item:
    TrackItem)
    ensures
        is_track_item(item, *track, is_playing, is_paused, is_favorite),
{
    TrackItem {
        id: track.id as i32,
        title: track.title.clone(),
        artist: text_of(&track.artist),
        album: text_of(&track.album),
        play_count: track.play_count,
        file_path: track.path.clone(),
        is_favorite,
        is_playing,
        is_paused,
    }
}

/// Rows of the track list: the current track is marked playing (or paused
/// when playback is paused), and favorites are marked as such.
pub fn track_rows(
    tracks: &Vec<Track>,
    current_track_id: Option<i64>,
    is_playing: bool,
    favorite_ids: &HashSet<i64>,
) -> (rows: Vec<TrackItem>)
    ensures
        rows@.len() == tracks@.len(),
        forall|i: int|
            0 <= i < tracks@.len() ==> {
                let t = #[trigger] tracks@[i];
                let current = current_track_id == Some(t.id);
                is_track_item(
                    rows@[i],
                    t,
                    current,
                    current && !is_playing,
                    favorite_ids@.contains(t.id),
                )
            },
{
    let mut rows: Vec<TrackItem> = Vec::new();
    let mut i: usize = 0;
    while i < tracks.len()
        invariant
            i <= tracks@.len(),
            rows@.len() == i,
            forall|j: int|
                0 <= j < i ==> {
                    let t = #[trigger] tracks@[j];
                    let current = current_track_id == Some(t.id);
                    is_track_item(
                        rows@[j],
                        t,
                        current,
                        current && !is_playing,
                        favorite_ids@.contains(t.id),
                    )
                },
        decreases tracks.len() - i,
    {
        let t = &tracks[i];
        let current = match current_track_id {
            Some(id) => id == t.id,
            None => false,
        };
        let favorite = favorite_ids.contains(&t.id);
        rows.push(track_to_item(t, current, current && !is_playing, favorite));
        i = i + 1;
    }
    rows
}

} // verus!
