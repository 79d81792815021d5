//! Requests from media keys and remote-control clients, and what the player
//! does about each of them.
use vstd::prelude::*;
use crate::playback::RepeatMode;
use crate::text::{chars_to_string, decimal_chars, push_decimal, push_str, starts_with, str_eq};

verus! {

/// A request from a media key or a remote-control client. Volume and rate
/// requests carry floating-point levels and are handled where the volume
/// lives.
#[derive(Debug, Clone, PartialEq, Eq)]
pub enum MediaKeyAction {
    Play,
    Pause,
    PlayPause,
    Next,
    Previous,
    Stop,
    VolumeUp,
    VolumeDown,
    Mute,
    SetShuffle(bool),
    /// A loop status name: `"Track"`, `"Playlist"` or anything else (none).
    SetLoopStatus(String),
    OpenUri(String),
    Quit,
    /// Relative seek, in microseconds.
    Seek(i64),
    /// Absolute seek, in microseconds.
    SetPosition { position_us: i64 },
    ToggleShuffle,
    ToggleRepeat,
    GlobalSearch,
}

/// What the player does in answer to a request.
#[derive(Debug, Clone, PartialEq, Eq)]
pub enum MediaResponse {
    Ignore,
    TogglePlayback,
    PlayNext,
    PlayPrevious,
    Stop,
    /// Raise (or lower) the volume by one step, within `[0, 1]`.
    VolumeStep { up: bool },
    ToggleMute,
    SetShuffle(bool),
    SetRepeat(RepeatMode),
    /// Hand a `file://` URI to the engine.
    OpenUri(String),
    /// Refuse (and log) a URI of another scheme.
    RejectUri(String),
    Quit,
    SeekBy { offset_us: i64 },
    SeekTo { position_us: i64 },
    ToggleShuffle,
    ToggleRepeat,
    FocusSearch,
}

/// Repeat mode named by a loop status.
pub open spec fn loop_status_mode(status: Seq<char>) -> RepeatMode {
    if status == "Track"@ {
        RepeatMode::One
    } else if status == "Playlist"@ {
        RepeatMode::All
    } else {
        RepeatMode::Off
    }
}

/// The answer to `a` while playback is (or is not) running: play and pause
/// toggle only when they change something; only `file://` URIs are opened.
pub open spec fn media_response(a: MediaKeyAction, is_playing: bool) -> MediaResponse {
    match a {
        MediaKeyAction::Play => if is_playing {
            MediaResponse::Ignore
        } else {
            MediaResponse::TogglePlayback
        },
        MediaKeyAction::Pause => if is_playing {
            MediaResponse::TogglePlayback
        } else {
            MediaResponse::Ignore
        },
        MediaKeyAction::PlayPause => MediaResponse::TogglePlayback,
        MediaKeyAction::Next => MediaResponse::PlayNext,
        MediaKeyAction::Previous => MediaResponse::PlayPrevious,
        MediaKeyAction::Stop => MediaResponse::Stop,
        MediaKeyAction::VolumeUp => MediaResponse::VolumeStep { up: true },
        MediaKeyAction::VolumeDown => MediaResponse::VolumeStep { up: false },
        MediaKeyAction::Mute => MediaResponse::ToggleMute,
        MediaKeyAction::SetShuffle(b) => MediaResponse::SetShuffle(b),
        MediaKeyAction::SetLoopStatus(s) => MediaResponse::SetRepeat(loop_status_mode(s@)),
        MediaKeyAction::OpenUri(u) => if "file://"@.is_prefix_of(u@) {
            MediaResponse::OpenUri(u)
        } else {
            MediaResponse::RejectUri(u)
        },
        MediaKeyAction::Quit => MediaResponse::Quit,
        MediaKeyAction::Seek(off) => MediaResponse::SeekBy { offset_us: off },
        MediaKeyAction::SetPosition { position_us } => MediaResponse::SeekTo { position_us },
        MediaKeyAction::ToggleShuffle => MediaResponse::ToggleShuffle,
        MediaKeyAction::ToggleRepeat => MediaResponse::ToggleRepeat,
        MediaKeyAction::GlobalSearch => MediaResponse::FocusSearch,
    }
}

/// The repeat mode a loop status names.
pub fn loop_status_to_repeat(status: &str) -> (m: RepeatMode)
    ensures
        m == loop_status_mode(status@),
{
    if str_eq(status, "Track") {
        RepeatMode::One
    } else if str_eq(status, "Playlist") {
        RepeatMode::All
    } else {
        RepeatMode::Off
    }
}

/// Decide how to answer one media request.
pub fn respond_to_media_key(action: MediaKeyAction, is_playing: bool) -> (r: MediaResponse)
    ensures
        r == media_response(action, is_playing),
{
    match action {
        MediaKeyAction::Play => if is_playing {
            MediaResponse::Ignore
        } else {
            MediaResponse::TogglePlayback
        },
        MediaKeyAction::Pause => if is_playing {
            MediaResponse::TogglePlayback
        } else {
            MediaResponse::Ignore
        },
        MediaKeyAction::PlayPause => MediaResponse::TogglePlayback,
        MediaKeyAction::Next => MediaResponse::PlayNext,
        MediaKeyAction::Previous => MediaResponse::PlayPrevious,
        MediaKeyAction::Stop => MediaResponse::Stop,
        MediaKeyAction::VolumeUp => MediaResponse::VolumeStep { up: true },
        MediaKeyAction::VolumeDown => MediaResponse::VolumeStep { up: false },
        MediaKeyAction::Mute => MediaResponse::ToggleMute,
        MediaKeyAction::SetShuffle(b) => MediaResponse::SetShuffle(b),
        MediaKeyAction::SetLoopStatus(s) => MediaResponse::SetRepeat(loop_status_to_repeat(&s)),
        MediaKeyAction::OpenUri(u) => if starts_with(&u, "file://") {
            MediaResponse::OpenUri(u)
        } else {
            MediaResponse::RejectUri(u)
        },
        MediaKeyAction::Quit => MediaResponse::Quit,
        MediaKeyAction::Seek(off) => MediaResponse::SeekBy { offset_us: off },
        MediaKeyAction::SetPosition { position_us } => MediaResponse::SeekTo { position_us },
        MediaKeyAction::ToggleShuffle => MediaResponse::ToggleShuffle,
        MediaKeyAction::ToggleRepeat => MediaResponse::ToggleRepeat,
        MediaKeyAction::GlobalSearch => MediaResponse::FocusSearch,
    }
}

/// Decimal text of `n`, with a leading minus sign when negative.
pub open spec fn signed_decimal(n: int) -> Seq<char> {
    if n < 0 {
        seq!['-'] + decimal_chars((-n) as nat)
    } else {
        decimal_chars(n as nat)
    }
}

/// The remote-control object path naming the track with id `track_id`.
pub open spec fn track_object_path(track_id: i64) -> Seq<char> {
    "/org/tunecraft/track/"@ + signed_decimal(track_id as int)
}

/// Object path under which remote-control clients see a track.
pub fn mpris_track_id(track_id: i64) -> (s: String)
    ensures
        s@ == track_object_path(track_id),
{
    let mut out: Vec<char> = Vec::new();
    push_str(&mut out, "/org/tunecraft/track/");
    if track_id < 0 {
        out.push('-');
        let magnitude: u64 = if track_id == i64::MIN {
            0x8000_0000_0000_0000u64
        } else {
            (-track_id) as u64
        };
        push_decimal(&mut out, magnitude);
    } else {
        push_decimal(&mut out, track_id as u64);
    }
    assert(out@ =~= track_object_path(track_id));
    chars_to_string(&out)
}

} // verus!
