//! Sidebar navigation sections, their identifiers and badge counts.
use vstd::prelude::*;
use crate::library::Track;
use crate::text::str_eq;

verus! {

/// Which navigation section is active.
#[derive(Debug, Clone, Copy, PartialEq, Eq, Structural)]
pub enum NavSection {
    AllTracks,
    Albums,
    Artists,
    Folders,
    Favorites,
    RecentlyPlayed,
    MostPlayed,
    Settings,
}

/// Human-readable label of a section.
pub open spec fn nav_label(s: NavSection) -> Seq<char> {
    match s {
        NavSection::AllTracks => "All Tracks"@,
        NavSection::Albums => "Albums"@,
        NavSection::Artists => "Artists"@,
        NavSection::Folders => "Folders"@,
        NavSection::Favorites => "Favorites"@,
        NavSection::RecentlyPlayed => "Recently Played"@,
        NavSection::MostPlayed => "Most Played"@,
        NavSection::Settings => "Settings"@,
    }
}

/// Identifier string of a section, as used by the UI.
pub open spec fn nav_id(s: NavSection) -> Seq<char> {
    match s {
        NavSection::AllTracks => "all_tracks"@,
        NavSection::Albums => "albums"@,
        NavSection::Artists => "artists"@,
        NavSection::Folders => "folders"@,
        NavSection::Favorites => "favorites"@,
        NavSection::RecentlyPlayed => "recently_played"@,
        NavSection::MostPlayed => "most_played"@,
        NavSection::Settings => "settings"@,
    }
}

/// Section named by an identifier string; unknown strings select All Tracks.
pub open spec fn nav_from_id(s: Seq<char>) -> NavSection {
    if s == "all_tracks"@ {
        NavSection::AllTracks
    } else if s == "albums"@ {
        NavSection::Albums
    } else if s == "artists"@ {
        NavSection::Artists
    } else if s == "folders"@ {
        NavSection::Folders
    } else if s == "favorites"@ {
        NavSection::Favorites
    } else if s == "recently_played"@ {
        NavSection::RecentlyPlayed
    } else if s == "most_played"@ {
        NavSection::MostPlayed
    } else if s == "settings"@ {
        NavSection::Settings
    } else {
        NavSection::AllTracks
    }
}

/// Whole hours in `d` seconds, truncated toward zero.
pub open spec fn whole_hours(d: int) -> int {
    if d >= 0 {
        d / 3600
    } else {
        -((-d) / 3600)
    }
}

/// `t` was last played at most 48 whole hours before `now` (or later).
pub open spec fn played_recently(t: Track, now: i64) -> bool {
    match t.last_played {
        Some(at) => whole_hours(now - at) <= 48,
        None => false,
    }
}

/// Number of tracks in `s` played recently.
pub open spec fn count_recent(s: Seq<Track>, now: i64) -> nat
    decreases s.len(),
{
    if s.len() == 0 {
        0
    } else {
        count_recent(s.drop_last(), now) + if played_recently(s.last(), now) {
            1nat
        } else {
            0nat
        }
    }
}

/// Number of tracks in `s` played more than three times.
pub open spec fn count_frequent(s: Seq<Track>) -> nat
    decreases s.len(),
{
    if s.len() == 0 {
        0
    } else {
        count_frequent(s.drop_last()) + if s.last().play_count > 3 {
            1nat
        } else {
            0nat
        }
    }
}

/// Badge shown for section `nav` over `tracks` at time `now` (Unix seconds).
pub open spec fn badge_for(nav: NavSection, tracks: Seq<Track>, now: i64) -> Option<u32> {
    match nav {
        NavSection::AllTracks => Some(tracks.len() as u32),
        NavSection::RecentlyPlayed => Some(count_recent(tracks, now) as u32),
        NavSection::MostPlayed => Some(
            if count_frequent(tracks) < 30 {
                count_frequent(tracks) as u32
            } else {
                30u32
            },
        ),
        _ => None,
    }
}

/// The system clock's distance from the Unix epoch in whole seconds: after
/// the epoch (`Ok`) or before it (`Err`), through std's `SystemTime::now`
/// and `SystemTime::duration_since`. Nothing is stated of the reading.
#[verifier::external_body]
fn clock_since_epoch() -> Result<u64, u64> {
    match std::time::SystemTime::now().duration_since(std::time::UNIX_EPOCH) {
        Ok(d) => Ok(d.as_secs()),
        Err(e) => Err(e.duration().as_secs()),
    }
}

/// Unix seconds of a clock reading (seconds after the epoch, or before it
/// as a negative value), clamped to what `i64` holds.
pub open spec fn unix_secs_of(reading: Result<u64, u64>) -> int {
    match reading {
        Ok(s) => if s > i64::MAX {
            i64::MAX as int
        } else {
            s as int
        },
        Err(s) => if s > i64::MAX {
            -(i64::MAX as int)
        } else {
            -(s as int)
        },
    }
}

/// Unix seconds of a clock reading.
fn unix_secs(reading: Result<u64, u64>) -> (t: i64)
    ensures
        t == unix_secs_of(reading),
{
    match reading {
        Ok(s) => if s > i64::MAX as u64 {
            i64::MAX
        } else {
            s as i64
        },
        Err(s) => if s > i64::MAX as u64 {
            -i64::MAX
        } else {
            -(s as i64)
        },
    }
}

/// Current time in Unix seconds (UTC), read from the system clock; a clock
/// set before 1970 gives a negative value.
fn utc_now_secs() -> i64 {
    unix_secs(clock_since_epoch())
}

impl NavSection {
    /// Human-readable label.
    pub fn label(&self) -> (s: &'static str)
        ensures
            s@ == nav_label(*self),
    {
        match self {
            NavSection::AllTracks => "All Tracks",
            NavSection::Albums => "Albums",
            NavSection::Artists => "Artists",
            NavSection::Folders => "Folders",
            NavSection::Favorites => "Favorites",
            NavSection::RecentlyPlayed => "Recently Played",
            NavSection::MostPlayed => "Most Played",
            NavSection::Settings => "Settings",
        }
    }

    /// Badge count for this section over the given tracks, with "recently"
    /// measured against the current UTC time. `None` means no badge.
    pub fn badge_count(&self, tracks: &Vec<Track>) -> (r: Option<u32>)
        ensures
            *self != NavSection::RecentlyPlayed ==> r == badge_for(*self, tracks@, 0),
            *self == NavSection::RecentlyPlayed ==> exists|now: i64|
                r == badge_for(*self, tracks@, now),
    {
        let now = utc_now_secs();
        self.badge_count_at(tracks, now)
    }

    /// Badge count for this section at time `now` (Unix seconds): all
    /// tracks; tracks played within the last 48 hours; tracks played more
    /// than three times, capped at 30; no badge for other sections.
    pub fn badge_count_at(&self, tracks: &Vec<Track>, now: i64) -> (r: Option<u32>)
        ensures
            r == badge_for(*self, tracks@, now),
    {
        match self {
            NavSection::AllTracks => Some(#[verifier::truncate] (tracks.len() as u32)),
            NavSection::RecentlyPlayed => {
                let mut c: usize = 0;
                let mut i: usize = 0;
                while i < tracks.len()
                    invariant
                        i <= tracks@.len(),
                        c == count_recent(tracks@.take(i as int), now),
                        c <= i,
                    decreases tracks.len() - i,
                {
                    assert(tracks@.take(i + 1).drop_last() =~= tracks@.take(i as int));
                    let recent = match tracks[i].last_played {
                        Some(at) => {
                            let d: i128 = now as i128 - at as i128;
                            let h: i128 = if d >= 0 {
                                d / 3600
                            } else {
                                -((-d) / 3600)
                            };
                            h <= 48
                        },
                        None => false,
                    };
                    if recent {
                        c = c + 1;
                    }
                    i = i + 1;
                }
                assert(tracks@.take(tracks@.len() as int) =~= tracks@);
                Some(#[verifier::truncate] (c as u32))
            },
            NavSection::MostPlayed => {
                let mut c: usize = 0;
                let mut i: usize = 0;
                while i < tracks.len()
                    invariant
                        i <= tracks@.len(),
                        c == count_frequent(tracks@.take(i as int)),
                        c <= i,
                    decreases tracks.len() - i,
                {
                    assert(tracks@.take(i + 1).drop_last() =~= tracks@.take(i as int));
                    if tracks[i].play_count > 3 {
                        c = c + 1;
                    }
                    i = i + 1;
                }
                assert(tracks@.take(tracks@.len() as int) =~= tracks@);
                if c < 30 {
                    Some(c as u32)
                } else {
                    Some(30)
                }
            },
            _ => None,
        }
    }
}

/// Identifier string used by the UI for a section.
pub fn section_id(s: NavSection) -> (r: &'static str)
    ensures
        r@ == nav_id(s),
{
    match s {
        NavSection::AllTracks => "all_tracks",
        NavSection::Albums => "albums",
        NavSection::Artists => "artists",
        NavSection::Folders => "folders",
        NavSection::Favorites => "favorites",
        NavSection::RecentlyPlayed => "recently_played",
        NavSection::MostPlayed => "most_played",
        NavSection::Settings => "settings",
    }
}

/// Convert a section identifier back to the section; unknown identifiers
/// select All Tracks.
pub fn parse_section(s: &str) -> (r: NavSection)
    ensures
        r == nav_from_id(s@),
{
    if str_eq(s, "all_tracks") {
        NavSection::AllTracks
    } else if str_eq(s, "albums") {
        NavSection::Albums
    } else if str_eq(s, "artists") {
        NavSection::Artists
    } else if str_eq(s, "folders") {
        NavSection::Folders
    } else if str_eq(s, "favorites") {
        NavSection::Favorites
    } else if str_eq(s, "recently_played") {
        NavSection::RecentlyPlayed
    } else if str_eq(s, "most_played") {
        NavSection::MostPlayed
    } else if str_eq(s, "settings") {
        NavSection::Settings
    } else {
        NavSection::AllTracks
    }
}

/// Parsing a section's identifier gives the section back.
pub proof fn lemma_section_id_roundtrip(s: NavSection)
    ensures
        nav_from_id(nav_id(s)) == s,
{
    reveal_strlit("all_tracks");
    reveal_strlit("albums");
    reveal_strlit("artists");
    reveal_strlit("folders");
    reveal_strlit("favorites");
    reveal_strlit("recently_played");
    reveal_strlit("most_played");
    reveal_strlit("settings");
    match s {
        NavSection::AllTracks => {},
        NavSection::Albums => {
            assert("albums"@ != "all_tracks"@) by {
                assert("albums"@.len() != "all_tracks"@.len());
            }
        },
        NavSection::Artists => {
            assert("artists"@[1] != "all_tracks"@[1]);
            assert("artists"@.len() != "albums"@.len());
        },
        NavSection::Folders => {
            assert("folders"@[0] != "all_tracks"@[0]);
            assert("folders"@[0] != "albums"@[0]);
            assert("folders"@[0] != "artists"@[0]);
        },
        NavSection::Favorites => {
            assert("favorites"@[0] != "all_tracks"@[0]);
            assert("favorites"@[0] != "albums"@[0]);
            assert("favorites"@[0] != "artists"@[0]);
            assert("favorites"@[1] != "folders"@[1]);
        },
        NavSection::RecentlyPlayed => {
            assert("recently_played"@[0] != "all_tracks"@[0]);
            assert("recently_played"@[0] != "albums"@[0]);
            assert("recently_played"@[0] != "artists"@[0]);
            assert("recently_played"@[0] != "folders"@[0]);
            assert("recently_played"@[0] != "favorites"@[0]);
        },
        NavSection::MostPlayed => {
            assert("most_played"@[0] != "all_tracks"@[0]);
            assert("most_played"@[0] != "albums"@[0]);
            assert("most_played"@[0] != "artists"@[0]);
            assert("most_played"@[0] != "folders"@[0]);
            assert("most_played"@[0] != "favorites"@[0]);
            assert("most_played"@[0] != "recently_played"@[0]);
        },
        NavSection::Settings => {
            assert("settings"@[0] != "all_tracks"@[0]);
            assert("settings"@[0] != "albums"@[0]);
            assert("settings"@[0] != "artists"@[0]);
            assert("settings"@[0] != "folders"@[0]);
            assert("settings"@[0] != "favorites"@[0]);
            assert("settings"@[0] != "recently_played"@[0]);
            assert("settings"@[0] != "most_played"@[0]);
        },
    }
}

/// The sections listed in the sidebar, in order (settings is reached
/// elsewhere).
pub open spec fn nav_order() -> Seq<NavSection> {
    seq![
        NavSection::AllTracks,
        NavSection::Albums,
        NavSection::Artists,
        NavSection::Folders,
        NavSection::Favorites,
        NavSection::RecentlyPlayed,
        NavSection::MostPlayed,
    ]
}

/// The badge recorded for `s` in `badges` (the first entry for it), or zero.
pub open spec fn badge_lookup(badges: Seq<(NavSection, u32)>, s: NavSection) -> u32
    decreases badges.len(),
{
    if badges.len() == 0 {
        0
    } else if badges[0].0 == s {
        badges[0].1
    } else {
        badge_lookup(badges.drop_first(), s)
    }
}

/// One sidebar entry: section id, label, badge and whether it is selected.
#[derive(Debug, Clone)]
pub struct NavRow {
    pub section: String,
    pub label: String,
    pub badge: i32,
    pub active: bool,
}

/// The badge recorded for `s`.
pub fn find_badge(badges: &Vec<(NavSection, u32)>, s: NavSection) -> (b: u32)
    ensures
        b == badge_lookup(badges@, s),
{
    let mut i: usize = 0;
    assert(badges@.skip(0) =~= badges@);
    while i < badges.len()
        invariant
            i <= badges@.len(),
            badge_lookup(badges@.skip(i as int), s) == badge_lookup(badges@, s),
        decreases badges.len() - i,
    {
        assert(badges@.skip(i as int).drop_first() =~= badges@.skip(i as int + 1));
        if badges[i].0 == s {
            return badges[i].1;
        }
        i = i + 1;
    }
    assert(badges@.skip(i as int) =~= Seq::<(NavSection, u32)>::empty());
    0
}

fn nav_row(s: NavSection, active: NavSection, badges: &Vec<(NavSection, u32)>) -> (r: NavRow)
    ensures
        r.section@ == nav_id(s),
        r.label@ == nav_label(s),
        r.badge == badge_lookup(badges@, s) as i32,
        r.active == (s == active),
{
    NavRow {
        section: section_id(s).to_owned(),
        label: s.label().to_owned(),
        badge: find_badge(badges, s) as i32,
        active: s == active,
    }
}

/// The sidebar entries with the badges of `badges` (zero where none is
/// recorded) and the entry of `active` selected.
pub fn nav_rows(active: NavSection, badges: &Vec<(NavSection, u32)>) -> (rows: Vec<NavRow>)
    ensures
        rows@.len() == nav_order().len(),
        forall|i: int|
            0 <= i < rows@.len() ==> {
                &&& (#[trigger] rows@[i]).section@ == nav_id(nav_order()[i])
                &&& rows@[i].label@ == nav_label(nav_order()[i])
                &&& rows@[i].badge == badge_lookup(badges@, nav_order()[i]) as i32
                &&& rows@[i].active == (nav_order()[i] == active)
            },
{
    let mut rows: Vec<NavRow> = Vec::new();
    rows.push(nav_row(NavSection::AllTracks, active, badges));
    rows.push(nav_row(NavSection::Albums, active, badges));
    rows.push(nav_row(NavSection::Artists, active, badges));
    rows.push(nav_row(NavSection::Folders, active, badges));
    rows.push(nav_row(NavSection::Favorites, active, badges));
    rows.push(nav_row(NavSection::RecentlyPlayed, active, badges));
    rows.push(nav_row(NavSection::MostPlayed, active, badges));
    rows
}

} // verus!
