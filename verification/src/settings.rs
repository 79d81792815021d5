//! Settings: when modified settings are written back to disk (at most once
//! per save interval, and only after something changed), and the colour
//! theme names.
use vstd::prelude::*;
use crate::text::str_eq;

verus! {

/// Seconds that must pass between two saves.
pub const SAVE_INTERVAL_SECS: u64 = 30;

/// Dirty tracking for the settings file. Times are milliseconds on the
/// caller's monotonic clock.
#[derive(Debug, Clone, Copy, PartialEq, Eq, Structural)]
pub struct SaveSchedule {
    pub dirty: bool,
    pub last_save_ms: u64,
    pub interval_secs: u64,
}

/// Milliseconds from `last` to `now`, zero when `now` is earlier.
pub open spec fn elapsed_ms(last: u64, now: u64) -> int {
    if now >= last {
        now - last
    } else {
        0
    }
}

/// A save is due at `now`: something changed and the interval has passed
/// since the last save.
pub open spec fn save_is_due(s: SaveSchedule, now_ms: u64) -> bool {
    s.dirty && elapsed_ms(s.last_save_ms, now_ms) >= s.interval_secs * 1000
}

impl SaveSchedule {
    /// Nothing to save; the last save counts as `now_ms`.
    pub fn new(now_ms: u64) -> (s: Self)
        ensures
            s == (SaveSchedule { dirty: false, last_save_ms: now_ms, interval_secs: SAVE_INTERVAL_SECS }),
    {
        SaveSchedule { dirty: false, last_save_ms: now_ms, interval_secs: SAVE_INTERVAL_SECS }
    }

    /// Note that the settings were modified.
    pub fn mark_dirty(&mut self)
        ensures
            *final(self) == (SaveSchedule { dirty: true, ..*old(self) }),
    {
        self.dirty = true;
    }

    /// Whether the settings were modified since the last save.
    pub fn is_dirty(&self) -> (b: bool)
        ensures
            b == self.dirty,
    {
        self.dirty
    }

    /// Whether to write the settings at `now_ms`.
    pub fn save_due(&self, now_ms: u64) -> (b: bool)
        ensures
            b == save_is_due(*self, now_ms),
    {
        if !self.dirty {
            return false;
        }
        let elapsed: u64 = if now_ms >= self.last_save_ms {
            now_ms - self.last_save_ms
        } else {
            0
        };
        (elapsed as u128) >= (self.interval_secs as u128) * 1000
    }

    /// Record the outcome of a write attempted at `now_ms`: a successful one
    /// clears the dirty flag and restarts the interval; a failed one changes
    /// nothing. Returns whether the settings were saved.
    pub fn record_save(&mut self, succeeded: bool, now_ms: u64) -> (saved: bool)
        ensures
            saved == succeeded,
            succeeded ==> *final(self) == (SaveSchedule {
                dirty: false,
                last_save_ms: now_ms,
                interval_secs: old(self).interval_secs,
            }),
            !succeeded ==> *final(self) == *old(self),
    {
        if succeeded {
            self.dirty = false;
            self.last_save_ms = now_ms;
        }
        succeeded
    }
}

/// After a successful save nothing is due again until the settings are
/// modified, whatever the time.
pub proof fn lemma_clean_after_save(s: SaveSchedule, saved_at: u64, later: u64)
    ensures
        !save_is_due(SaveSchedule { dirty: false, last_save_ms: saved_at, interval_secs: s.interval_secs }, later),
{
}

/// Colour theme of the interface.
#[derive(Debug, Clone, Copy, PartialEq, Eq, Structural)]
pub enum Theme {
    Light,
    Dark,
    System,
    Ocean,
    Forest,
    Sunset,
    Berry,
    Midnight,
    Rose,
    Coffee,
    Mint,
}

/// The lower-case name of a theme.
pub open spec fn theme_name(t: Theme) -> Seq<char> {
    match t {
        Theme::Light => "light"@,
        Theme::Dark => "dark"@,
        Theme::System => "system"@,
        Theme::Ocean => "ocean"@,
        Theme::Forest => "forest"@,
        Theme::Sunset => "sunset"@,
        Theme::Berry => "berry"@,
        Theme::Midnight => "midnight"@,
        Theme::Rose => "rose"@,
        Theme::Coffee => "coffee"@,
        Theme::Mint => "mint"@,
    }
}

/// The theme named `s`; an unknown name selects the dark theme.
pub open spec fn theme_named(s: Seq<char>) -> Theme {
    if s == "light"@ {
        Theme::Light
    } else if s == "system"@ {
        Theme::System
    } else if s == "ocean"@ {
        Theme::Ocean
    } else if s == "forest"@ {
        Theme::Forest
    } else if s == "sunset"@ {
        Theme::Sunset
    } else if s == "berry"@ {
        Theme::Berry
    } else if s == "midnight"@ {
        Theme::Midnight
    } else if s == "rose"@ {
        Theme::Rose
    } else if s == "coffee"@ {
        Theme::Coffee
    } else if s == "mint"@ {
        Theme::Mint
    } else {
        Theme::Dark
    }
}

/// The lower-case name of a theme, as the settings view shows it.
pub fn theme_str(t: Theme) -> (s: &'static str)
    ensures
        s@ == theme_name(t),
{
    match t {
        Theme::Light => "light",
        Theme::Dark => "dark",
        Theme::System => "system",
        Theme::Ocean => "ocean",
        Theme::Forest => "forest",
        Theme::Sunset => "sunset",
        Theme::Berry => "berry",
        Theme::Midnight => "midnight",
        Theme::Rose => "rose",
        Theme::Coffee => "coffee",
        Theme::Mint => "mint",
    }
}

/// The theme chosen by name in the settings view.
pub fn parse_theme(s: &str) -> (t: Theme)
    ensures
        t == theme_named(s@),
{
    if str_eq(s, "light") {
        Theme::Light
    } else if str_eq(s, "system") {
        Theme::System
    } else if str_eq(s, "ocean") {
        Theme::Ocean
    } else if str_eq(s, "forest") {
        Theme::Forest
    } else if str_eq(s, "sunset") {
        Theme::Sunset
    } else if str_eq(s, "berry") {
        Theme::Berry
    } else if str_eq(s, "midnight") {
        Theme::Midnight
    } else if str_eq(s, "rose") {
        Theme::Rose
    } else if str_eq(s, "coffee") {
        Theme::Coffee
    } else if str_eq(s, "mint") {
        Theme::Mint
    } else {
        Theme::Dark
    }
}

/// A theme's name selects that theme again.
pub proof fn lemma_theme_name_roundtrip(t: Theme)
    ensures
        theme_named(theme_name(t)) == t,
{
    reveal_strlit("light");
    reveal_strlit("dark");
    reveal_strlit("system");
    reveal_strlit("ocean");
    reveal_strlit("forest");
    reveal_strlit("sunset");
    reveal_strlit("berry");
    reveal_strlit("midnight");
    reveal_strlit("rose");
    reveal_strlit("coffee");
    reveal_strlit("mint");
    match t {
        Theme::Light => {},
        Theme::Dark => {
            assert("dark"@.len() != "light"@.len());
            assert("dark"@.len() != "system"@.len());
            assert("dark"@.len() != "ocean"@.len());
            assert("dark"@.len() != "forest"@.len());
            assert("dark"@.len() != "sunset"@.len());
            assert("dark"@.len() != "berry"@.len());
            assert("dark"@.len() != "midnight"@.len());
            assert("dark"@[0] != "rose"@[0]);
            assert("dark"@.len() != "coffee"@.len());
            assert("dark"@[0] != "mint"@[0]);
        },
        Theme::System => {
            assert("system"@.len() != "light"@.len());
        },
        Theme::Ocean => {
            assert("ocean"@[0] != "light"@[0]);
            assert("ocean"@.len() != "system"@.len());
        },
        Theme::Forest => {
            assert("forest"@.len() != "light"@.len());
            assert("forest"@[0] != "system"@[0]);
            assert("forest"@.len() != "ocean"@.len());
        },
        Theme::Sunset => {
            assert("sunset"@.len() != "light"@.len());
            assert("sunset"@[1] != "system"@[1]);
            assert("sunset"@.len() != "ocean"@.len());
            assert("sunset"@[0] != "forest"@[0]);
        },
        Theme::Berry => {
            assert("berry"@[0] != "light"@[0]);
            assert("berry"@.len() != "system"@.len());
            assert("berry"@[0] != "ocean"@[0]);
            assert("berry"@.len() != "forest"@.len());
            assert("berry"@.len() != "sunset"@.len());
        },
        Theme::Midnight => {
            assert("midnight"@.len() != "light"@.len());
            assert("midnight"@.len() != "system"@.len());
            assert("midnight"@.len() != "ocean"@.len());
            assert("midnight"@.len() != "forest"@.len());
            assert("midnight"@.len() != "sunset"@.len());
            assert("midnight"@.len() != "berry"@.len());
        },
        Theme::Rose => {
            assert("rose"@.len() != "light"@.len());
            assert("rose"@.len() != "system"@.len());
            assert("rose"@.len() != "ocean"@.len());
            assert("rose"@.len() != "forest"@.len());
            assert("rose"@.len() != "sunset"@.len());
            assert("rose"@.len() != "berry"@.len());
            assert("rose"@.len() != "midnight"@.len());
        },
        Theme::Coffee => {
            assert("coffee"@.len() != "light"@.len());
            assert("coffee"@[0] != "system"@[0]);
            assert("coffee"@.len() != "ocean"@.len());
            assert("coffee"@[0] != "forest"@[0]);
            assert("coffee"@[0] != "sunset"@[0]);
            assert("coffee"@.len() != "berry"@.len());
            assert("coffee"@.len() != "midnight"@.len());
            assert("coffee"@.len() != "rose"@.len());
        },
        Theme::Mint => {
            assert("mint"@.len() != "light"@.len());
            assert("mint"@.len() != "system"@.len());
            assert("mint"@.len() != "ocean"@.len());
            assert("mint"@.len() != "forest"@.len());
            assert("mint"@.len() != "sunset"@.len());
            assert("mint"@.len() != "berry"@.len());
            assert("mint"@.len() != "midnight"@.len());
            assert("mint"@[0] != "rose"@[0]);
            assert("mint"@.len() != "coffee"@.len());
        },
    }
}

} // verus!
