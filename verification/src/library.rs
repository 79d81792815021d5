//! Library state: the track model, paging through the track list, scan
//! status, favorites and sidebar badge counts.
use vstd::prelude::*;
use std::collections::HashSet;
use crate::sidebar::{badge_for, NavSection};
use crate::text::{chars_to_string, decimal_chars, push_decimal, push_str};

verus! {

broadcast use vstd::std_specs::hash::group_hash_axioms;

/// A library track (the fields the player logic reads).
#[derive(Debug, Clone)]
pub struct Track {
    pub id: i64,
    pub path: String,
    pub title: String,
    pub artist: Option<String>,
    pub album: Option<String>,
    pub play_count: u32,
    /// When the track was last played, in Unix seconds (UTC).
    pub last_played: Option<i64>,
    /// Synced lyrics in LRC format, if stored.
    pub lyrics_synced: Option<String>,
}

/// Progress report from a library scan.
#[derive(Debug, Clone, Copy)]
pub struct ScanProgress {
    pub files_found: usize,
    pub files_processed: usize,
    pub files_added: usize,
    pub files_updated: usize,
}

impl ScanProgress {
    /// Whether a scan reports this progress to the UI: on every tenth file
    /// processed, and when all files found have been processed.
    pub fn worth_reporting(&self) -> (b: bool)
        ensures
            b == (self.files_processed % 10 == 0 || self.files_processed == self.files_found),
    {
        self.files_processed % 10 == 0 || self.files_processed == self.files_found
    }
}

/// Snapshot of library state read by the UI.
pub struct LibrarySnapshot {
    /// Current page of tracks.
    pub tracks: Vec<Track>,
    /// Total number of tracks in the library.
    pub total_track_count: usize,
    /// Favorite track ids.
    pub favorite_ids: HashSet<i64>,
    /// Whether a library scan is in progress.
    pub is_scanning: bool,
    /// Status message.
    pub status_message: String,
}

/// Index of the last page for `total` tracks, `per_page` to a page.
pub open spec fn last_page(total: nat, per_page: nat) -> nat {
    if total == 0 {
        0
    } else if total % per_page == 0 {
        (total / per_page - 1) as nat
    } else {
        total / per_page
    }
}

/// "Scan complete: A added, U updated".
pub open spec fn scan_complete_message(added: nat, updated: nat) -> Seq<char> {
    "Scan complete: "@ + decimal_chars(added) + " added, "@ + decimal_chars(updated) + " updated"@
}

/// "Scanning P/F files...".
pub open spec fn scanning_message(processed: nat, found: nat) -> Seq<char> {
    "Scanning "@ + decimal_chars(processed) + "/"@ + decimal_chars(found) + " files..."@
}

/// Scan status after a check: from the latest progress report (if any),
/// the completion and failure signals, and the previous status.
pub open spec fn scan_status_after(
    was_scanning: bool,
    message: Seq<char>,
    progress: Option<ScanProgress>,
    done: bool,
    failed: bool,
) -> (bool, Seq<char>) {
    match progress {
        Some(p) => (
            !done,
            if done {
                if failed {
                    "Library scan failed"@
                } else {
                    scan_complete_message(p.files_added as nat, p.files_updated as nat)
                }
            } else {
                scanning_message(p.files_processed as nat, p.files_found as nat)
            },
        ),
        None => if done && was_scanning {
            (
                false,
                if failed {
                    "Library scan failed"@
                } else {
                    "Library scan complete"@
                },
            )
        } else if !done && !was_scanning {
            (true, "Scanning library..."@)
        } else {
            (was_scanning, message)
        },
    }
}

/// A finished scan is reported by what it did: when the scan is done and
/// has failed, the status reads "Library scan failed" and scanning stops,
/// whether or not a progress report came (without one, only a scan that was
/// under way is reported; otherwise nothing changes). When it is done and
/// has not failed, a progress report's counts are shown, and no report
/// ends a running scan with "Library scan complete".
pub proof fn lemma_finished_scan_reports_outcome(
    was_scanning: bool,
    message: Seq<char>,
    progress: Option<ScanProgress>,
    failed: bool,
)
    ensures
        failed && (progress is Some || was_scanning) ==> scan_status_after(
            was_scanning,
            message,
            progress,
            true,
            failed,
        ) == (false, "Library scan failed"@),
        !failed && progress is Some ==> scan_status_after(was_scanning, message, progress, true, failed)
            == (false, "Scan complete: "@ + decimal_chars(progress->0.files_added as nat)
            + " added, "@ + decimal_chars(progress->0.files_updated as nat) + " updated"@),
        !failed && progress is None && was_scanning ==> scan_status_after(
            was_scanning,
            message,
            progress,
            true,
            failed,
        ) == (false, "Library scan complete"@),
        progress is None && !was_scanning ==> scan_status_after(
            was_scanning,
            message,
            progress,
            true,
            failed,
        ) == (false, message),
        progress matches Some(p) ==> scan_status_after(was_scanning, message, progress, false, failed)
            == (true, "Scanning "@ + decimal_chars(p.files_processed as nat) + "/"@
            + decimal_chars(p.files_found as nat) + " files..."@),
{
}

/// Library paging, snapshot and scan-status state.
pub struct LibraryService {
    snapshot: LibrarySnapshot,
    track_page: usize,
    tracks_per_page: usize,
}

impl LibraryService {
    /// Pages hold at least one track.
    #[verifier::type_invariant]
    closed spec fn page_size_positive(&self) -> bool {
        self.tracks_per_page > 0
    }

    /// An empty library shown `tracks_per_page` tracks at a time.
    pub fn new(tracks_per_page: usize) -> (s: Self)
        requires
            tracks_per_page > 0,
        ensures
            s.page() == 0,
            s.per_page() == tracks_per_page,
            s.snapshot_view().tracks@.len() == 0,
            s.snapshot_view().total_track_count == 0,
            s.snapshot_view().favorite_ids@ == Set::<i64>::empty(),
            !s.snapshot_view().is_scanning,
            s.snapshot_view().status_message@ == Seq::<char>::empty(),
    {
        LibraryService {
            snapshot: LibrarySnapshot {
                tracks: Vec::new(),
                total_track_count: 0,
                favorite_ids: HashSet::new(),
                is_scanning: false,
                status_message: String::new(),
            },
            track_page: 0,
            tracks_per_page,
        }
    }

    /// Current page index.
    pub closed spec fn page(&self) -> nat {
        self.track_page as nat
    }

    /// Tracks per page.
    pub closed spec fn per_page(&self) -> nat {
        self.tracks_per_page as nat
    }

    /// The snapshot.
    pub closed spec fn snapshot_view(&self) -> &LibrarySnapshot {
        &self.snapshot
    }

    /// The library snapshot.
    pub fn snapshot(&self) -> (s: &LibrarySnapshot)
        ensures
            s == self.snapshot_view(),
    {
        &self.snapshot
    }

    /// The page shown.
    pub fn current_page(&self) -> (p: usize)
        ensures
            p == self.page(),
    {
        self.track_page
    }

    /// How many tracks a page shows.
    pub fn tracks_per_page(&self) -> (n: usize)
        ensures
            n == self.per_page(),
            n > 0,
    {
        proof {
            use_type_invariant(self);
        }
        self.tracks_per_page
    }

    /// The `(limit, offset)` of the current page's track query.
    pub fn page_query(&self) -> (r: (usize, usize))
        requires
            self.page() * self.per_page() <= usize::MAX,
        ensures
            r.0 == self.per_page(),
            r.1 == self.page() * self.per_page(),
    {
        (self.tracks_per_page, self.track_page * self.tracks_per_page)
    }

    /// Store a freshly queried page of tracks and the library's total count.
    pub fn refresh_tracks(&mut self, total: usize, tracks: Vec<Track>)
        ensures
            final(self).snapshot_view().tracks@ == tracks@,
            final(self).snapshot_view().total_track_count == total,
            final(self).snapshot_view().favorite_ids@ == old(self).snapshot_view().favorite_ids@,
            final(self).snapshot_view().is_scanning == old(self).snapshot_view().is_scanning,
            final(self).snapshot_view().status_message@ == old(
                self,
            ).snapshot_view().status_message@,
            final(self).page() == old(self).page(),
            final(self).per_page() == old(self).per_page(),
    {
        proof {
            use_type_invariant(&*self);
        }
        self.snapshot.total_track_count = total;
        self.snapshot.tracks = tracks;
    }

    /// Replace the cached favorite ids.
    pub fn refresh_favorite_ids(&mut self, ids: &Vec<i64>)
        ensures
            final(self).snapshot_view().favorite_ids@ == ids@.to_set(),
            final(self).snapshot_view().tracks@ == old(self).snapshot_view().tracks@,
            final(self).snapshot_view().total_track_count == old(
                self,
            ).snapshot_view().total_track_count,
            final(self).snapshot_view().is_scanning == old(self).snapshot_view().is_scanning,
            final(self).snapshot_view().status_message@ == old(
                self,
            ).snapshot_view().status_message@,
            final(self).page() == old(self).page(),
            final(self).per_page() == old(self).per_page(),
    {
        proof {
            use_type_invariant(&*self);
        }
        let mut set: HashSet<i64> = HashSet::new();
        let mut i: usize = 0;
        while i < ids.len()
            invariant
                i <= ids@.len(),
                set@ == ids@.take(i as int).to_set(),
            decreases ids.len() - i,
        {
            set.insert(ids[i]);
            proof {
                assert(ids@.take(i + 1) =~= ids@.take(i as int).push(ids@[i as int]));
                ids@.take(i as int).lemma_push_to_set_commute(ids@[i as int]);
            }
            i = i + 1;
        }
        assert(ids@.take(ids@.len() as int) =~= ids@);
        self.snapshot.favorite_ids = set;
    }

    /// Whether a track is a favorite.
    pub fn is_favorite(&self, track_id: i64) -> (r: bool)
        ensures
            r == self.snapshot_view().favorite_ids@.contains(track_id),
    {
        self.snapshot.favorite_ids.contains(&track_id)
    }

    /// Move to the next page when there is one; returns whether the page
    /// changed (and the track list must be queried again).
    pub fn next_page(&mut self) -> (moved: bool)
        ensures
            moved == (old(self).page() < last_page(
                old(self).snapshot_view().total_track_count as nat,
                old(self).per_page(),
            )),
            final(self).page() == if moved {
                old(self).page() + 1
            } else {
                old(self).page()
            },
            final(self).per_page() == old(self).per_page(),
            final(self).snapshot_view() == old(self).snapshot_view(),
    {
        proof {
            use_type_invariant(&*self);
        }
        let total = self.snapshot.total_track_count;
        let per_page = self.tracks_per_page;
        let max_page = if total == 0 {
            0
        } else if total % per_page == 0 {
            assert(total / per_page >= 1) by (nonlinear_arith)
                requires
                    total > 0,
                    per_page > 0,
                    total % per_page == 0,
            ;
            total / per_page - 1
        } else {
            total / per_page
        };
        if self.track_page < max_page {
            self.track_page = self.track_page + 1;
            true
        } else {
            false
        }
    }

    /// Move to the previous page when there is one; returns whether the
    /// page changed.
    pub fn prev_page(&mut self) -> (moved: bool)
        ensures
            moved == (old(self).page() > 0),
            final(self).page() == if moved {
                (old(self).page() - 1) as nat
            } else {
                old(self).page()
            },
            final(self).per_page() == old(self).per_page(),
            final(self).snapshot_view() == old(self).snapshot_view(),
    {
        proof {
            use_type_invariant(&*self);
        }
        if self.track_page > 0 {
            self.track_page = self.track_page - 1;
            true
        } else {
            false
        }
    }

    /// Update the scan status from the latest progress report drained from
    /// the scan thread (if any) and the completion and failure signals.
    pub fn check_scan_state(
        &mut self,
        latest_progress: Option<ScanProgress>,
        scan_done: bool,
        scan_failed: bool,
    )
        ensures
            (final(self).snapshot_view().is_scanning, final(self).snapshot_view().status_message@)
                == scan_status_after(
                old(self).snapshot_view().is_scanning,
                old(self).snapshot_view().status_message@,
                latest_progress,
                scan_done,
                scan_failed,
            ),
            final(self).snapshot_view().tracks@ == old(self).snapshot_view().tracks@,
            final(self).snapshot_view().total_track_count == old(
                self,
            ).snapshot_view().total_track_count,
            final(self).snapshot_view().favorite_ids@ == old(self).snapshot_view().favorite_ids@,
            final(self).page() == old(self).page(),
            final(self).per_page() == old(self).per_page(),
    {
        proof {
            use_type_invariant(&*self);
        }
        match latest_progress {
            Some(p) => {
                self.snapshot.is_scanning = !scan_done;
                if scan_done {
                    if scan_failed {
                        self.snapshot.status_message = "Library scan failed".to_owned();
                    } else {
                        let mut m: Vec<char> = Vec::new();
                        push_str(&mut m, "Scan complete: ");
                        push_decimal(&mut m, p.files_added as u64);
                        push_str(&mut m, " added, ");
                        push_decimal(&mut m, p.files_updated as u64);
                        push_str(&mut m, " updated");
                        assert(m@ =~= scan_complete_message(
                            p.files_added as nat,
                            p.files_updated as nat,
                        ));
                        self.snapshot.status_message = chars_to_string(&m);
                    }
                } else {
                    let mut m: Vec<char> = Vec::new();
                    push_str(&mut m, "Scanning ");
                    push_decimal(&mut m, p.files_processed as u64);
                    push_str(&mut m, "/");
                    push_decimal(&mut m, p.files_found as u64);
                    push_str(&mut m, " files...");
                    assert(m@ =~= scanning_message(p.files_processed as nat, p.files_found as nat));
                    self.snapshot.status_message = chars_to_string(&m);
                }
            },
            None => {
                if scan_done && self.snapshot.is_scanning {
                    self.snapshot.is_scanning = false;
                    if scan_failed {
                        self.snapshot.status_message = "Library scan failed".to_owned();
                    } else {
                        self.snapshot.status_message = "Library scan complete".to_owned();
                    }
                } else if !scan_done && !self.snapshot.is_scanning {
                    self.snapshot.is_scanning = true;
                    self.snapshot.status_message = "Scanning library...".to_owned();
                }
            },
        }
    }

    /// Favorite state after a toggle: the flipped state when the database
    /// write succeeded, the old state when it failed.
    pub fn toggle_favorite(&self, currently_favorited: bool, write_succeeded: bool) -> (r: bool)
        ensures
            r == if write_succeeded {
                !currently_favorited
            } else {
                currently_favorited
            },
    {
        if write_succeeded {
            !currently_favorited
        } else {
            currently_favorited
        }
    }

    /// Badge counts for the sidebar at time `now` (Unix seconds): the
    /// counted sections over the current page of tracks, then Favorites
    /// from the cached favorite ids.
    pub fn compute_badge_counts(&self, now: i64) -> (r: Vec<(NavSection, u32)>)
        ensures
            r@.len() == 4,
            r@[0] == (NavSection::AllTracks, badge_for(
                NavSection::AllTracks,
                self.snapshot_view().tracks@,
                now,
            ).unwrap_or(0)),
            r@[1] == (NavSection::RecentlyPlayed, badge_for(
                NavSection::RecentlyPlayed,
                self.snapshot_view().tracks@,
                now,
            ).unwrap_or(0)),
            r@[2] == (NavSection::MostPlayed, badge_for(
                NavSection::MostPlayed,
                self.snapshot_view().tracks@,
                now,
            ).unwrap_or(0)),
            r@[3] == (NavSection::Favorites, self.snapshot_view().favorite_ids@.len() as u32),
    {
        let mut r: Vec<(NavSection, u32)> = Vec::new();
        let a = NavSection::AllTracks.badge_count_at(&self.snapshot.tracks, now);
        r.push((NavSection::AllTracks, a.unwrap_or(0)));
        let b = NavSection::RecentlyPlayed.badge_count_at(&self.snapshot.tracks, now);
        r.push((NavSection::RecentlyPlayed, b.unwrap_or(0)));
        let c = NavSection::MostPlayed.badge_count_at(&self.snapshot.tracks, now);
        r.push((NavSection::MostPlayed, c.unwrap_or(0)));
        let f = self.snapshot.favorite_ids.len();
        r.push((NavSection::Favorites, #[verifier::truncate] (f as u32)));
        r
    }
}

/// After a library scan has finished: whether the refreshed track list
/// replaces the displayed one (the library now holds more tracks than the
/// queue), and whether the play queue is replaced as well (nothing is
/// current, so no session is interrupted).
pub fn queue_after_scan(library_len: usize, queue_len: usize, has_current_track: bool) -> (r: (
    bool,
    bool,
))
    ensures
        r.0 == (library_len > queue_len),
        r.1 == (library_len > queue_len && !has_current_track),
{
    let grew = library_len > queue_len;
    (grew, grew && !has_current_track)
}

} // verus!
