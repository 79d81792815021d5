//! The track list: sorting by a column (clicking a column again reverses
//! the order) and choosing the page to show.
use vstd::prelude::*;
use crate::library::{last_page, LibraryService, Track};
use crate::text::{lex_le, str_eq, to_chars};

verus! {

/// A column the track list can be sorted by.
#[derive(Debug, Clone, Copy, PartialEq, Eq, Structural)]
pub enum SortColumn {
    Title,
    Artist,
    Album,
}

/// The value of `t` in column `c`; a missing artist or album sorts first.
pub open spec fn sort_key(t: Track, c: SortColumn) -> Option<Seq<char>> {
    match c {
        SortColumn::Title => Some(t.title@),
        SortColumn::Artist => match t.artist {
            Some(a) => Some(a@),
            None => None,
        },
        SortColumn::Album => match t.album {
            Some(a) => Some(a@),
            None => None,
        },
    }
}

/// Order of column values: none first, then texts lexicographically.
pub open spec fn key_le(a: Option<Seq<char>>, b: Option<Seq<char>>) -> bool {
    match a {
        None => true,
        Some(x) => match b {
            None => false,
            Some(y) => lex_le(x, y),
        },
    }
}

/// `s` with `x` placed after every track whose value is not greater.
pub open spec fn insert_by_key(s: Seq<Track>, x: Track, c: SortColumn) -> Seq<Track>
    decreases s.len(),
{
    if s.len() == 0 {
        seq![x]
    } else if key_le(sort_key(s.last(), c), sort_key(x, c)) {
        s.push(x)
    } else {
        insert_by_key(s.drop_last(), x, c).push(s.last())
    }
}

/// Stable sort of `s` by column `c`.
pub open spec fn sort_by_key(s: Seq<Track>, c: SortColumn) -> Seq<Track>
    decreases s.len(),
{
    if s.len() == 0 {
        Seq::empty()
    } else {
        insert_by_key(sort_by_key(s.drop_last(), c), s.last(), c)
    }
}

/// Values in column `c` never decrease along `s`.
pub open spec fn sorted_by_key(s: Seq<Track>, c: SortColumn) -> bool {
    forall|i: int, j: int|
        0 <= i <= j < s.len() ==> key_le(sort_key(#[trigger] s[i], c), sort_key(#[trigger] s[j], c))
}

/// The track list sorted by `c`, ascending or (reversed) descending.
pub open spec fn sorted_list(s: Seq<Track>, c: SortColumn, ascending: bool) -> Seq<Track> {
    if ascending {
        sort_by_key(s, c)
    } else {
        sort_by_key(s, c).reverse()
    }
}

proof fn lemma_lex_total(a: Seq<char>, b: Seq<char>)
    ensures
        lex_le(a, b) || lex_le(b, a),
    decreases a.len(),
{
    if a.len() > 0 && b.len() > 0 {
        if a[0] == b[0] {
            lemma_lex_total(a.drop_first(), b.drop_first());
        } else {
            assert((a[0] as int) != (b[0] as int));
        }
    }
}

proof fn lemma_lex_trans(a: Seq<char>, b: Seq<char>, c: Seq<char>)
    requires
        lex_le(a, b),
        lex_le(b, c),
    ensures
        lex_le(a, c),
    decreases a.len(),
{
    if a.len() > 0 && b.len() > 0 && c.len() > 0 && a[0] == b[0] && b[0] == c[0] {
        lemma_lex_trans(a.drop_first(), b.drop_first(), c.drop_first());
    }
}

proof fn lemma_key_total(a: Option<Seq<char>>, b: Option<Seq<char>>)
    ensures
        key_le(a, b) || key_le(b, a),
{
    if a is Some && b is Some {
        lemma_lex_total(a->0, b->0);
    }
}

proof fn lemma_key_trans(a: Option<Seq<char>>, b: Option<Seq<char>>, c: Option<Seq<char>>)
    requires
        key_le(a, b),
        key_le(b, c),
    ensures
        key_le(a, c),
{
    if a is Some && b is Some && c is Some {
        lemma_lex_trans(a->0, b->0, c->0);
    }
}

/// Where `insert_by_key` places `x` in `s`.
pub open spec fn key_insert_pos(s: Seq<Track>, x: Track, c: SortColumn) -> int
    decreases s.len(),
{
    if s.len() == 0 {
        0
    } else if key_le(sort_key(s.last(), c), sort_key(x, c)) {
        s.len() as int
    } else {
        key_insert_pos(s.drop_last(), x, c)
    }
}

proof fn lemma_key_insert_at(s: Seq<Track>, x: Track, c: SortColumn, p: int)
    requires
        0 <= p <= s.len(),
        p == 0 || key_le(sort_key(s[p - 1], c), sort_key(x, c)),
        forall|j: int| p <= j < s.len() ==> !key_le(sort_key(#[trigger] s[j], c), sort_key(x, c)),
    ensures
        insert_by_key(s, x, c) == s.insert(p, x),
    decreases s.len(),
{
    if s.len() == 0 {
        assert(s.insert(p, x) =~= seq![x]);
    } else if p == s.len() {
        assert(s.insert(p, x) =~= s.push(x));
    } else {
        assert(!key_le(sort_key(s[s.len() - 1], c), sort_key(x, c)));
        lemma_key_insert_at(s.drop_last(), x, c, p);
        assert(s.drop_last().insert(p, x).push(s.last()) =~= s.insert(p, x));
    }
}

proof fn lemma_key_insert_pos(s: Seq<Track>, x: Track, c: SortColumn)
    ensures
        0 <= key_insert_pos(s, x, c) <= s.len(),
        key_insert_pos(s, x, c) == 0 || key_le(
            sort_key(s[key_insert_pos(s, x, c) - 1], c),
            sort_key(x, c),
        ),
        forall|j: int|
            key_insert_pos(s, x, c) <= j < s.len() ==> !key_le(sort_key(#[trigger] s[j], c), sort_key(x, c)),
    decreases s.len(),
{
    if s.len() > 0 && !key_le(sort_key(s.last(), c), sort_key(x, c)) {
        let d = s.drop_last();
        lemma_key_insert_pos(d, x, c);
        assert forall|j: int| key_insert_pos(s, x, c) <= j < s.len() implies !key_le(
            sort_key(#[trigger] s[j], c),
            sort_key(x, c),
        ) by {
            if j < d.len() {
                assert(s[j] == d[j]);
            }
        }
    }
}

proof fn lemma_insert_keeps_sorted(s: Seq<Track>, x: Track, c: SortColumn)
    requires
        sorted_by_key(s, c),
    ensures
        sorted_by_key(insert_by_key(s, x, c), c),
        insert_by_key(s, x, c).to_multiset() == s.to_multiset().insert(x),
{
    lemma_key_insert_pos(s, x, c);
    let p = key_insert_pos(s, x, c);
    lemma_key_insert_at(s, x, c, p);
    let r = s.insert(p, x);
    assert forall|i: int, j: int| 0 <= i <= j < r.len() implies key_le(
        sort_key(#[trigger] r[i], c),
        sort_key(#[trigger] r[j], c),
    ) by {
        if i < p && j < p {
            assert(r[i] == s[i] && r[j] == s[j]);
        } else if i < p && j == p {
            assert(key_le(sort_key(s[i], c), sort_key(s[p - 1], c)));
            lemma_key_trans(sort_key(s[i], c), sort_key(s[p - 1], c), sort_key(x, c));
        } else if i < p {
            assert(r[j] == s[j - 1]);
            assert(r[i] == s[i]);
        } else if i == p && j > p {
            assert(r[j] == s[j - 1]);
            assert(!key_le(sort_key(s[j - 1], c), sort_key(x, c)));
            lemma_key_total(sort_key(s[j - 1], c), sort_key(x, c));
        } else if i > p {
            assert(r[i] == s[i - 1] && r[j] == s[j - 1]);
        } else {
            lemma_key_total(sort_key(x, c), sort_key(x, c));
        }
    }
    vstd::seq_lib::to_multiset_insert(s, p, x);
}

/// Sorting by a column orders the tracks by that column and keeps every
/// track.
pub proof fn lemma_sort_by_key(s: Seq<Track>, c: SortColumn)
    ensures
        sorted_by_key(sort_by_key(s, c), c),
        sort_by_key(s, c).to_multiset() == s.to_multiset(),
    decreases s.len(),
{
    if s.len() == 0 {
        assert(sort_by_key(s, c) =~= s);
    } else {
        lemma_sort_by_key(s.drop_last(), c);
        lemma_insert_keeps_sorted(sort_by_key(s.drop_last(), c), s.last(), c);
        assert(s =~= s.drop_last().push(s.last()));
        vstd::seq_lib::to_multiset_build(s.drop_last(), s.last());
    }
}

/// Whether `a` comes no later than `b`.
fn text_le(a: &str, b: &str) -> (r: bool)
    ensures
        r == lex_le(a@, b@),
{
    let x = to_chars(a);
    let y = to_chars(b);
    let mut i: usize = 0;
    assert(x@.skip(0) =~= x@);
    assert(y@.skip(0) =~= y@);
    while i < x.len() && i < y.len()
        invariant
            x@ == a@,
            y@ == b@,
            i <= x@.len(),
            i <= y@.len(),
            lex_le(x@.skip(i as int), y@.skip(i as int)) == lex_le(a@, b@),
        decreases x.len() - i,
    {
        let cx = x[i];
        let cy = y[i];
        assert(x@.skip(i as int)[0] == cx);
        assert(y@.skip(i as int)[0] == cy);
        if cx < cy {
            return true;
        }
        if cx != cy {
            return false;
        }
        assert(x@.skip(i as int).drop_first() =~= x@.skip(i as int + 1));
        assert(y@.skip(i as int).drop_first() =~= y@.skip(i as int + 1));
        i = i + 1;
    }
    i == x.len()
}

/// Whether `a` comes no later than `b` in column `c`.
fn track_key_le(a: &Track, b: &Track, c: SortColumn) -> (r: bool)
    ensures
        r == key_le(sort_key(*a, c), sort_key(*b, c)),
{
    match c {
        SortColumn::Title => text_le(a.title.as_str(), b.title.as_str()),
        SortColumn::Artist => match (&a.artist, &b.artist) {
            (None, _) => true,
            (Some(_), None) => false,
            (Some(x), Some(y)) => text_le(x.as_str(), y.as_str()),
        },
        SortColumn::Album => match (&a.album, &b.album) {
            (None, _) => true,
            (Some(_), None) => false,
            (Some(x), Some(y)) => text_le(x.as_str(), y.as_str()),
        },
    }
}

/// Sort the track list by column `c` (stable), reversed when descending.
pub fn sort_tracks(tracks: &mut Vec<Track>, c: SortColumn, ascending: bool)
    ensures
        final(tracks)@ == sorted_list(old(tracks)@, c, ascending),
{
    let ghost orig = tracks@;
    let mut input: Vec<Track> = Vec::new();
    std::mem::swap(&mut input, tracks);
    let n = input.len();
    let mut sorted: Vec<Track> = Vec::new();
    let mut k: usize = 0;
    while input.len() > 0
        invariant
            k + input@.len() == n,
            n == orig.len(),
            input@ == orig.skip(k as int),
            sorted@ == sort_by_key(orig.take(k as int), c),
        decreases input.len(),
    {
        let x = input.remove(0);
        proof {
            assert(x == orig[k as int]);
            assert(input@ =~= orig.skip(k as int + 1));
            assert(orig.take(k as int + 1).drop_last() =~= orig.take(k as int));
            assert(orig.take(k as int + 1).last() == x);
        }
        let mut p = sorted.len();
        while p > 0 && !track_key_le(&sorted[p - 1], &x, c)
            invariant
                p <= sorted@.len(),
                forall|j: int|
                    p <= j < sorted@.len() ==> !key_le(sort_key(#[trigger] sorted@[j], c), sort_key(x, c)),
            decreases p,
        {
            p = p - 1;
        }
        proof {
            lemma_key_insert_at(sorted@, x, c, p as int);
        }
        sorted.insert(p, x);
        k = k + 1;
    }
    proof {
        assert(orig.take(k as int) =~= orig);
    }
    if ascending {
        *tracks = sorted;
    } else {
        reverse_tracks(&mut sorted);
        *tracks = sorted;
    }
}

/// Reverse the order of the track list.
fn reverse_tracks(tracks: &mut Vec<Track>)
    ensures
        final(tracks)@ == old(tracks)@.reverse(),
{
    let ghost before = tracks@;
    let mut rev: Vec<Track> = Vec::new();
    assert(before.skip(before.len() as int).reverse() =~= Seq::<Track>::empty());
    while tracks.len() > 0
        invariant
            tracks@ == before.take(tracks@.len() as int),
            tracks@.len() <= before.len(),
            rev@ == before.skip(tracks@.len() as int).reverse(),
        decreases tracks.len(),
    {
        let ghost m = tracks@.len() as int;
        let t = tracks.pop().unwrap();
        proof {
            assert(t == before[m - 1]);
            assert(tracks@ =~= before.take(m - 1));
        }
        rev.push(t);
        assert(rev@ =~= before.skip(m - 1).reverse());
    }
    assert(before.skip(0) =~= before);
    *tracks = rev;
}

/// The column a header field name stands for: "title", "artist" and
/// "album"; any other name (such as "duration") is no column.
pub open spec fn column_of(field: Seq<char>) -> Option<SortColumn> {
    if field == "title"@ {
        Some(SortColumn::Title)
    } else if field == "artist"@ {
        Some(SortColumn::Artist)
    } else if field == "album"@ {
        Some(SortColumn::Album)
    } else {
        None
    }
}

/// The column named by a header field.
pub fn column_named(field: &str) -> (c: Option<SortColumn>)
    ensures
        c == column_of(field@),
{
    if str_eq(field, "title") {
        Some(SortColumn::Title)
    } else if str_eq(field, "artist") {
        Some(SortColumn::Artist)
    } else if str_eq(field, "album") {
        Some(SortColumn::Album)
    } else {
        None
    }
}

/// The track list after a sort by header field `field`: sorted by its
/// column when it names one, left in its order otherwise, and reversed
/// when descending.
pub open spec fn sorted_by_field(s: Seq<Track>, field: Seq<char>, ascending: bool) -> Seq<Track> {
    match column_of(field) {
        Some(c) => sorted_list(s, c, ascending),
        None => if ascending {
            s
        } else {
            s.reverse()
        },
    }
}

/// Apply a sort by header field `field` to the track list.
pub fn apply_sort(tracks: &mut Vec<Track>, field: &str, ascending: bool)
    ensures
        final(tracks)@ == sorted_by_field(old(tracks)@, field@, ascending),
{
    match column_named(field) {
        Some(c) => sort_tracks(tracks, c, ascending),
        None => {
            if !ascending {
                reverse_tracks(tracks);
            }
        },
    }
}

/// How the track list is sorted: by which header field (empty before the
/// first click), in which direction, and whether a sort was asked for.
pub struct SortState {
    pub field: String,
    pub ascending: bool,
    pub active: bool,
}

impl SortState {
    /// Unsorted.
    pub fn new() -> (s: Self)
        ensures
            s.field@ == Seq::<char>::empty(),
            s.ascending,
            !s.active,
    {
        SortState { field: String::new(), ascending: true, active: false }
    }

    /// Record a click on the header of field `field`: clicking the sorted
    /// field again reverses the direction; another field sorts ascending.
    pub fn click(&mut self, field: &str)
        ensures
            final(self).field@ == field@,
            final(self).ascending == (if old(self).field@ == field@ {
                !old(self).ascending
            } else {
                true
            }),
            final(self).active,
    {
        if str_eq(self.field.as_str(), field) {
            self.ascending = !self.ascending;
        } else {
            self.field = field.to_string();
            self.ascending = true;
        }
        self.active = true;
    }
}

/// The page shown for a requested page number: the request clamped to the
/// pages that exist (page 0 when there are no tracks). The clamping is done
/// in 32-bit arithmetic, as the interface's page numbers are.
pub open spec fn page_for(requested: i32, total: nat, per_page: nat) -> usize {
    let max_page = if total == 0 {
        0
    } else {
        (total - 1) / (per_page as int)
    };
    let m = max_page as i32;
    let c = if requested < 0 {
        0i32
    } else {
        requested
    };
    let d = if c > m {
        m
    } else {
        c
    };
    d as usize
}

/// The page to show for a requested page number.
pub fn page_for_request(requested: i32, total: usize, per_page: usize) -> (p: usize)
    requires
        per_page > 0,
    ensures
        p == page_for(requested, total as nat, per_page as nat),
        total <= i32::MAX ==> p as nat <= last_page(total as nat, per_page as nat),
{
    let max_page: usize = if total == 0 {
        0
    } else {
        (total - 1) / per_page
    };
    proof {
        if total > 0 {
            assert((total - 1) / (per_page as int) <= total - 1) by (nonlinear_arith)
                requires
                    total >= 1,
                    per_page >= 1,
            ;
            lemma_last_page_is_floor(total as nat, per_page as nat);
        }
    }
    let m: i32 = #[verifier::truncate] (max_page as i32);
    let c: i32 = if requested < 0 {
        0
    } else {
        requested
    };
    let d: i32 = if c > m {
        m
    } else {
        c
    };
    #[verifier::truncate] (d as usize)
}

proof fn lemma_last_page_is_floor(total: nat, per_page: nat)
    requires
        total > 0,
        per_page > 0,
    ensures
        last_page(total, per_page) == (total - 1) / (per_page as int),
{
    let q = total / per_page;
    let r = total % per_page;
    assert(total == q * per_page + r && 0 <= r < per_page) by (nonlinear_arith)
        requires
            per_page > 0,
            q == total / per_page,
            r == total % per_page,
    ;
    if r == 0 {
        assert((total - 1) / (per_page as int) == q - 1) by (nonlinear_arith)
            requires
                total == q * per_page,
                per_page > 0,
                total > 0,
        ;
    } else {
        assert((total - 1) / (per_page as int) == q) by (nonlinear_arith)
            requires
                total == q * per_page + r,
                0 < r < per_page,
        ;
    }
}

/// The page reached from `start` when stepping toward `target` one page at
/// a time, where `last` is the last page.
pub open spec fn page_after_steps(start: nat, target: nat, last: nat) -> nat {
    if target <= start {
        target
    } else if target <= last {
        target
    } else if start < last {
        last
    } else {
        start
    }
}

impl LibraryService {
    /// Step the library toward page `target` one page at a time; stepping
    /// forward stops at the last page.
    pub fn go_to_page(&mut self, target: usize)
        ensures
            final(self).page() == page_after_steps(
                old(self).page(),
                target as nat,
                last_page(old(self).snapshot_view().total_track_count as nat, old(self).per_page()),
            ),
            final(self).per_page() == old(self).per_page(),
            final(self).snapshot_view() == old(self).snapshot_view(),
    {
        let ghost last = last_page(self.snapshot_view().total_track_count as nat, self.per_page());
        let ghost start = self.page();
        let mut moving = true;
        while moving && self.current_page() < target
            invariant
                self.per_page() == old(self).per_page(),
                self.snapshot_view() == old(self).snapshot_view(),
                last == last_page(self.snapshot_view().total_track_count as nat, self.per_page()),
                start == old(self).page(),
                start <= self.page(),
                self.page() > start ==> self.page() <= target && self.page() <= last,
                !moving ==> self.page() >= last,
            decreases (target - self.page()) + (if moving {
                1int
            } else {
                0int
            }),
        {
            moving = self.next_page();
        }
        let ghost p1 = self.page();
        assert(p1 == (if target <= start {
            start
        } else if start < last {
            if target <= last {
                target as nat
            } else {
                last
            }
        } else {
            start
        }));
        while self.current_page() > target
            invariant
                self.per_page() == old(self).per_page(),
                self.snapshot_view() == old(self).snapshot_view(),
                self.page() <= p1,
                self.page() < p1 ==> self.page() >= target,
            decreases self.page(),
        {
            let _ = self.prev_page();
        }
    }
}

} // verus!
