//! The folder browser: tracks grouped by the directory that holds them, the
//! configured music folders, and how a list of folders grows.
//!
//! Two directory names denote the same folder when their path components
//! are equal (so `a/b` and `a/b/` are one folder), as for std's `Path`.
//! Paths are read by std with the path syntax of the platform the library
//! is built for.
use vstd::prelude::*;
use crate::converters::{folder_to_item, FolderItem};
use crate::library::Track;
use crate::text::{chars_to_string, decimal_chars, push_decimal, push_str, str_eq, texts};

verus! {

/// The directory part of a path (std's `Path::parent`).
pub uninterp spec fn path_parent(p: Seq<char>) -> Option<Seq<char>>;

/// The last component of a path, unless it is `..` or there is none (std's
/// `Path::file_name`).
pub uninterp spec fn path_file_name(p: Seq<char>) -> Option<Seq<char>>;

/// The components of a path, each as its text (std's `Path::components`).
pub uninterp spec fn path_components(p: Seq<char>) -> Seq<Seq<char>>;

/// The text of an optional string.
pub open spec fn opt_text(o: Option<String>) -> Option<Seq<char>> {
    match o {
        Some(s) => Some(s@),
        None => None,
    }
}

/// The directory that holds `p`, through std's `Path::parent`.
#[verifier::external_body]
fn parent_of(p: &str) -> (r: Option<String>)
    ensures
        opt_text(r) == path_parent(p@),
{
    std::path::Path::new(p).parent().map(|q| q.to_string_lossy().into_owned())
}

/// The last component of `p`, through std's `Path::file_name`.
#[verifier::external_body]
fn file_name_of(p: &str) -> (r: Option<String>)
    ensures
        opt_text(r) == path_file_name(p@),
{
    std::path::Path::new(p).file_name().map(|q| q.to_string_lossy().into_owned())
}

/// The components of `p`, through std's `Path::components`.
#[verifier::external_body]
fn components_of(p: &str) -> (r: Vec<String>)
    ensures
        texts(r@) == path_components(p@),
{
    std::path::Path::new(p).components().map(|c| c.as_os_str().to_string_lossy().into_owned()).collect()
}

/// `a` and `b` name the same folder.
pub open spec fn same_folder(a: Seq<char>, b: Seq<char>) -> bool {
    path_components(a) == path_components(b)
}

/// No two directories of `dirs` name the same folder.
pub open spec fn distinct_folders(dirs: Seq<Seq<char>>) -> bool {
    forall|i: int, j: int|
        0 <= i < dirs.len() && 0 <= j < dirs.len() && i != j ==> !same_folder(
            #[trigger] dirs[i],
            #[trigger] dirs[j],
        )
}

/// Some directory of `dirs` names the folder `d`.
pub open spec fn has_folder(dirs: Seq<Seq<char>>, d: Seq<char>) -> bool {
    exists|i: int| 0 <= i < dirs.len() && same_folder(#[trigger] dirs[i], d)
}

/// The directory of `dirs` that names the folder `d`, if any (the only one
/// when `dirs` holds distinct folders).
pub open spec fn folder_index(dirs: Seq<Seq<char>>, d: Seq<char>) -> Option<int> {
    if has_folder(dirs, d) {
        Some(choose|i: int| 0 <= i < dirs.len() && same_folder(#[trigger] dirs[i], d))
    } else {
        None
    }
}

/// Folder groups: a directory with a count.
pub type Groups = Seq<(Seq<char>, nat)>;

/// The directories of some groups.
pub open spec fn group_dirs(g: Groups) -> Seq<Seq<char>> {
    g.map_values(|e: (Seq<char>, nat)| e.0)
}

/// `g` after counting one more track in folder `d`: the group of that folder
/// grows, or a new group with one track is appended.
pub open spec fn count_in(g: Groups, d: Seq<char>) -> Groups {
    match folder_index(group_dirs(g), d) {
        Some(i) => g.update(i, (g[i].0, g[i].1 + 1)),
        None => g.push((d, 1nat)),
    }
}

/// Groups of the tracks at `paths`, in the order their folders first occur;
/// a path without a parent directory is not counted.
pub open spec fn track_groups(paths: Seq<Seq<char>>) -> Groups
    decreases paths.len(),
{
    if paths.len() == 0 {
        Seq::empty()
    } else {
        let g = track_groups(paths.drop_last());
        match path_parent(paths.last()) {
            Some(d) => count_in(g, d),
            None => g,
        }
    }
}

/// `g` with an empty group appended for each of `dirs` whose folder has no
/// group yet.
pub open spec fn with_folders(g: Groups, dirs: Seq<Seq<char>>) -> Groups
    decreases dirs.len(),
{
    if dirs.len() == 0 {
        g
    } else {
        let h = with_folders(g, dirs.drop_last());
        if has_folder(group_dirs(h), dirs.last()) {
            h
        } else {
            h.push((dirs.last(), 0nat))
        }
    }
}

/// Name shown for a folder: its last component, else the whole path.
pub open spec fn folder_name(d: Seq<char>) -> Seq<char> {
    match path_file_name(d) {
        Some(n) => n,
        None => d,
    }
}

/// The folder rows for `tracks` and the configured `watch_dirs`: one row per
/// folder, with its track count.
pub open spec fn folder_groups(tracks: Seq<Seq<char>>, watch_dirs: Seq<Seq<char>>) -> Groups {
    with_folders(track_groups(tracks), watch_dirs)
}

proof fn lemma_push_distinct(dirs: Seq<Seq<char>>, d: Seq<char>)
    requires
        distinct_folders(dirs),
        !has_folder(dirs, d),
    ensures
        distinct_folders(dirs.push(d)),
        has_folder(dirs.push(d), d),
{
    let h = dirs.push(d);
    assert(h[dirs.len() as int] == d);
    assert forall|i: int, j: int|
        0 <= i < h.len() && 0 <= j < h.len() && i != j implies !same_folder(
        #[trigger] h[i],
        #[trigger] h[j],
    ) by {
        if i < dirs.len() && j < dirs.len() {
            assert(h[i] == dirs[i]);
            assert(h[j] == dirs[j]);
        } else if i < dirs.len() {
            assert(h[i] == dirs[i]);
            assert(!same_folder(dirs[i], d));
        } else {
            assert(h[j] == dirs[j]);
            assert(!same_folder(dirs[j], d));
        }
    }
}

proof fn lemma_count_in(g: Groups, d: Seq<char>)
    requires
        distinct_folders(group_dirs(g)),
    ensures
        distinct_folders(group_dirs(count_in(g, d))),
        has_folder(group_dirs(count_in(g, d)), d),
        count_in(g, d).len() >= g.len(),
{
    let dirs = group_dirs(g);
    match folder_index(dirs, d) {
        Some(i) => {
            let h = g.update(i, (g[i].0, g[i].1 + 1));
            assert(group_dirs(h) =~= dirs);
            assert(group_dirs(h)[i] == dirs[i]);
        },
        None => {
            let h = g.push((d, 1nat));
            assert(group_dirs(h) =~= dirs.push(d));
            lemma_push_distinct(dirs, d);
        },
    }
}

/// Number of the tracks at `paths` held directly by the folder `d`.
pub open spec fn tracks_in(paths: Seq<Seq<char>>, d: Seq<char>) -> nat
    decreases paths.len(),
{
    if paths.len() == 0 {
        0
    } else {
        tracks_in(paths.drop_last(), d) + match path_parent(paths.last()) {
            Some(p) => if same_folder(p, d) {
                1nat
            } else {
                0nat
            },
            None => 0nat,
        }
    }
}

/// Every track of `paths` that has a parent directory has its folder among
/// `dirs`.
pub open spec fn parents_listed(paths: Seq<Seq<char>>, dirs: Seq<Seq<char>>) -> bool {
    forall|j: int|
        0 <= j < paths.len() ==> (path_parent(#[trigger] paths[j]) matches Some(p) ==> has_folder(
            dirs,
            p,
        ))
}

/// Each group counts exactly the tracks its folder holds.
pub open spec fn counts_exact(paths: Seq<Seq<char>>, g: Groups) -> bool {
    forall|i: int| 0 <= i < g.len() ==> (#[trigger] g[i]).1 == tracks_in(paths, g[i].0)
}

proof fn lemma_same_folder_has(dirs: Seq<Seq<char>>, p: Seq<char>, d: Seq<char>)
    requires
        has_folder(dirs, p),
        same_folder(p, d),
    ensures
        has_folder(dirs, d),
{
    let i = choose|i: int| 0 <= i < dirs.len() && same_folder(#[trigger] dirs[i], p);
    assert(same_folder(dirs[i], d));
}

proof fn lemma_tracks_in_zero(paths: Seq<Seq<char>>, dirs: Seq<Seq<char>>, d: Seq<char>)
    requires
        parents_listed(paths, dirs),
        !has_folder(dirs, d),
    ensures
        tracks_in(paths, d) == 0,
    decreases paths.len(),
{
    if paths.len() > 0 {
        let pre = paths.drop_last();
        assert forall|j: int| 0 <= j < pre.len() implies (path_parent(#[trigger] pre[j]) matches Some(
            p,
        ) ==> has_folder(dirs, p)) by {
            assert(pre[j] == paths[j]);
        }
        lemma_tracks_in_zero(pre, dirs, d);
        let last = paths.last();
        assert(last == paths[paths.len() - 1]);
        match path_parent(last) {
            Some(p) => {
                if same_folder(p, d) {
                    lemma_same_folder_has(dirs, p, d);
                }
            },
            None => {},
        }
    }
}

proof fn lemma_track_groups(paths: Seq<Seq<char>>)
    ensures
        distinct_folders(group_dirs(track_groups(paths))),
        counts_exact(paths, track_groups(paths)),
        parents_listed(paths, group_dirs(track_groups(paths))),
    decreases paths.len(),
{
    if paths.len() > 0 {
        let pre = paths.drop_last();
        lemma_track_groups(pre);
        let g0 = track_groups(pre);
        let dirs0 = group_dirs(g0);
        let last = paths.last();
        let g = track_groups(paths);
        assert forall|j: int| 0 <= j < pre.len() implies #[trigger] paths[j] == pre[j] by {}
        match path_parent(last) {
            None => {
                assert(g == g0);
                assert forall|i: int| 0 <= i < g.len() implies (#[trigger] g[i]).1 == tracks_in(
                    paths,
                    g[i].0,
                ) by {}
                assert forall|j: int| 0 <= j < paths.len() implies (path_parent(
                    #[trigger] paths[j],
                ) matches Some(p) ==> has_folder(group_dirs(g), p)) by {
                    if j < pre.len() {
                        assert(paths[j] == pre[j]);
                    }
                }
            },
            Some(d) => {
                lemma_count_in(g0, d);
                assert(g == count_in(g0, d));
                let dirs = group_dirs(g);
                match folder_index(dirs0, d) {
                    Some(idx) => {
                        assert(dirs =~= dirs0);
                        assert(same_folder(dirs0[idx], d));
                        assert forall|i: int| 0 <= i < g.len() implies (#[trigger] g[i]).1
                            == tracks_in(paths, g[i].0) by {
                            assert(g0[i].0 == dirs0[i]);
                            if i == idx {
                                assert(same_folder(d, g[i].0));
                            } else {
                                assert(g[i] == g0[i]);
                                if same_folder(d, g[i].0) {
                                    assert(same_folder(dirs0[i], dirs0[idx]));
                                }
                            }
                        }
                        assert forall|j: int| 0 <= j < paths.len() implies (path_parent(
                            #[trigger] paths[j],
                        ) matches Some(p) ==> has_folder(dirs, p)) by {
                            if j < pre.len() {
                                assert(paths[j] == pre[j]);
                            }
                        }
                    },
                    None => {
                        assert(dirs =~= dirs0.push(d));
                        lemma_tracks_in_zero(pre, dirs0, d);
                        assert forall|i: int| 0 <= i < g.len() implies (#[trigger] g[i]).1
                            == tracks_in(paths, g[i].0) by {
                            if i < g0.len() {
                                assert(g[i] == g0[i]);
                                assert(g0[i].0 == dirs0[i]);
                                if same_folder(d, g[i].0) {
                                    assert(same_folder(dirs0[i], d));
                                }
                            }
                        }
                        assert forall|j: int| 0 <= j < paths.len() implies (path_parent(
                            #[trigger] paths[j],
                        ) matches Some(p) ==> has_folder(dirs, p)) by {
                            if j < pre.len() {
                                assert(paths[j] == pre[j]);
                                match path_parent(paths[j]) {
                                    Some(p) => {
                                        let k = choose|k: int|
                                            0 <= k < dirs0.len() && same_folder(
                                                #[trigger] dirs0[k],
                                                p,
                                            );
                                        assert(dirs[k] == dirs0[k]);
                                    },
                                    None => {},
                                }
                            }
                        }
                    },
                }
            },
        }
    }
}

proof fn lemma_with_folders(paths: Seq<Seq<char>>, g0: Groups, dirs: Seq<Seq<char>>)
    requires
        distinct_folders(group_dirs(g0)),
        counts_exact(paths, g0),
        parents_listed(paths, group_dirs(g0)),
    ensures
        distinct_folders(group_dirs(with_folders(g0, dirs))),
        counts_exact(paths, with_folders(g0, dirs)),
        parents_listed(paths, group_dirs(with_folders(g0, dirs))),
        forall|w: int| 0 <= w < dirs.len() ==> has_folder(
            group_dirs(with_folders(g0, dirs)),
            #[trigger] dirs[w],
        ),
    decreases dirs.len(),
{
    if dirs.len() > 0 {
        let pre = dirs.drop_last();
        lemma_with_folders(paths, g0, pre);
        let h = with_folders(g0, pre);
        let hd = group_dirs(h);
        let d = dirs.last();
        let g = with_folders(g0, dirs);
        assert forall|w: int| 0 <= w < pre.len() implies #[trigger] dirs[w] == pre[w] by {}
        if has_folder(hd, d) {
            assert(g == h);
            assert forall|w: int| 0 <= w < dirs.len() implies has_folder(
                group_dirs(g),
                #[trigger] dirs[w],
            ) by {
                if w < pre.len() {
                    assert(dirs[w] == pre[w]);
                }
            }
        } else {
            assert(g == h.push((d, 0nat)));
            let gd = group_dirs(g);
            assert(gd =~= hd.push(d));
            lemma_push_distinct(hd, d);
            lemma_tracks_in_zero(paths, hd, d);
            assert forall|i: int| 0 <= i < g.len() implies (#[trigger] g[i]).1 == tracks_in(
                paths,
                g[i].0,
            ) by {
                if i < h.len() {
                    assert(g[i] == h[i]);
                }
            }
            assert forall|dd: Seq<char>| has_folder(hd, dd) implies has_folder(gd, dd) by {
                let k = choose|k: int| 0 <= k < hd.len() && same_folder(#[trigger] hd[k], dd);
                assert(gd[k] == hd[k]);
            }
            assert forall|j: int| 0 <= j < paths.len() implies (path_parent(#[trigger] paths[j]) matches Some(
                p,
            ) ==> has_folder(gd, p)) by {
                match path_parent(paths[j]) {
                    Some(p) => {
                        assert(has_folder(hd, p));
                    },
                    None => {},
                }
            }
            assert forall|w: int| 0 <= w < dirs.len() implies has_folder(gd, #[trigger] dirs[w]) by {
                if w < pre.len() {
                    assert(dirs[w] == pre[w]);
                    assert(has_folder(hd, pre[w]));
                } else {
                    assert(gd[hd.len() as int] == d);
                    assert(same_folder(gd[hd.len() as int], d));
                }
            }
        }
    }
}

/// The folder rows list each folder once, count for each exactly the tracks
/// it holds directly, and include the folder of every track that has one and
/// every configured folder.
pub proof fn lemma_folder_rows_complete(tracks: Seq<Seq<char>>, watch_dirs: Seq<Seq<char>>)
    ensures
        ({
            let g = folder_groups(tracks, watch_dirs);
            &&& distinct_folders(group_dirs(g))
            &&& counts_exact(tracks, g)
            &&& parents_listed(tracks, group_dirs(g))
            &&& forall|w: int| 0 <= w < watch_dirs.len() ==> has_folder(
                group_dirs(g),
                #[trigger] watch_dirs[w],
            )
        }),
{
    lemma_track_groups(tracks);
    lemma_with_folders(tracks, track_groups(tracks), watch_dirs);
}

/// Index of the group whose folder is `c` (given by its components).
fn find_group(comps: &Vec<Vec<String>>, c: &Vec<String>) -> (r: Option<usize>)
    ensures
        r matches Some(i) ==> i < comps@.len() && texts(comps@[i as int]@) == texts(c@),
        r is None ==> forall|i: int| 0 <= i < comps@.len() ==> texts(#[trigger] comps@[i]@) != texts(
            c@,
        ),
{
    let mut i: usize = 0;
    while i < comps.len()
        invariant
            i <= comps@.len(),
            forall|j: int| 0 <= j < i ==> texts(#[trigger] comps@[j]@) != texts(c@),
        decreases comps.len() - i,
    {
        if strs_eq(&comps[i], c) {
            return Some(i);
        }
        i = i + 1;
    }
    None
}

/// Whether two lists of strings hold the same texts.
fn strs_eq(a: &Vec<String>, b: &Vec<String>) -> (r: bool)
    ensures
        r == (texts(a@) == texts(b@)),
{
    if a.len() != b.len() {
        assert(texts(a@).len() != texts(b@).len());
        return false;
    }
    let mut i: usize = 0;
    while i < a.len()
        invariant
            a@.len() == b@.len(),
            i <= a@.len(),
            forall|j: int| 0 <= j < i ==> (#[trigger] a@[j])@ == b@[j]@,
        decreases a.len() - i,
    {
        if !str_eq(a[i].as_str(), b[i].as_str()) {
            assert(texts(a@)[i as int] != texts(b@)[i as int]);
            return false;
        }
        i = i + 1;
    }
    assert(texts(a@) =~= texts(b@));
    true
}

/// Folder groups kept as parallel vectors: directory, its components, count.
struct GroupTable {
    dirs: Vec<String>,
    comps: Vec<Vec<String>>,
    counts: Vec<u32>,
}

impl GroupTable {
    spec fn groups(&self) -> Groups {
        Seq::new(self.dirs@.len(), |i: int| (self.dirs@[i]@, self.counts@[i] as nat))
    }

    spec fn wf(&self) -> bool {
        &&& self.dirs@.len() == self.comps@.len()
        &&& self.dirs@.len() == self.counts@.len()
        &&& forall|i: int|
            0 <= i < self.dirs@.len() ==> texts(#[trigger] self.comps@[i]@) == path_components(
                self.dirs@[i]@,
            )
        &&& distinct_folders(group_dirs(self.groups()))
    }

    spec fn counts_at_most(&self, k: int) -> bool {
        forall|i: int| 0 <= i < self.counts@.len() ==> #[trigger] self.counts@[i] <= k
    }

    fn new() -> (t: Self)
        ensures
            t.wf(),
            t.groups() == Seq::<(Seq<char>, nat)>::empty(),
    {
        let t = GroupTable { dirs: Vec::new(), comps: Vec::new(), counts: Vec::new() };
        assert(t.groups() =~= Seq::<(Seq<char>, nat)>::empty());
        assert(group_dirs(t.groups()) =~= Seq::<Seq<char>>::empty());
        t
    }

    /// Where the folder of `d` (with components `c`) stands, as `folder_index`
    /// says.
    fn locate(&self, d: &String, c: &Vec<String>) -> (r: Option<usize>)
        requires
            self.wf(),
            texts(c@) == path_components(d@),
        ensures
            r matches Some(i) ==> i < self.dirs@.len() && folder_index(group_dirs(self.groups()), d@)
                == Some(i as int),
            r is None ==> folder_index(group_dirs(self.groups()), d@) is None,
    {
        let r = find_group(&self.comps, c);
        let ghost dirs = group_dirs(self.groups());
        assert(dirs.len() == self.dirs@.len());
        assert forall|j: int| 0 <= j < dirs.len() implies dirs[j] == #[trigger] self.dirs@[j]@ by {}
        match r {
            Some(i) => {
                assert(same_folder(dirs[i as int], d@));
                assert(has_folder(dirs, d@));
                proof {
                    let k = choose|k: int| 0 <= k < dirs.len() && same_folder(#[trigger] dirs[k], d@);
                    if k != i as int {
                        assert(same_folder(dirs[k], dirs[i as int]));
                        assert(false);
                    }
                }
            },
            None => {
                assert forall|j: int| 0 <= j < dirs.len() implies !same_folder(#[trigger] dirs[j], d@) by {
                    assert(texts(self.comps@[j]@) != texts(c@));
                }
            },
        }
        r
    }

    /// Count one more track in the folder `d`.
    fn count_track(&mut self, d: String, Ghost(k): Ghost<int>)
        requires
            old(self).wf(),
            old(self).counts_at_most(k),
            0 <= k < u32::MAX,
        ensures
            final(self).wf(),
            final(self).counts_at_most(k + 1),
            final(self).groups() == count_in(old(self).groups(), d@),
    {
        let c = components_of(d.as_str());
        proof {
            lemma_count_in(self.groups(), d@);
        }
        match self.locate(&d, &c) {
            Some(i) => {
                let n = self.counts[i] + 1;
                self.counts.set(i, n);
                assert forall|j: int| 0 <= j < self.counts@.len() implies #[trigger] self.counts@[j]
                    <= k + 1 by {
                    if j != i as int {
                        assert(self.counts@[j] == old(self).counts@[j]);
                    }
                }
                assert(self.groups() =~= count_in(old(self).groups(), d@));
            },
            None => {
                self.dirs.push(d);
                self.comps.push(c);
                self.counts.push(1);
                assert forall|j: int| 0 <= j < self.counts@.len() implies #[trigger] self.counts@[j]
                    <= k + 1 by {
                    if j < old(self).counts@.len() {
                        assert(self.counts@[j] == old(self).counts@[j]);
                    }
                }
                assert(self.groups() =~= count_in(old(self).groups(), self.dirs@.last()@));
            },
        }
    }

    /// Add an empty group for the folder `d` unless it already has one.
    fn include_folder(&mut self, d: String, Ghost(k): Ghost<int>)
        requires
            old(self).wf(),
            old(self).counts_at_most(k),
            0 <= k,
        ensures
            final(self).wf(),
            final(self).counts_at_most(k),
            final(self).groups() == (if has_folder(group_dirs(old(self).groups()), d@) {
                old(self).groups()
            } else {
                old(self).groups().push((d@, 0nat))
            }),
    {
        let c = components_of(d.as_str());
        match self.locate(&d, &c) {
            Some(_) => {},
            None => {
                let ghost g = self.groups();
                proof {
                    lemma_push_distinct(group_dirs(g), d@);
                }
                self.dirs.push(d);
                self.comps.push(c);
                self.counts.push(0);
                assert(self.groups() =~= g.push((self.dirs@.last()@, 0nat)));
                assert(group_dirs(self.groups()) =~= group_dirs(g).push(self.dirs@.last()@));
                assert forall|j: int| 0 <= j < self.counts@.len() implies #[trigger] self.counts@[j]
                    <= k by {
                    if j < old(self).counts@.len() {
                        assert(self.counts@[j] == old(self).counts@[j]);
                    }
                }
            },
        }
    }
}

/// One row per folder: each folder holding one of the tracks at
/// `track_paths`, with the number of those tracks it holds directly, then
/// each configured folder of `watch_dirs` that holds none of them, with
/// zero; a folder is shown by its last component.
pub fn folder_rows(track_paths: &Vec<String>, watch_dirs: &Vec<String>) -> (rows: Vec<FolderItem>)
    requires
        track_paths@.len() <= u32::MAX,
    ensures
        ({
            let g = folder_groups(texts(track_paths@), texts(watch_dirs@));
            &&& rows@.len() == g.len()
            &&& forall|i: int|
                0 <= i < g.len() ==> {
                    &&& (#[trigger] rows@[i]).path@ == g[i].0
                    &&& rows@[i].name@ == folder_name(g[i].0)
                    &&& rows@[i].track_count == (g[i].1 as u32) as i32
                    &&& !rows@[i].is_parent
                }
        }),
{
    let ghost paths = texts(track_paths@);
    let ghost wdirs = texts(watch_dirs@);
    let mut t = GroupTable::new();
    let mut k: usize = 0;
    while k < track_paths.len()
        invariant
            k <= track_paths@.len() <= u32::MAX,
            paths == texts(track_paths@),
            t.wf(),
            t.counts_at_most(k as int),
            t.groups() == track_groups(paths.take(k as int)),
        decreases track_paths.len() - k,
    {
        proof {
            assert(paths.take(k as int + 1).drop_last() =~= paths.take(k as int));
            assert(paths.take(k as int + 1).last() == track_paths@[k as int]@);
        }
        match parent_of(track_paths[k].as_str()) {
            Some(d) => t.count_track(d, Ghost(k as int)),
            None => {},
        }
        k = k + 1;
    }
    assert(paths.take(k as int) =~= paths);
    let ghost tg = t.groups();
    let mut w: usize = 0;
    while w < watch_dirs.len()
        invariant
            w <= watch_dirs@.len(),
            wdirs == texts(watch_dirs@),
            t.wf(),
            t.counts_at_most(track_paths@.len() as int),
            track_paths@.len() <= u32::MAX,
            t.groups() == with_folders(tg, wdirs.take(w as int)),
        decreases watch_dirs.len() - w,
    {
        proof {
            assert(wdirs.take(w as int + 1).drop_last() =~= wdirs.take(w as int));
            assert(wdirs.take(w as int + 1).last() == watch_dirs@[w as int]@);
        }
        t.include_folder(watch_dirs[w].clone(), Ghost(track_paths@.len() as int));
        w = w + 1;
    }
    assert(wdirs.take(w as int) =~= wdirs);
    let ghost g = t.groups();
    let mut rows: Vec<FolderItem> = Vec::new();
    let mut i: usize = 0;
    while i < t.dirs.len()
        invariant
            i <= t.dirs@.len(),
            t.wf(),
            t.counts_at_most(u32::MAX as int),
            g == t.groups(),
            rows@.len() == i,
            forall|j: int|
                0 <= j < i ==> {
                    &&& (#[trigger] rows@[j]).path@ == g[j].0
                    &&& rows@[j].name@ == folder_name(g[j].0)
                    &&& rows@[j].track_count == (g[j].1 as u32) as i32
                    &&& !rows@[j].is_parent
                },
        decreases t.dirs.len() - i,
    {
        let dir = t.dirs[i].as_str();
        let fname = file_name_of(dir);
        let item = match &fname {
            Some(n) => folder_to_item(dir, n.as_str(), t.counts[i], false),
            None => folder_to_item(dir, dir, t.counts[i], false),
        };
        rows.push(item);
        i = i + 1;
    }
    rows
}

/// `dirs` with each of `new` appended, in order, whose folder is not listed
/// yet.
pub open spec fn merged_folders(dirs: Seq<Seq<char>>, new: Seq<Seq<char>>) -> Seq<Seq<char>>
    decreases new.len(),
{
    if new.len() == 0 {
        dirs
    } else {
        let h = merged_folders(dirs, new.drop_last());
        if has_folder(h, new.last()) {
            h
        } else {
            h.push(new.last())
        }
    }
}

/// Adding folders keeps the configured ones first and in order, lists every
/// added folder afterwards, and lists no folder twice that was listed once.
pub proof fn lemma_merged_folders(dirs: Seq<Seq<char>>, new: Seq<Seq<char>>)
    ensures
        dirs.is_prefix_of(merged_folders(dirs, new)),
        forall|w: int| 0 <= w < new.len() ==> has_folder(merged_folders(dirs, new), #[trigger] new[w]),
        distinct_folders(dirs) ==> distinct_folders(merged_folders(dirs, new)),
    decreases new.len(),
{
    if new.len() > 0 {
        let pre = new.drop_last();
        lemma_merged_folders(dirs, pre);
        let h = merged_folders(dirs, pre);
        let d = new.last();
        let m = merged_folders(dirs, new);
        assert forall|w: int| 0 <= w < pre.len() implies #[trigger] new[w] == pre[w] by {}
        if !has_folder(h, d) {
            assert(m == h.push(d));
            if distinct_folders(dirs) {
                lemma_push_distinct(h, d);
            }
            assert forall|w: int| 0 <= w < new.len() implies has_folder(m, #[trigger] new[w]) by {
                if w < pre.len() {
                    assert(new[w] == pre[w]);
                    assert(has_folder(h, pre[w]));
                    let k = choose|k: int| 0 <= k < h.len() && same_folder(#[trigger] h[k], pre[w]);
                    assert(m[k] == h[k]);
                } else {
                    assert(m[h.len() as int] == d);
                    assert(same_folder(m[h.len() as int], d));
                }
            }
        } else {
            assert forall|w: int| 0 <= w < new.len() implies has_folder(m, #[trigger] new[w]) by {
                if w < pre.len() {
                    assert(new[w] == pre[w]);
                }
            }
        }
    } else {
        assert(dirs.subrange(0, dirs.len() as int) =~= dirs);
    }
}

/// Whether some directory of `dirs` names the folder `d`.
pub fn lists_folder(dirs: &Vec<String>, d: &str) -> (r: bool)
    ensures
        r == has_folder(texts(dirs@), d@),
{
    let c = components_of(d);
    let ghost ds = texts(dirs@);
    let mut i: usize = 0;
    while i < dirs.len()
        invariant
            i <= dirs@.len(),
            ds == texts(dirs@),
            texts(c@) == path_components(d@),
            forall|j: int| 0 <= j < i ==> !same_folder(#[trigger] ds[j], d@),
        decreases dirs.len() - i,
    {
        let ci = components_of(dirs[i].as_str());
        if strs_eq(&ci, &c) {
            assert(same_folder(ds[i as int], d@));
            return true;
        }
        i = i + 1;
    }
    false
}

/// Add each of `new_dirs` to the configured folders unless its folder is
/// already configured.
pub fn add_watch_dirs(watch_dirs: &mut Vec<String>, new_dirs: &Vec<String>)
    ensures
        texts(final(watch_dirs)@) == merged_folders(texts(old(watch_dirs)@), texts(new_dirs@)),
{
    let ghost start = texts(watch_dirs@);
    let ghost news = texts(new_dirs@);
    let mut k: usize = 0;
    while k < new_dirs.len()
        invariant
            k <= new_dirs@.len(),
            news == texts(new_dirs@),
            texts(watch_dirs@) == merged_folders(start, news.take(k as int)),
        decreases new_dirs.len() - k,
    {
        proof {
            assert(news.take(k as int + 1).drop_last() =~= news.take(k as int));
            assert(news.take(k as int + 1).last() == new_dirs@[k as int]@);
        }
        if !lists_folder(watch_dirs, new_dirs[k].as_str()) {
            let ghost before = watch_dirs@;
            watch_dirs.push(new_dirs[k].clone());
            assert(texts(watch_dirs@) =~= texts(before).push(new_dirs@[k as int]@));
        }
        k = k + 1;
    }
    assert(news.take(k as int) =~= news);
}

/// Toast text when `count` files are being added.
pub open spec fn adding_files_text(count: nat) -> Seq<char> {
    if count == 1 {
        "Adding 1 file…"@
    } else {
        "Adding "@ + decimal_chars(count) + " files…"@
    }
}

/// Toast text when files are being added to the library.
pub fn adding_files_label(count: usize) -> (s: String)
    ensures
        s@ == adding_files_text(count as nat),
{
    let mut out: Vec<char> = Vec::new();
    if count == 1 {
        push_str(&mut out, "Adding 1 file…");
    } else {
        push_str(&mut out, "Adding ");
        push_decimal(&mut out, count as u64);
        push_str(&mut out, " files…");
    }
    chars_to_string(&out)
}

/// Toast text when the folders `folders` are being scanned: the folder's
/// name for one folder (empty when it has none), else their number.
pub open spec fn scanning_folders_text(folders: Seq<Seq<char>>) -> Seq<char> {
    if folders.len() == 1 {
        "Scanning '"@ + (match path_file_name(folders[0]) {
            Some(n) => n,
            None => Seq::empty(),
        }) + "'…"@
    } else {
        "Scanning "@ + decimal_chars(folders.len()) + " folders…"@
    }
}

/// Toast text when folders are being scanned.
pub fn scanning_folders_label(folders: &Vec<String>) -> (s: String)
    ensures
        s@ == scanning_folders_text(texts(folders@)),
{
    let mut out: Vec<char> = Vec::new();
    if folders.len() == 1 {
        push_str(&mut out, "Scanning '");
        match file_name_of(folders[0].as_str()) {
            Some(n) => push_str(&mut out, n.as_str()),
            None => {},
        }
        push_str(&mut out, "'…");
        assert(out@ =~= scanning_folders_text(texts(folders@)));
    } else {
        push_str(&mut out, "Scanning ");
        push_decimal(&mut out, folders.len() as u64);
        push_str(&mut out, " folders…");
    }
    chars_to_string(&out)
}

/// Whether a directory names some folder other than `d`.
pub open spec fn other_folder(d: Seq<char>) -> spec_fn(Seq<char>) -> bool {
    |x: Seq<char>| !same_folder(x, d)
}

/// `dirs` without the directories that name the folder `d`.
pub open spec fn without_folder(dirs: Seq<Seq<char>>, d: Seq<char>) -> Seq<Seq<char>> {
    dirs.filter(other_folder(d))
}

/// Stop watching the folder `dir` (every configured directory naming it).
pub fn remove_watch_dir(watch_dirs: &mut Vec<String>, dir: &str)
    ensures
        texts(final(watch_dirs)@) == without_folder(texts(old(watch_dirs)@), dir@),
{
    let ghost ds = texts(watch_dirs@);
    let c = components_of(dir);
    let mut kept: Vec<String> = Vec::new();
    let mut i: usize = 0;
    while i < watch_dirs.len()
        invariant
            i <= watch_dirs@.len(),
            ds == texts(watch_dirs@),
            texts(c@) == path_components(dir@),
            texts(kept@) == without_folder(ds.take(i as int), dir@),
        decreases watch_dirs.len() - i,
    {
        proof {
            assert(ds.take(i as int + 1).drop_last() =~= ds.take(i as int));
            assert(ds.take(i as int + 1).last() == watch_dirs@[i as int]@);
            ds.take(i as int).lemma_filter_push(watch_dirs@[i as int]@, other_folder(dir@));
            assert(ds.take(i as int).push(watch_dirs@[i as int]@) =~= ds.take(i as int + 1));
        }
        let ci = components_of(watch_dirs[i].as_str());
        if !strs_eq(&ci, &c) {
            let ghost before = kept@;
            kept.push(watch_dirs[i].clone());
            assert(texts(kept@) =~= texts(before).push(watch_dirs@[i as int]@));
        }
        i = i + 1;
    }
    assert(ds.take(i as int) =~= ds);
    *watch_dirs = kept;
}

/// Positions in `tracks` of the tracks held directly by the folder `d`.
pub open spec fn tracks_held_by(tracks: Seq<Track>, d: Seq<char>) -> Seq<usize>
    decreases tracks.len(),
{
    if tracks.len() == 0 {
        Seq::empty()
    } else {
        let rest = tracks_held_by(tracks.drop_last(), d);
        match path_parent(tracks.last().path@) {
            Some(p) => if same_folder(p, d) {
                rest.push((tracks.len() - 1) as usize)
            } else {
                rest
            },
            None => rest,
        }
    }
}

/// The tracks shown on opening the folder `folder`: those it holds
/// directly, by position in `tracks`, in order.
pub fn folder_track_positions(tracks: &Vec<Track>, folder: &str) -> (r: Vec<usize>)
    ensures
        r@ == tracks_held_by(tracks@, folder@),
{
    let c = components_of(folder);
    let mut r: Vec<usize> = Vec::new();
    let mut i: usize = 0;
    while i < tracks.len()
        invariant
            i <= tracks@.len(),
            texts(c@) == path_components(folder@),
            r@ == tracks_held_by(tracks@.take(i as int), folder@),
        decreases tracks.len() - i,
    {
        proof {
            assert(tracks@.take(i as int + 1).drop_last() =~= tracks@.take(i as int));
            assert(tracks@.take(i as int + 1).last() == tracks@[i as int]);
        }
        match parent_of(tracks[i].path.as_str()) {
            Some(p) => {
                let cp = components_of(p.as_str());
                if strs_eq(&cp, &c) {
                    r.push(i);
                }
            },
            None => {},
        }
        i = i + 1;
    }
    assert(tracks@.take(i as int) =~= tracks@);
    r
}

} // verus!
