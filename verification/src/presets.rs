//! Named presets: a table from names to presets, the per-output-device
//! preset store, and the genre preset manager with its protected built-in
//! genres. The presets themselves (equalizer gains and the like) are opaque
//! here.
use vstd::prelude::*;
use crate::engine::OutputDeviceId;
use crate::text::{all_ascii, lowercase_key, sort_strings, sorted_texts, str_eq, texts, to_lowercase};

verus! {

/// Position of the entry named `k` in `e`, if any.
pub open spec fn find_key<P>(e: Seq<(Seq<char>, P)>, k: Seq<char>) -> Option<int> {
    if exists|i: int| 0 <= i < e.len() && (#[trigger] e[i]).0 == k {
        Some(choose|i: int| 0 <= i < e.len() && (#[trigger] e[i]).0 == k)
    } else {
        None
    }
}

/// No name occurs twice in `e`.
pub open spec fn distinct_keys<P>(e: Seq<(Seq<char>, P)>) -> bool {
    forall|i: int, j: int|
        0 <= i < e.len() && 0 <= j < e.len() && i != j ==> (#[trigger] e[i]).0 != (#[trigger] e[j]).0
}

/// `e` with `p` stored under `k`: the entry named `k` gets the new preset in
/// place, or a new entry is appended.
pub open spec fn with_entry<P>(e: Seq<(Seq<char>, P)>, k: Seq<char>, p: P) -> Seq<(Seq<char>, P)> {
    match find_key(e, k) {
        Some(i) => e.update(i, (k, p)),
        None => e.push((k, p)),
    }
}

/// `e` without the entry named `k`.
pub open spec fn without_key<P>(e: Seq<(Seq<char>, P)>, k: Seq<char>) -> Seq<(Seq<char>, P)> {
    match find_key(e, k) {
        Some(i) => e.remove(i),
        None => e,
    }
}

/// The preset stored under `k` in `e`, if any.
pub open spec fn entry_for<P>(e: Seq<(Seq<char>, P)>, k: Seq<char>) -> Option<P> {
    match find_key(e, k) {
        Some(i) => Some(e[i].1),
        None => None,
    }
}

proof fn lemma_find_key_unique<P>(e: Seq<(Seq<char>, P)>, k: Seq<char>, i: int)
    requires
        distinct_keys(e),
        0 <= i < e.len(),
        e[i].0 == k,
    ensures
        find_key(e, k) == Some(i),
{
    let j = choose|j: int| 0 <= j < e.len() && (#[trigger] e[j]).0 == k;
    if j != i {
        assert(e[i].0 != e[j].0);
    }
}

proof fn lemma_with_entry_distinct<P>(e: Seq<(Seq<char>, P)>, k: Seq<char>, p: P)
    requires
        distinct_keys(e),
    ensures
        distinct_keys(with_entry(e, k, p)),
        entry_for(with_entry(e, k, p), k) == Some(p),
{
    let r = with_entry(e, k, p);
    match find_key(e, k) {
        Some(i) => {
            assert forall|a: int, b: int|
                0 <= a < r.len() && 0 <= b < r.len() && a != b implies (#[trigger] r[a]).0 != (
            #[trigger] r[b]).0 by {
                assert(r[a].0 == e[a].0);
                assert(r[b].0 == e[b].0);
            }
            lemma_find_key_unique(r, k, i);
        },
        None => {
            assert forall|a: int, b: int|
                0 <= a < r.len() && 0 <= b < r.len() && a != b implies (#[trigger] r[a]).0 != (
            #[trigger] r[b]).0 by {
                if a < e.len() {
                    assert(r[a] == e[a]);
                }
                if b < e.len() {
                    assert(r[b] == e[b]);
                }
            }
            lemma_find_key_unique(r, k, e.len() as int);
        },
    }
}

proof fn lemma_without_key_distinct<P>(e: Seq<(Seq<char>, P)>, k: Seq<char>)
    requires
        distinct_keys(e),
    ensures
        distinct_keys(without_key(e, k)),
        entry_for(without_key(e, k), k) is None,
{
    let r = without_key(e, k);
    match find_key(e, k) {
        Some(i) => {
            assert forall|a: int| 0 <= a < r.len() implies #[trigger] r[a] == (if a < i {
                e[a]
            } else {
                e[a + 1]
            }) by {}
            assert forall|a: int, b: int|
                0 <= a < r.len() && 0 <= b < r.len() && a != b implies (#[trigger] r[a]).0 != (
            #[trigger] r[b]).0 by {
                let ea = if a < i {
                    a
                } else {
                    a + 1
                };
                let eb = if b < i {
                    b
                } else {
                    b + 1
                };
                assert(r[a] == e[ea]);
                assert(r[b] == e[eb]);
            }
            assert forall|a: int| 0 <= a < r.len() implies (#[trigger] r[a]).0 != k by {
                let ea = if a < i {
                    a
                } else {
                    a + 1
                };
                assert(r[a] == e[ea]);
                assert(e[ea].0 != e[i].0);
            }
        },
        None => {},
    }
}

/// Presets under distinct names, in the order the names were first stored.
pub struct PresetTable<P> {
    entries: Vec<(String, P)>,
}

/// Entries with their names taken by text.
pub open spec fn named_by_text<P>(v: Seq<(String, P)>) -> Seq<(Seq<char>, P)> {
    Seq::new(v.len(), |i: int| (v[i].0@, v[i].1))
}

impl<P> PresetTable<P> {
    /// The stored entries, with names by their text.
    pub closed spec fn view_entries(&self) -> Seq<(Seq<char>, P)> {
        named_by_text(self.entries@)
    }

    /// No name is stored twice.
    pub closed spec fn wf(&self) -> bool {
        distinct_keys(self.view_entries())
    }

    /// An empty table.
    pub fn new() -> (t: Self)
        ensures
            t.wf(),
            t.view_entries() == Seq::<(Seq<char>, P)>::empty(),
    {
        let t = PresetTable { entries: Vec::new() };
        assert(t.view_entries() =~= Seq::<(Seq<char>, P)>::empty());
        t
    }

    /// Where the entry named `key` stands.
    fn position(&self, key: &str) -> (r: Option<usize>)
        requires
            self.wf(),
        ensures
            r matches Some(i) ==> find_key(self.view_entries(), key@) == Some(i as int) && i
                < self.entries@.len(),
            r is None ==> find_key(self.view_entries(), key@) is None,
    {
        let ghost e = self.view_entries();
        let mut i: usize = 0;
        while i < self.entries.len()
            invariant
                i <= self.entries@.len(),
                e == self.view_entries(),
                distinct_keys(e),
                e.len() == self.entries@.len(),
                forall|j: int| 0 <= j < i ==> (#[trigger] e[j]).0 != key@,
            decreases self.entries.len() - i,
        {
            assert(e[i as int].0 == self.entries@[i as int].0@);
            if str_eq(self.entries[i].0.as_str(), key) {
                proof {
                    lemma_find_key_unique(e, key@, i as int);
                }
                return Some(i);
            }
            i = i + 1;
        }
        None
    }

    /// The preset stored under `key`.
    pub fn get(&self, key: &str) -> (r: Option<&P>)
        requires
            self.wf(),
        ensures
            r matches Some(p) ==> entry_for(self.view_entries(), key@) == Some(*p),
            r is None ==> entry_for(self.view_entries(), key@) is None,
    {
        match self.position(key) {
            Some(i) => Some(&self.entries[i].1),
            None => None,
        }
    }

    /// Whether a preset is stored under `key`.
    pub fn contains_key(&self, key: &str) -> (b: bool)
        requires
            self.wf(),
        ensures
            b == find_key(self.view_entries(), key@) is Some,
    {
        self.position(key).is_some()
    }

    /// Store `p` under `key`, replacing what was stored there.
    pub fn insert(&mut self, key: String, p: P)
        requires
            old(self).wf(),
        ensures
            final(self).wf(),
            final(self).view_entries() == with_entry(old(self).view_entries(), key@, p),
    {
        let ghost e = self.view_entries();
        proof {
            lemma_with_entry_distinct(e, key@, p);
        }
        match self.position(key.as_str()) {
            Some(i) => {
                let ghost kv = key@;
                self.entries.set(i, (key, p));
                assert(self.view_entries() =~= e.update(i as int, (kv, p)));
            },
            None => {
                self.entries.push((key, p));
                assert(self.view_entries() =~= e.push((self.entries@.last().0@, p)));
            },
        }
    }

    /// Drop the preset stored under `key`, if any.
    pub fn remove(&mut self, key: &str)
        requires
            old(self).wf(),
        ensures
            final(self).wf(),
            final(self).view_entries() == without_key(old(self).view_entries(), key@),
    {
        let ghost e = self.view_entries();
        proof {
            lemma_without_key_distinct(e, key@);
        }
        match self.position(key) {
            Some(i) => {
                let _ = self.entries.remove(i);
                assert(self.view_entries() =~= e.remove(i as int));
            },
            None => {},
        }
    }

    /// Number of stored presets.
    pub fn len(&self) -> (n: usize)
        ensures
            n == self.view_entries().len(),
    {
        self.entries.len()
    }

    /// The stored names, in table order.
    pub fn keys(&self) -> (v: Vec<String>)
        ensures
            v@.len() == self.view_entries().len(),
            forall|i: int| 0 <= i < v@.len() ==> (#[trigger] v@[i])@ == self.view_entries()[i].0,
    {
        let mut v: Vec<String> = Vec::new();
        let mut i: usize = 0;
        while i < self.entries.len()
            invariant
                i <= self.entries@.len(),
                v@.len() == i,
                forall|j: int| 0 <= j < i ==> (#[trigger] v@[j])@ == self.view_entries()[j].0,
            decreases self.entries.len() - i,
        {
            v.push(self.entries[i].0.clone());
            i = i + 1;
        }
        v
    }
}

/// EQ presets saved per output device.
pub struct OutputPresetStore<P> {
    presets: PresetTable<P>,
}

impl<P> OutputPresetStore<P> {
    /// The saved presets, by device name.
    pub closed spec fn saved(&self) -> Seq<(Seq<char>, P)> {
        self.presets.view_entries()
    }

    /// No device is saved twice.
    pub closed spec fn wf(&self) -> bool {
        self.presets.wf()
    }

    /// Nothing saved.
    pub fn new() -> (s: Self)
        ensures
            s.wf(),
            s.saved() == Seq::<(Seq<char>, P)>::empty(),
    {
        OutputPresetStore { presets: PresetTable::new() }
    }

    /// Save `state` for `device`, replacing what was saved for it.
    pub fn save(&mut self, device: OutputDeviceId, state: P)
        requires
            old(self).wf(),
        ensures
            final(self).wf(),
            final(self).saved() == with_entry(old(self).saved(), device.0@, state),
    {
        self.presets.insert(device.0, state);
    }

    /// The state saved for `device`; the caller falls back to its default
    /// when none is saved.
    pub fn load(&self, device: &OutputDeviceId) -> (r: Option<&P>)
        requires
            self.wf(),
        ensures
            r matches Some(p) ==> entry_for(self.saved(), device.0@) == Some(*p),
            r is None ==> entry_for(self.saved(), device.0@) is None,
    {
        self.presets.get(device.0.as_str())
    }

    /// Forget the state saved for `device`.
    pub fn remove(&mut self, device: &OutputDeviceId)
        requires
            old(self).wf(),
        ensures
            final(self).wf(),
            final(self).saved() == without_key(old(self).saved(), device.0@),
    {
        self.presets.remove(device.0.as_str())
    }

    /// Devices with a saved state.
    pub fn devices(&self) -> (v: Vec<String>)
        ensures
            v@.len() == self.saved().len(),
            forall|i: int| 0 <= i < v@.len() ==> (#[trigger] v@[i])@ == self.saved()[i].0,
    {
        self.presets.keys()
    }
}

/// Saving a state for a device and loading it back gives that state; other
/// devices keep theirs.
pub proof fn lemma_save_then_load<P>(saved: Seq<(Seq<char>, P)>, device: Seq<char>, state: P, other: Seq<char>)
    requires
        distinct_keys(saved),
    ensures
        entry_for(with_entry(saved, device, state), device) == Some(state),
        other != device ==> entry_for(with_entry(saved, device, state), other) == entry_for(saved, other),
{
    lemma_with_entry_distinct(saved, device, state);
    let r = with_entry(saved, device, state);
    if other != device {
        match find_key(saved, other) {
            Some(j) => {
                assert(r[j].0 == other);
                lemma_find_key_unique(r, other, j);
                match find_key(saved, device) {
                    Some(i) => {
                        assert(i != j);
                    },
                    None => {},
                }
            },
            None => {
                assert forall|a: int| 0 <= a < r.len() implies (#[trigger] r[a]).0 != other by {
                    if a < saved.len() {
                        match find_key(saved, device) {
                            Some(i) => {
                                if a == i {
                                } else {
                                    assert(r[a] == saved[a]);
                                }
                            },
                            None => {
                                assert(r[a] == saved[a]);
                            },
                        }
                    }
                }
            },
        }
    }
}

/// The preset table that storing each `(name, preset)` of `items` in turn,
/// under its lower-case name, builds from `start`.
pub open spec fn stored_lowercase<P>(start: Seq<(Seq<char>, P)>, items: Seq<(Seq<char>, P)>) -> Seq<
    (Seq<char>, P),
>
    decreases items.len(),
{
    if items.len() == 0 {
        start
    } else {
        with_entry(
            stored_lowercase(start, items.drop_last()),
            lowercase_key(items.last().0),
            items.last().1,
        )
    }
}

/// The two tables hold the same names in the same order, each preset of
/// `copy` a clone of the one in `orig`.
pub open spec fn cloned_table<P: Clone>(orig: Seq<(Seq<char>, P)>, copy: Seq<(Seq<char>, P)>) -> bool {
    &&& orig.len() == copy.len()
    &&& forall|i: int|
        0 <= i < orig.len() ==> (#[trigger] orig[i]).0 == copy[i].0 && cloned(orig[i].1, copy[i].1)
}

proof fn lemma_find_key_aligned<P: Clone>(a: Seq<(Seq<char>, P)>, b: Seq<(Seq<char>, P)>, k: Seq<char>)
    requires
        cloned_table(a, b),
        distinct_keys(a),
    ensures
        find_key(a, k) == find_key(b, k),
        distinct_keys(b),
{
    assert forall|i: int, j: int|
        0 <= i < b.len() && 0 <= j < b.len() && i != j implies (#[trigger] b[i]).0 != (
    #[trigger] b[j]).0 by {
        assert(a[i].0 == b[i].0);
        assert(a[j].0 == b[j].0);
    }
    match find_key(a, k) {
        Some(i) => {
            assert(a[i].0 == b[i].0);
            lemma_find_key_unique(b, k, i);
        },
        None => {
            assert forall|i: int| 0 <= i < b.len() implies (#[trigger] b[i]).0 != k by {
                assert(a[i].0 == b[i].0);
            }
        },
    }
}

/// Genre presets looked up by genre name regardless of case. The built-in
/// genres can be overridden, and removing one restores its default.
pub struct GenrePresetManager<P> {
    presets: PresetTable<P>,
    built_ins: PresetTable<P>,
}

impl<P: Clone> GenrePresetManager<P> {
    /// The presets in use, under lower-case genre names.
    pub closed spec fn presets_view(&self) -> Seq<(Seq<char>, P)> {
        self.presets.view_entries()
    }

    /// The built-in defaults, under lower-case genre names.
    pub closed spec fn defaults_view(&self) -> Seq<(Seq<char>, P)> {
        self.built_ins.view_entries()
    }

    /// No genre is stored twice in either table.
    pub closed spec fn wf(&self) -> bool {
        self.presets.wf() && self.built_ins.wf()
    }

    /// A manager whose built-in genres are `built_ins` (name and default
    /// preset), all in use.
    pub fn new(built_ins: Vec<(String, P)>) -> (m: Self)
        ensures
            m.wf(),
            m.presets_view() == stored_lowercase(Seq::empty(), named_by_text(built_ins@)),
            cloned_table(m.presets_view(), m.defaults_view()),
    {
        let ghost items = named_by_text(built_ins@);
        let n0: usize = built_ins.len();
        let mut presets: PresetTable<P> = PresetTable::new();
        let mut defaults: PresetTable<P> = PresetTable::new();
        let mut rest = built_ins;
        let mut k: usize = 0;
        let ghost n = items.len();
        proof {
            assert(items.take(0) =~= Seq::<(Seq<char>, P)>::empty());
        }
        while rest.len() > 0
            invariant
                k + rest@.len() == n,
                n == items.len(),
                n == n0,
                named_by_text(rest@) == items.skip(k as int),
                presets.wf(),
                defaults.wf(),
                presets.view_entries() == stored_lowercase(Seq::empty(), items.take(k as int)),
                cloned_table(presets.view_entries(), defaults.view_entries()),
            decreases rest.len(),
        {
            let ghost before_rest = rest@;
            let (name, p) = rest.remove(0);
            proof {
                assert(items.skip(k as int)[0] == (name@, p));
                assert(items[k as int] == (name@, p));
                assert(items.take(k as int + 1).drop_last() =~= items.take(k as int));
                assert(items.take(k as int + 1).last() == (name@, p));
                assert forall|i: int| 0 <= i < rest@.len() implies named_by_text(rest@)[i] == items.skip(
                    k as int + 1,
                )[i] by {
                    assert(rest@[i] == before_rest[i + 1]);
                    assert(named_by_text(before_rest)[i + 1] == items.skip(k as int)[i + 1]);
                }
                assert(named_by_text(rest@) =~= items.skip(k as int + 1));
            }
            let key = to_lowercase(name.as_str());
            let ghost pv = presets.view_entries();
            let ghost dv = defaults.view_entries();
            proof {
                lemma_find_key_aligned(pv, dv, key@);
            }
            let copy = p.clone();
            defaults.insert(key.clone(), copy);
            presets.insert(key, p);
            proof {
                let np = presets.view_entries();
                let nd = defaults.view_entries();
                assert(np == with_entry(pv, key@, p));
                assert(nd == with_entry(dv, key@, copy));
                match find_key(pv, key@) {
                    Some(i) => {
                        assert forall|j: int| 0 <= j < np.len() implies (#[trigger] np[j]).0 == nd[j].0
                            && cloned(np[j].1, nd[j].1) by {
                            if j != i {
                                assert(np[j] == pv[j]);
                                assert(nd[j] == dv[j]);
                            }
                        }
                    },
                    None => {
                        assert forall|j: int| 0 <= j < np.len() implies (#[trigger] np[j]).0 == nd[j].0
                            && cloned(np[j].1, nd[j].1) by {
                            if j < pv.len() {
                                assert(np[j] == pv[j]);
                                assert(nd[j] == dv[j]);
                            }
                        }
                    },
                }
            }
            k = k + 1;
        }
        proof {
            assert(items.take(k as int) =~= items);
        }
        GenrePresetManager { presets, built_ins: defaults }
    }

    /// The preset for `genre`, whatever its case.
    pub fn get(&self, genre: &str) -> (r: Option<&P>)
        requires
            self.wf(),
        ensures
            r matches Some(p) ==> entry_for(self.presets_view(), lowercase_key(genre@)) == Some(*p),
            r is None ==> entry_for(self.presets_view(), lowercase_key(genre@)) is None,
    {
        let key = to_lowercase(genre);
        self.presets.get(key.as_str())
    }

    /// Use `preset` for `genre` (added, or replacing the one in use).
    pub fn register(&mut self, genre: &str, preset: P)
        requires
            old(self).wf(),
        ensures
            final(self).wf(),
            final(self).presets_view() == with_entry(
                old(self).presets_view(),
                lowercase_key(genre@),
                preset,
            ),
            final(self).defaults_view() == old(self).defaults_view(),
    {
        let key = to_lowercase(genre);
        self.presets.insert(key, preset);
    }

    /// Remove the preset for `genre`: a built-in genre gets its default back
    /// (it is never removed); another genre is dropped.
    pub fn remove(&mut self, genre: &str)
        requires
            old(self).wf(),
        ensures
            final(self).wf(),
            final(self).defaults_view() == old(self).defaults_view(),
            match entry_for(old(self).defaults_view(), lowercase_key(genre@)) {
                Some(d) => entry_for(final(self).presets_view(), lowercase_key(genre@)) matches Some(c)
                    && cloned(d, c) && final(self).presets_view() == with_entry(
                    old(self).presets_view(),
                    lowercase_key(genre@),
                    c,
                ),
                None => final(self).presets_view() == without_key(
                    old(self).presets_view(),
                    lowercase_key(genre@),
                ) && entry_for(final(self).presets_view(), lowercase_key(genre@)) is None,
            },
    {
        let key = to_lowercase(genre);
        let ghost pv = self.presets.view_entries();
        match self.built_ins.get(key.as_str()) {
            Some(d) => {
                let c = d.clone();
                proof {
                    assert(cloned(*d, c));
                    lemma_with_entry_distinct(pv, key@, c);
                }
                let ghost cg = c;
                let ghost dg = *d;
                self.presets.insert(key, c);
                assert(cloned(dg, cg) && self.presets.view_entries() == with_entry(pv, lowercase_key(genre@), cg));
            },
            None => {
                proof {
                    lemma_without_key_distinct(pv, key@);
                }
                self.presets.remove(key.as_str());
            },
        }
    }

    /// Whether `genre` is built in, whatever its case.
    pub fn is_built_in(&self, genre: &str) -> (b: bool)
        requires
            self.wf(),
        ensures
            b == find_key(self.defaults_view(), lowercase_key(genre@)) is Some,
    {
        let key = to_lowercase(genre);
        self.built_ins.contains_key(key.as_str())
    }

    /// Number of genres with a preset.
    pub fn len(&self) -> (n: usize)
        ensures
            n == self.presets_view().len(),
    {
        self.presets.len()
    }

    /// Whether no genre has a preset.
    pub fn is_empty(&self) -> (b: bool)
        ensures
            b == (self.presets_view().len() == 0),
    {
        self.presets.len() == 0
    }

    /// The genres with a preset, in lexicographic order.
    pub fn list_genres(&self) -> (v: Vec<String>)
        ensures
            texts(v@).to_multiset() == self.presets_view().map_values(
                |x: (Seq<char>, P)| x.0,
            ).to_multiset(),
            sorted_texts(texts(v@)),
    {
        let mut v = self.presets.keys();
        assert(texts(v@) =~= self.presets_view().map_values(|x: (Seq<char>, P)| x.0));
        sort_strings(&mut v);
        v
    }
}

/// Genre lookup ignores the case of ASCII letters: a genre name written in
/// ASCII is looked up under the same key as its lower-case form (and that
/// form is ASCII too), so both give the same preset.
pub proof fn lemma_genre_lookup_ignores_ascii_case(g: Seq<char>)
    requires
        all_ascii(g),
    ensures
        all_ascii(lowercase_key(g)),
        lowercase_key(lowercase_key(g)) == lowercase_key(g),
{
    let l = lowercase_key(g);
    assert(all_ascii(l));
    assert(lowercase_key(l) =~= l);
}

} // verus!
