//! A bounded least-recently-used cache of decoded PCM buffers keyed by file
//! hash, so that analysis can reuse audio already decoded for playback. The
//! cache itself is the `lru` crate's `LruCache`.
use vstd::prelude::*;
use lru::LruCache;

verus! {

/// Seconds of audio worth keeping per track (analysis reads no further).
pub const MAX_CACHE_DURATION_SECS: u64 = 90;

/// Capacity used when none (or zero) is asked for.
pub const DEFAULT_CAPACITY: usize = 5;

/// Decoded audio of one track: interleaved samples, each held as the bit
/// pattern of an IEEE-754 single-precision value.
#[derive(Debug, Clone, PartialEq, Eq)]
pub struct PcmBuffer {
    pub samples: Vec<u32>,
    pub sample_rate: u32,
    pub channels: u16,
}

/// Number of samples that `max_secs` seconds span at `rate` samples per second
/// per channel over `channels` channels, saturated at the largest `u64` and
/// then at the largest `usize`.
pub open spec fn sample_limit(rate: u32, channels: u16, max_secs: u64) -> int {
    let p = rate * channels * max_secs;
    let s = if p > u64::MAX {
        u64::MAX as int
    } else {
        p
    };
    if s > usize::MAX {
        usize::MAX as int
    } else {
        s
    }
}

impl PcmBuffer {
    /// A buffer of `samples` at `sample_rate` Hz over `channels` channels.
    pub fn new(samples: Vec<u32>, sample_rate: u32, channels: u16) -> (b: Self)
        ensures
            b.samples@ == samples@,
            b.sample_rate == sample_rate,
            b.channels == channels,
    {
        PcmBuffer { samples, sample_rate, channels }
    }

    /// Keep only the first `max_secs` seconds of audio. A buffer without a
    /// sample rate or channels is left alone.
    pub fn truncate_to_duration(&mut self, max_secs: u64)
        ensures
            final(self).sample_rate == old(self).sample_rate,
            final(self).channels == old(self).channels,
            old(self).sample_rate == 0 || old(self).channels == 0 ==> final(self).samples@ == old(
                self,
            ).samples@,
            old(self).sample_rate != 0 && old(self).channels != 0 ==> final(self).samples@ == old(
                self,
            ).samples@.take(
                if old(self).samples@.len() > sample_limit(
                    old(self).sample_rate,
                    old(self).channels,
                    max_secs,
                ) {
                    sample_limit(old(self).sample_rate, old(self).channels, max_secs)
                } else {
                    old(self).samples@.len() as int
                },
            ),
    {
        if self.sample_rate == 0 || self.channels == 0 {
            return;
        }
        proof {
            let r = self.sample_rate as int;
            let c = self.channels as int;
            assert(r * c <= 0xffff_ffff * 0xffff) by (nonlinear_arith)
                requires
                    0 <= r <= 0xffff_ffff,
                    0 <= c <= 0xffff,
            ;
        }
        let rc: u64 = (self.sample_rate as u64) * (self.channels as u64);
        proof {
            assert(rc == self.sample_rate * self.channels) by (nonlinear_arith)
                requires
                    rc == (self.sample_rate as u64) * (self.channels as u64),
            ;
            assert((rc as u128) * (max_secs as u128) <= 0x1_0000_0000_0000 * 0x1_0000_0000_0000_0000)
                by (nonlinear_arith)
                requires
                    rc <= 0xffff_ffff * 0xffff,
                    max_secs <= 0xffff_ffff_ffff_ffff,
            ;
            assert(rc * max_secs == self.sample_rate * self.channels * max_secs) by (
            nonlinear_arith)
                requires
                    rc == self.sample_rate * self.channels,
            ;
        }
        let wide: u128 = (rc as u128) * (max_secs as u128);
        let p: u64 = if wide > u64::MAX as u128 {
            u64::MAX
        } else {
            wide as u64
        };
        let limit: usize = if p > usize::MAX as u64 {
            usize::MAX
        } else {
            p as usize
        };
        if self.samples.len() > limit {
            self.samples.truncate(limit);
        }
    }
}

/// The `lru` crate's cache type.
#[verifier::external_type_specification]
#[verifier::external_body]
#[verifier::reject_recursive_types(K)]
#[verifier::reject_recursive_types(V)]
#[verifier::reject_recursive_types(S)]
pub struct ExLruCache<K, V, S>(LruCache<K, V, S>);

/// The hasher `LruCache` uses by default.
#[verifier::external_type_specification]
#[verifier::external_body]
pub struct ExLruDefaultHasher(lru::DefaultHasher);

/// The entries of a cache, most recently used first.
pub uninterp spec fn lru_entries(c: LruCache<String, PcmBuffer>) -> Seq<(Seq<char>, PcmBuffer)>;

/// The capacity a cache was made with.
pub uninterp spec fn lru_cap(c: LruCache<String, PcmBuffer>) -> nat;

/// Position of the entry with key `k` in `e`, if any.
pub open spec fn key_index(e: Seq<(Seq<char>, PcmBuffer)>, k: Seq<char>) -> Option<int> {
    if exists|i: int| 0 <= i < e.len() && (#[trigger] e[i]).0 == k {
        Some(choose|i: int| 0 <= i < e.len() && (#[trigger] e[i]).0 == k)
    } else {
        None
    }
}

/// No key occurs twice in `e`.
pub open spec fn keys_distinct(e: Seq<(Seq<char>, PcmBuffer)>) -> bool {
    forall|i: int, j: int|
        0 <= i < e.len() && 0 <= j < e.len() && i != j ==> (#[trigger] e[i]).0 != (#[trigger] e[j]).0
}

/// Entries after storing `v` under `k` with capacity `cap`: an existing entry
/// for `k` is replaced and becomes the most recent; otherwise, when full, the
/// least recently used entry makes room; the new entry comes first.
pub open spec fn put_entries(
    e: Seq<(Seq<char>, PcmBuffer)>,
    k: Seq<char>,
    v: PcmBuffer,
    cap: nat,
) -> Seq<(Seq<char>, PcmBuffer)> {
    match key_index(e, k) {
        Some(i) => seq![(k, v)] + e.remove(i),
        None => if e.len() >= cap {
            seq![(k, v)] + e.drop_last()
        } else {
            seq![(k, v)] + e
        },
    }
}

/// A cache of capacity `cap` (std's `NonZeroUsize::new` then
/// `LruCache::new`): empty.
#[verifier::external_body]
fn lru_new(cap: usize) -> (c: LruCache<String, PcmBuffer>)
    requires
        cap > 0,
    ensures
        lru_entries(c) == Seq::<(Seq<char>, PcmBuffer)>::empty(),
        lru_cap(c) == cap,
{
    LruCache::new(std::num::NonZeroUsize::new(cap).unwrap())
}

/// `LruCache::put`: stores `v` under `k` as the most recent entry, replacing
/// the entry for `k` if there is one (whose value is returned), else evicting
/// the least recently used entry when the cache is full.
#[verifier::external_body]
fn lru_put(c: &mut LruCache<String, PcmBuffer>, k: String, v: PcmBuffer) -> (r: Option<PcmBuffer>)
    ensures
        lru_entries(*final(c)) == put_entries(lru_entries(*old(c)), k@, v, lru_cap(*old(c))),
        lru_cap(*final(c)) == lru_cap(*old(c)),
        r == (match key_index(lru_entries(*old(c)), k@) {
            Some(i) => Some(lru_entries(*old(c))[i].1),
            None => None,
        }),
{
    c.put(k, v)
}

/// `LruCache::get` followed by a clone of the value: a hit makes the entry
/// the most recent.
#[verifier::external_body]
fn lru_get(c: &mut LruCache<String, PcmBuffer>, k: &str) -> (r: Option<PcmBuffer>)
    ensures
        lru_cap(*final(c)) == lru_cap(*old(c)),
        match key_index(lru_entries(*old(c)), k@) {
            Some(i) => r == Some(lru_entries(*old(c))[i].1) && lru_entries(*final(c)) == seq![
                lru_entries(*old(c))[i],
            ] + lru_entries(*old(c)).remove(i),
            None => r is None && lru_entries(*final(c)) == lru_entries(*old(c)),
        },
{
    c.get(k).cloned()
}

/// `LruCache::contains`: whether `k` has an entry (recency unchanged).
#[verifier::external_body]
fn lru_contains(c: &LruCache<String, PcmBuffer>, k: &str) -> (b: bool)
    ensures
        b == key_index(lru_entries(*c), k@) is Some,
{
    c.contains(k)
}

/// `LruCache::pop`: removes the entry for `k`, returning its value.
#[verifier::external_body]
fn lru_pop(c: &mut LruCache<String, PcmBuffer>, k: &str) -> (r: Option<PcmBuffer>)
    ensures
        lru_cap(*final(c)) == lru_cap(*old(c)),
        match key_index(lru_entries(*old(c)), k@) {
            Some(i) => r == Some(lru_entries(*old(c))[i].1) && lru_entries(*final(c)) == lru_entries(
                *old(c),
            ).remove(i),
            None => r is None && lru_entries(*final(c)) == lru_entries(*old(c)),
        },
{
    c.pop(k)
}

/// `LruCache::clear`: removes every entry.
#[verifier::external_body]
fn lru_clear(c: &mut LruCache<String, PcmBuffer>)
    ensures
        lru_entries(*final(c)) == Seq::<(Seq<char>, PcmBuffer)>::empty(),
        lru_cap(*final(c)) == lru_cap(*old(c)),
{
    c.clear()
}

/// `LruCache::len`: the number of entries.
#[verifier::external_body]
fn lru_len(c: &LruCache<String, PcmBuffer>) -> (n: usize)
    ensures
        n == lru_entries(*c).len(),
{
    c.len()
}

proof fn lemma_key_index_unique(e: Seq<(Seq<char>, PcmBuffer)>, k: Seq<char>, i: int)
    requires
        keys_distinct(e),
        0 <= i < e.len(),
        e[i].0 == k,
    ensures
        key_index(e, k) == Some(i),
{
    let j = choose|j: int| 0 <= j < e.len() && (#[trigger] e[j]).0 == k;
    if j != i {
        assert(e[i].0 != e[j].0);
    }
}

proof fn lemma_key_index_some(e: Seq<(Seq<char>, PcmBuffer)>, k: Seq<char>)
    ensures
        key_index(e, k) matches Some(i) ==> 0 <= i < e.len() && e[i].0 == k,
        key_index(e, k) is None ==> forall|i: int| 0 <= i < e.len() ==> (#[trigger] e[i]).0 != k,
{
}

/// Storing a buffer keeps the cache within its capacity with each key once;
/// the stored buffer is then the most recent entry and is found under its
/// key; when a new key enters a full cache, the least recently used entry
/// is the one that leaves.
pub proof fn lemma_put_entries(
    e: Seq<(Seq<char>, PcmBuffer)>,
    k: Seq<char>,
    v: PcmBuffer,
    cap: nat,
)
    requires
        keys_distinct(e),
        e.len() <= cap,
        cap >= 1,
    ensures
        ({
            let r = put_entries(e, k, v, cap);
            &&& keys_distinct(r)
            &&& r.len() <= cap
            &&& r[0] == (k, v)
            &&& key_index(r, k) == Some(0int)
            &&& (key_index(e, k) is None && e.len() == cap) ==> key_index(r, e.last().0) is None
            &&& forall|j: int|
                0 <= j < e.len() && e[j].0 != k && !(key_index(e, k) is None && e.len() == cap && j
                    == e.len() - 1) ==> key_index(r, (#[trigger] e[j]).0) is Some
        }),
{
    let r = put_entries(e, k, v, cap);
    lemma_key_index_some(e, k);
    match key_index(e, k) {
        Some(i) => {
            let rest = e.remove(i);
            assert(r == seq![(k, v)] + rest);
            assert forall|a: int| 0 <= a < rest.len() implies #[trigger] rest[a] == (if a < i {
                e[a]
            } else {
                e[a + 1]
            }) by {}
            assert forall|a: int, b: int|
                0 <= a < r.len() && 0 <= b < r.len() && a != b implies (#[trigger] r[a]).0 != (
            #[trigger] r[b]).0 by {
                if a > 0 && b > 0 {
                    let ea = if a - 1 < i { a - 1 } else { a };
                    let eb = if b - 1 < i { b - 1 } else { b };
                    assert(r[a] == e[ea]);
                    assert(r[b] == e[eb]);
                } else if a == 0 {
                    let eb = if b - 1 < i { b - 1 } else { b };
                    assert(r[b] == e[eb]);
                    assert(eb != i);
                } else {
                    let ea = if a - 1 < i { a - 1 } else { a };
                    assert(r[a] == e[ea]);
                    assert(ea != i);
                }
            }
            lemma_key_index_unique(r, k, 0);
            assert forall|j: int|
                0 <= j < e.len() && e[j].0 != k implies key_index(r, (#[trigger] e[j]).0) is Some by {
                let rj = if j < i { j + 1 } else { j };
                assert(j != i);
                assert(r[rj] == e[j]);
            }
        },
        None => {
            let rest = if e.len() >= cap {
                e.drop_last()
            } else {
                e
            };
            assert(r == seq![(k, v)] + rest);
            assert forall|a: int| 0 <= a < rest.len() implies #[trigger] rest[a] == e[a] by {}
            assert forall|a: int, b: int|
                0 <= a < r.len() && 0 <= b < r.len() && a != b implies (#[trigger] r[a]).0 != (
            #[trigger] r[b]).0 by {
                if a > 0 && b > 0 {
                    assert(r[a] == e[a - 1]);
                    assert(r[b] == e[b - 1]);
                } else if a == 0 {
                    assert(r[b] == e[b - 1]);
                } else {
                    assert(r[a] == e[a - 1]);
                }
            }
            lemma_key_index_unique(r, k, 0);
            if e.len() == cap {
                let last = e.last().0;
                assert(e.last() == e[e.len() - 1]);
                assert forall|a: int| 0 <= a < r.len() implies (#[trigger] r[a]).0 != last by {
                    if a > 0 {
                        assert(r[a] == e[a - 1]);
                        assert(e[a - 1].0 != e[e.len() - 1].0);
                    }
                }
            }
            assert forall|j: int|
                0 <= j < e.len() && e[j].0 != k && !(e.len() == cap && j == e.len() - 1) implies key_index(
                r,
                (#[trigger] e[j]).0,
            ) is Some by {
                assert(r[j + 1] == e[j]);
            }
        },
    }
}

/// A bounded LRU cache of decoded PCM buffers keyed by file hash.
pub struct PcmCache {
    cache: LruCache<String, PcmBuffer>,
}

impl PcmCache {
    /// The cached entries, most recently used first.
    pub closed spec fn entries(&self) -> Seq<(Seq<char>, PcmBuffer)> {
        lru_entries(self.cache)
    }

    /// The most entries the cache holds.
    pub closed spec fn capacity(&self) -> nat {
        lru_cap(self.cache)
    }

    /// Within capacity, each key once.
    pub closed spec fn wf(&self) -> bool {
        &&& lru_cap(self.cache) >= 1
        &&& lru_entries(self.cache).len() <= lru_cap(self.cache)
        &&& keys_distinct(lru_entries(self.cache))
    }

    /// An empty cache holding up to `capacity` buffers (five when zero is
    /// asked for).
    pub fn new(capacity: usize) -> (c: Self)
        ensures
            c.wf(),
            c.entries() == Seq::<(Seq<char>, PcmBuffer)>::empty(),
            c.capacity() == (if capacity == 0 {
                DEFAULT_CAPACITY
            } else {
                capacity
            }),
    {
        let cap = if capacity == 0 {
            DEFAULT_CAPACITY
        } else {
            capacity
        };
        PcmCache { cache: lru_new(cap) }
    }

    /// An empty cache of the default capacity.
    pub fn with_default_capacity() -> (c: Self)
        ensures
            c.wf(),
            c.entries() == Seq::<(Seq<char>, PcmBuffer)>::empty(),
            c.capacity() == DEFAULT_CAPACITY,
    {
        Self::new(DEFAULT_CAPACITY)
    }

    /// Store `buffer` under `file_hash` as the most recent entry; a full
    /// cache first drops its least recently used entry.
    pub fn insert(&mut self, file_hash: &str, buffer: PcmBuffer)
        requires
            old(self).wf(),
        ensures
            final(self).wf(),
            final(self).entries() == put_entries(
                old(self).entries(),
                file_hash@,
                buffer,
                old(self).capacity(),
            ),
            final(self).capacity() == old(self).capacity(),
    {
        proof {
            lemma_put_entries(lru_entries(self.cache), file_hash@, buffer, lru_cap(self.cache));
        }
        let _ = lru_put(&mut self.cache, file_hash.to_owned(), buffer);
    }

    /// The buffer stored under `file_hash`, if any; a hit makes it the most
    /// recent entry.
    pub fn get(&mut self, file_hash: &str) -> (r: Option<PcmBuffer>)
        requires
            old(self).wf(),
        ensures
            final(self).wf(),
            final(self).capacity() == old(self).capacity(),
            match key_index(old(self).entries(), file_hash@) {
                Some(i) => r == Some(old(self).entries()[i].1) && final(self).entries() == seq![
                    old(self).entries()[i],
                ] + old(self).entries().remove(i),
                None => r is None && final(self).entries() == old(self).entries(),
            },
    {
        proof {
            let e = lru_entries(self.cache);
            lemma_key_index_some(e, file_hash@);
            match key_index(e, file_hash@) {
                Some(i) => {
                    let r = seq![e[i]] + e.remove(i);
                    assert forall|a: int|
                        0 <= a < r.len() implies #[trigger] r[a] == (if a == 0 {
                        e[i]
                    } else if a - 1 < i {
                        e[a - 1]
                    } else {
                        e[a]
                    }) by {}
                    assert forall|a: int, b: int|
                        0 <= a < r.len() && 0 <= b < r.len() && a != b implies (#[trigger] r[a]).0
                        != (#[trigger] r[b]).0 by {
                        let ea = if a == 0 {
                            i
                        } else if a - 1 < i {
                            a - 1
                        } else {
                            a
                        };
                        let eb = if b == 0 {
                            i
                        } else if b - 1 < i {
                            b - 1
                        } else {
                            b
                        };
                        assert(ea != eb);
                        assert(r[a] == e[ea]);
                        assert(r[b] == e[eb]);
                    }
                },
                None => {},
            }
        }
        lru_get(&mut self.cache, file_hash)
    }

    /// Whether a buffer is stored under `file_hash` (recency unchanged).
    pub fn contains(&self, file_hash: &str) -> (b: bool)
        ensures
            b == key_index(self.entries(), file_hash@) is Some,
    {
        lru_contains(&self.cache, file_hash)
    }

    /// Drop the buffer stored under `file_hash`, if any.
    pub fn remove(&mut self, file_hash: &str)
        requires
            old(self).wf(),
        ensures
            final(self).wf(),
            final(self).capacity() == old(self).capacity(),
            match key_index(old(self).entries(), file_hash@) {
                Some(i) => final(self).entries() == old(self).entries().remove(i),
                None => final(self).entries() == old(self).entries(),
            },
    {
        proof {
            let e = lru_entries(self.cache);
            lemma_key_index_some(e, file_hash@);
            match key_index(e, file_hash@) {
                Some(i) => {
                    let r = e.remove(i);
                    assert forall|a: int|
                        0 <= a < r.len() implies #[trigger] r[a] == (if a < i {
                        e[a]
                    } else {
                        e[a + 1]
                    }) by {}
                    assert forall|a: int, b: int|
                        0 <= a < r.len() && 0 <= b < r.len() && a != b implies (#[trigger] r[a]).0
                        != (#[trigger] r[b]).0 by {
                        let ea = if a < i {
                            a
                        } else {
                            a + 1
                        };
                        let eb = if b < i {
                            b
                        } else {
                            b + 1
                        };
                        assert(r[a] == e[ea]);
                        assert(r[b] == e[eb]);
                    }
                },
                None => {},
            }
        }
        let _ = lru_pop(&mut self.cache, file_hash);
    }

    /// Drop every buffer.
    pub fn clear(&mut self)
        requires
            old(self).wf(),
        ensures
            final(self).wf(),
            final(self).entries() == Seq::<(Seq<char>, PcmBuffer)>::empty(),
            final(self).capacity() == old(self).capacity(),
    {
        lru_clear(&mut self.cache);
    }

    /// Number of buffers stored.
    pub fn len(&self) -> (n: usize)
        requires
            self.wf(),
        ensures
            n == self.entries().len(),
            n <= self.capacity(),
    {
        lru_len(&self.cache)
    }

    /// Whether no buffer is stored.
    pub fn is_empty(&self) -> (b: bool)
        requires
            self.wf(),
        ensures
            b == (self.entries().len() == 0),
    {
        self.len() == 0
    }
}

} // verus!
