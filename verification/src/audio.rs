//! Decoded audio kept for replay: a cache bounded by the bytes its samples
//! take, which lets the least recently played entries go first.

use std::sync::Arc;

use vstd::prelude::*;

verus! {

/// Decoded samples, interleaved.
#[derive(Debug, PartialEq, Eq)]
pub struct DecodedPcm {
    pub samples: Vec<i16>,
    pub channels: u16,
    pub sample_rate: u32,
}

/// The bytes `pcm`'s samples take.
pub open spec fn pcm_size(pcm: DecodedPcm) -> nat {
    pcm.samples@.len() * 2
}

/// `Arc::clone`: another handle on the same allocation. An `Arc` is taken
/// here as the value it holds, so the contract claims the handle holds that
/// same value.
#[verifier::external_body]
fn share(pcm: &Arc<DecodedPcm>) -> (out: Arc<DecodedPcm>)
    ensures
        out == *pcm,
{
    Arc::clone(pcm)
}

/// A key a cache can tell apart from another and copy.
pub trait CacheKey: Sized {
    type KeyView;

    spec fn key_of(&self) -> Self::KeyView;

    fn same_key(&self, other: &Self) -> (out: bool)
        ensures
            out == (self.key_of() == other.key_of()),
    ;

    fn copy_key(&self) -> (out: Self)
        ensures
            out.key_of() == self.key_of(),
    ;
}

impl CacheKey for (usize, usize) {
    type KeyView = (usize, usize);

    open spec fn key_of(&self) -> (usize, usize) {
        *self
    }

    fn same_key(&self, other: &Self) -> (out: bool) {
        self.0 == other.0 && self.1 == other.1
    }

    fn copy_key(&self) -> (out: Self) {
        (self.0, self.1)
    }
}

impl CacheKey for u32 {
    type KeyView = u32;

    open spec fn key_of(&self) -> u32 {
        *self
    }

    fn same_key(&self, other: &Self) -> (out: bool) {
        *self == *other
    }

    fn copy_key(&self) -> (out: Self) {
        *self
    }
}

impl CacheKey for String {
    type KeyView = Seq<char>;

    open spec fn key_of(&self) -> Seq<char> {
        self@
    }

    fn same_key(&self, other: &Self) -> (out: bool) {
        *self == *other
    }

    fn copy_key(&self) -> (out: Self) {
        self.clone()
    }
}

/// The default budget of one cache: 128 MiB of samples.
pub const PCM_CACHE_BUDGET: usize = 134_217_728;

/// Decoded audio kept for replay, bounded by size. `entries` runs from the
/// least to the most recently played.
pub struct PcmCache<K> {
    pub entries: Vec<(K, Arc<DecodedPcm>)>,
    pub bytes: usize,
    pub budget: usize,
}

impl<K> Default for PcmCache<K> {
    fn default() -> (out: Self)
        ensures
            out.entries@.len() == 0,
            out.bytes == 0,
            out.budget == PCM_CACHE_BUDGET,
    {
        PcmCache { entries: Vec::new(), bytes: 0, budget: PCM_CACHE_BUDGET }
    }
}

/// The bytes all of `entries` take.
pub open spec fn total<K>(entries: Seq<(K, Arc<DecodedPcm>)>) -> nat
    decreases entries.len(),
{
    if entries.len() == 0 {
        0
    } else {
        total(entries.drop_last()) + pcm_size(*entries.last().1)
    }
}

/// Where `key` is in `entries`.
pub open spec fn position_of<K: CacheKey>(entries: Seq<(K, Arc<DecodedPcm>)>, key: K::KeyView) -> Option<
    int,
> {
    if exists|i: int| 0 <= i < entries.len() && (#[trigger] entries[i]).0.key_of() == key {
        Some(choose|i: int| 0 <= i < entries.len() && (#[trigger] entries[i]).0.key_of() == key)
    } else {
        None
    }
}

pub open spec fn keys_distinct<K: CacheKey>(entries: Seq<(K, Arc<DecodedPcm>)>) -> bool {
    forall|i: int, j: int|
        0 <= i < entries.len() && 0 <= j < entries.len() && i != j ==> (#[trigger] entries[i]).0.key_of()
            != (#[trigger] entries[j]).0.key_of()
}

/// `entries` with the least recently played dropped while they are over
/// `budget`, keeping at least the newest.
pub open spec fn evicted<K>(entries: Seq<(K, Arc<DecodedPcm>)>, budget: nat) -> Seq<
    (K, Arc<DecodedPcm>),
>
    decreases entries.len(),
{
    if total(entries) > budget && entries.len() > 1 {
        evicted(entries.drop_first(), budget)
    } else {
        entries
    }
}

proof fn lemma_total_drop_first<K>(entries: Seq<(K, Arc<DecodedPcm>)>)
    requires
        entries.len() > 0,
    ensures
        total(entries) == total(entries.drop_first()) + pcm_size(*entries[0].1),
    decreases entries.len(),
{
    if entries.len() > 1 {
        lemma_total_drop_first(entries.drop_last());
        assert(entries.drop_last().drop_first() =~= entries.drop_first().drop_last());
        assert(entries.drop_first().last() == entries.last());
        assert(entries.drop_last()[0] == entries[0]);
        assert(total(entries.drop_first()) == total(entries.drop_first().drop_last()) + pcm_size(
            *entries.drop_first().last().1,
        ));
        assert(total(entries) == total(entries.drop_last()) + pcm_size(*entries.last().1));
    } else {
        assert(entries.drop_first().len() == 0);
        assert(entries.drop_last().len() == 0);
        assert(total(entries.drop_first()) == 0);
        assert(total(entries.drop_last()) == 0);
        assert(entries.last() == entries[0]);
        assert(total(entries) == total(entries.drop_last()) + pcm_size(*entries.last().1));
    }
}

proof fn lemma_total_remove<K>(entries: Seq<(K, Arc<DecodedPcm>)>, i: int)
    requires
        0 <= i < entries.len(),
    ensures
        total(entries) == total(entries.remove(i)) + pcm_size(*entries[i].1),
    decreases entries.len(),
{
    if i == entries.len() - 1 {
        assert(entries.remove(i) =~= entries.drop_last());
    } else {
        lemma_total_remove(entries.drop_last(), i);
        assert(entries.remove(i).drop_last() =~= entries.drop_last().remove(i));
        assert(entries.remove(i).last() == entries.last());
    }
}

proof fn lemma_distinct_remove<K: CacheKey>(entries: Seq<(K, Arc<DecodedPcm>)>, i: int)
    requires
        0 <= i < entries.len(),
        keys_distinct(entries),
    ensures
        keys_distinct(entries.remove(i)),
        forall|j: int|
            0 <= j < entries.remove(i).len() ==> (#[trigger] entries.remove(i)[j]).0.key_of()
                != entries[i].0.key_of(),
{
    let r = entries.remove(i);
    assert forall|a: int, b: int|
        0 <= a < r.len() && 0 <= b < r.len() && a != b implies (#[trigger] r[a]).0.key_of() != (
        #[trigger] r[b]).0.key_of() by {
        let a0 = if a < i { a } else { a + 1 };
        let b0 = if b < i { b } else { b + 1 };
        assert(r[a] == entries[a0]);
        assert(r[b] == entries[b0]);
    }
    assert forall|j: int| 0 <= j < r.len() implies (#[trigger] r[j]).0.key_of() != entries[i].0.key_of() by {
        let j0 = if j < i { j } else { j + 1 };
        assert(r[j] == entries[j0]);
    }
}

proof fn lemma_evicted_distinct<K: CacheKey>(entries: Seq<(K, Arc<DecodedPcm>)>, budget: nat)
    requires
        keys_distinct(entries),
    ensures
        keys_distinct(evicted(entries, budget)),
    decreases entries.len(),
{
    if total(entries) > budget && entries.len() > 1 {
        let rest = entries.drop_first();
        assert forall|a: int, b: int|
            0 <= a < rest.len() && 0 <= b < rest.len() && a != b implies (#[trigger] rest[a]).0.key_of()
            != (#[trigger] rest[b]).0.key_of() by {
            assert(rest[a] == entries[a + 1]);
            assert(rest[b] == entries[b + 1]);
        }
        lemma_evicted_distinct(rest, budget);
    }
}

impl<K: CacheKey> PcmCache<K> {
    /// The entries are keyed apart and `bytes` is what they take.
    pub open spec fn well_formed(&self) -> bool {
        &&& keys_distinct(self.entries@)
        &&& self.bytes == total(self.entries@)
    }

    fn find(&self, key: &K) -> (out: Option<usize>)
        requires
            self.well_formed(),
        ensures
            match position_of(self.entries@, key.key_of()) {
                Some(i) => out matches Some(x) && x == i && 0 <= i < self.entries@.len(),
                None => out is None,
            },
    {
        let mut i: usize = 0;
        while i < self.entries.len()
            invariant
                i <= self.entries.len(),
                self.well_formed(),
                forall|j: int| 0 <= j < i ==> (#[trigger] self.entries@[j]).0.key_of() != key.key_of(),
            decreases self.entries.len() - i,
        {
            if self.entries[i].0.same_key(key) {
                let ghost p = choose|p: int|
                    0 <= p < self.entries@.len() && (#[trigger] self.entries@[p]).0.key_of()
                        == key.key_of();
                assert(p == i as int);
                return Some(i);
            }
            i += 1;
        }
        None
    }

    /// The decoded audio for `key`, which becomes the most recently played.
    pub fn get(&mut self, key: &K) -> (out: Option<Arc<DecodedPcm>>)
        requires
            old(self).well_formed(),
        ensures
            final(self).well_formed(),
            final(self).budget == old(self).budget,
            match position_of(old(self).entries@, key.key_of()) {
                Some(i) => out == Some(old(self).entries@[i].1) && final(self).entries@ == old(
                    self,
                ).entries@.remove(i).push(old(self).entries@[i]),
                None => out is None && final(self).entries@ == old(self).entries@,
            },
    {
        match self.find(key) {
            None => None,
            Some(i) => {
                let ghost before = self.entries@;
                let entry = self.entries.remove(i);
                let pcm = share(&entry.1);
                self.entries.push(entry);
                proof {
                    lemma_total_remove(before, i as int);
                    lemma_distinct_remove(before, i as int);
                    let r = before.remove(i as int);
                    assert(self.entries@ == r.push(before[i as int]));
                    assert(self.entries@.drop_last() =~= r);
                    assert forall|a: int, b: int|
                        0 <= a < self.entries@.len() && 0 <= b < self.entries@.len() && a != b implies (
                        #[trigger] self.entries@[a]).0.key_of() != (
                        #[trigger] self.entries@[b]).0.key_of() by {
                        if a < r.len() && b < r.len() {
                            assert(self.entries@[a] == r[a]);
                            assert(self.entries@[b] == r[b]);
                        } else if a < r.len() {
                            assert(self.entries@[a] == r[a]);
                        } else if b < r.len() {
                            assert(self.entries@[b] == r[b]);
                        }
                    }
                }
                Some(pcm)
            },
        }
    }

    /// Keep `pcm` under `key`, replacing what was there, as the most recently
    /// played; then let the least recently played go while over budget. The
    /// newest entry stays even when it alone is over budget: it is the one
    /// about to be replayed.
    pub fn insert(&mut self, key: K, pcm: Arc<DecodedPcm>)
        requires
            old(self).well_formed(),
            old(self).bytes + pcm_size(*pcm) <= usize::MAX,
        ensures
            final(self).well_formed(),
            final(self).budget == old(self).budget,
            final(self).entries@ == evicted(
                match position_of(old(self).entries@, key.key_of()) {
                    Some(i) => old(self).entries@.remove(i),
                    None => old(self).entries@,
                }.push((key, pcm)),
                old(self).budget as nat,
            ),
    {
        let ghost before = self.entries@;
        let ghost removed = match position_of(before, key.key_of()) {
            Some(i) => before.remove(i),
            None => before,
        };
        match self.find(&key) {
            Some(i) => {
                let old_entry = self.entries.remove(i);
                proof {
                    lemma_total_remove(before, i as int);
                    lemma_distinct_remove(before, i as int);
                    assert(removed == before.remove(i as int));
                }
                self.bytes = self.bytes - old_entry.1.samples.len() * 2;
            },
            None => {
                assert(removed == before);
                assert forall|j: int| 0 <= j < removed.len() implies (#[trigger] removed[j]).0.key_of()
                    != key.key_of() by {
                    if removed[j].0.key_of() == key.key_of() {
                        assert(position_of(before, key.key_of()) is Some);
                    }
                }
            },
        }
        assert(self.entries@ == removed);
        assert(forall|j: int| 0 <= j < removed.len() ==> (#[trigger] removed[j]).0.key_of() != key.key_of());
        let size = pcm.samples.len() * 2;
        let ghost new_entry = (key, pcm);
        self.entries.push((key, pcm));
        self.bytes = self.bytes + size;
        proof {
            let s = removed.push(new_entry);
            assert(s.drop_last() =~= removed);
            assert forall|a: int, b: int|
                0 <= a < s.len() && 0 <= b < s.len() && a != b implies (#[trigger] s[a]).0.key_of() != (
                #[trigger] s[b]).0.key_of() by {
                if a < removed.len() && b < removed.len() {
                    assert(s[a] == removed[a]);
                    assert(s[b] == removed[b]);
                } else if a < removed.len() {
                    assert(s[a] == removed[a]);
                } else if b < removed.len() {
                    assert(s[b] == removed[b]);
                }
            }
        }
        let ghost pushed = self.entries@;
        assert(pushed == removed.push(new_entry));
        while self.bytes > self.budget && self.entries.len() > 1
            invariant
                self.budget == old(self).budget,
                self.bytes == total(self.entries@),
                keys_distinct(self.entries@),
                evicted(self.entries@, self.budget as nat) == evicted(pushed, self.budget as nat),
            decreases self.entries.len(),
        {
            let ghost current = self.entries@;
            let gone = self.entries.remove(0);
            proof {
                lemma_total_drop_first(current);
                assert(current.remove(0) =~= current.drop_first());
                lemma_distinct_remove(current, 0);
            }
            self.bytes = self.bytes - gone.1.samples.len() * 2;
        }
        assert(evicted(self.entries@, self.budget as nat) == self.entries@);
    }

    pub fn clear(&mut self)
        ensures
            final(self).entries@.len() == 0,
            final(self).bytes == 0,
            final(self).budget == old(self).budget,
    {
        self.entries.clear();
        self.bytes = 0;
    }
}

// ---------------------------------------------------------------------------
// Finished decodes
// ---------------------------------------------------------------------------

/// Where a finished decode belongs in the caches, stamped with the bank
/// generation it was decoded against.
pub enum PcmKey {
    Bank { generation: u64, bank: usize, sub: usize },
    Event { generation: u64, name: String },
}

/// A worker's report.
pub enum AudioDone {
    Decoded {
        request: u64,
        cache: Option<PcmKey>,
        label: String,
        result: Result<Arc<DecodedPcm>, String>,
    },
    Extracted(String),
}

/// What the audition state decides on, as plain values: the two caches, the
/// bank generations that make a cache key meaningful, the playback most
/// recently asked for, the jobs still out, and the status line.
pub struct AudioState {
    pub cache: PcmCache<(usize, usize)>,
    pub event_cache: PcmCache<String>,
    /// Bumped whenever the sound banks reopen.
    pub banks_generation: u64,
    /// Bumped whenever the Wwise index changes.
    pub wwise_generation: u64,
    pub play_request: u64,
    pub running: usize,
    pub status: Option<String>,
}

impl Default for AudioState {
    fn default() -> (out: Self)
        ensures
            out.well_formed(),
            out.cache.entries@.len() == 0,
            out.event_cache.entries@.len() == 0,
            out.banks_generation == 0,
            out.wwise_generation == 0,
            out.play_request == 0,
            out.running == 0,
            out.status is None,
    {
        AudioState {
            cache: PcmCache::default(),
            event_cache: PcmCache::default(),
            banks_generation: 0,
            wwise_generation: 0,
            play_request: 0,
            running: 0,
            status: None,
        }
    }
}

impl AudioState {
    pub open spec fn well_formed(&self) -> bool {
        self.cache.well_formed() && self.event_cache.well_formed()
    }

    /// Take one worker's report. A failed decode says so only when it is the
    /// playback still wanted. A decode is cached when its bank generation is
    /// still current, and played (returned, with its label) only when it is
    /// the playback most recently asked for: the user may have moved on.
    pub fn apply_job(&mut self, done: AudioDone) -> (out: Option<(Arc<DecodedPcm>, String)>)
        requires
            old(self).well_formed(),
            done matches AudioDone::Decoded { result: Ok(pcm), .. } ==> old(self).cache.bytes
                + pcm_size(*pcm) <= usize::MAX && old(self).event_cache.bytes + pcm_size(*pcm)
                <= usize::MAX,
        ensures
            final(self).well_formed(),
            final(self).running == if old(self).running > 0 {
                old(self).running - 1
            } else {
                0
            },
            final(self).play_request == old(self).play_request,
            final(self).banks_generation == old(self).banks_generation,
            final(self).wwise_generation == old(self).wwise_generation,
            match done {
                AudioDone::Extracted(status) => out is None && final(self).status == Some(status)
                    && final(self).cache == old(self).cache && final(self).event_cache == old(
                    self,
                ).event_cache,
                AudioDone::Decoded { request, cache, label, result } => match result {
                    Err(error) => out is None && final(self).cache == old(self).cache
                        && final(self).event_cache == old(self).event_cache && (if request
                        == old(self).play_request {
                        final(self).status matches Some(s) && s@ == "decode failed: "@ + error@
                    } else {
                        final(self).status == old(self).status
                    }),
                    Ok(pcm) => {
                        &&& final(self).status == old(self).status
                        &&& out == if request == old(self).play_request {
                            Some((pcm, label))
                        } else {
                            None
                        }
                        &&& match cache {
                            Some(PcmKey::Bank { generation, bank, sub }) => if generation
                                == old(self).banks_generation {
                                final(self).cache.entries@ == evicted(
                                    match position_of(old(self).cache.entries@, (bank, sub)) {
                                        Some(i) => old(self).cache.entries@.remove(i),
                                        None => old(self).cache.entries@,
                                    }.push(((bank, sub), pcm)),
                                    old(self).cache.budget as nat,
                                ) && final(self).event_cache == old(self).event_cache
                            } else {
                                final(self).cache == old(self).cache && final(self).event_cache
                                    == old(self).event_cache
                            },
                            Some(PcmKey::Event { generation, name }) => if generation
                                == old(self).wwise_generation {
                                final(self).event_cache.entries@ == evicted(
                                    match position_of(old(self).event_cache.entries@, name@) {
                                        Some(i) => old(self).event_cache.entries@.remove(i),
                                        None => old(self).event_cache.entries@,
                                    }.push((name, pcm)),
                                    old(self).event_cache.budget as nat,
                                ) && final(self).cache == old(self).cache
                            } else {
                                final(self).cache == old(self).cache && final(self).event_cache
                                    == old(self).event_cache
                            },
                            None => final(self).cache == old(self).cache && final(self).event_cache
                                == old(self).event_cache,
                        }
                    },
                },
            },
    {
        self.running = if self.running > 0 {
            self.running - 1
        } else {
            0
        };
        match done {
            AudioDone::Extracted(status) => {
                self.status = Some(status);
                None
            },
            AudioDone::Decoded { request, cache, label, result } => {
                let pcm = match result {
                    Ok(pcm) => pcm,
                    Err(error) => {
                        if request == self.play_request {
                            let mut text = crate::text::chars_of("decode failed: ");
                            crate::text::push_str(&mut text, error.as_str());
                            self.status = Some(crate::text::string_of(&text));
                        }
                        return None;
                    },
                };
                match cache {
                    Some(PcmKey::Bank { generation, bank, sub }) => {
                        if generation == self.banks_generation {
                            self.cache.insert((bank, sub), share(&pcm));
                        }
                    },
                    Some(PcmKey::Event { generation, name }) => {
                        if generation == self.wwise_generation {
                            self.event_cache.insert(name, share(&pcm));
                        }
                    },
                    None => {},
                }
                if request == self.play_request {
                    Some((pcm, label))
                } else {
                    None
                }
            },
        }
    }

    /// Stop what is playing, and any decode still running for it.
    pub fn stop(&mut self)
        requires
            old(self).play_request < u64::MAX,
        ensures
            final(self).play_request == old(self).play_request + 1,
            final(self).status matches Some(s) && s@ == "stopped"@,
            final(self).cache == old(self).cache,
            final(self).event_cache == old(self).event_cache,
            final(self).running == old(self).running,
    {
        self.play_request = self.play_request + 1;
        self.status = Some(crate::text::string_of(&crate::text::chars_of("stopped")));
    }
}

} // verus!
