//! The block cache: decrypted blocks kept by block number, with the time each
//! was stored and whether it still has to be written back. Reading and writing
//! the device is the caller's part; the cache says which blocks to write.
use std::collections::HashMap;
use vstd::prelude::*;

verus! {

broadcast use vstd::std_specs::hash::group_hash_axioms;

/// How long an entry may stay unused before it expires: 30 seconds, in the
/// nanoseconds the cache's clock counts.
pub const CACHE_TTL_NANOS: u64 = 30_000_000_000;

/// A cached block.
struct CacheEntry {
    data: Vec<u8>,
    last_access: u64,
    dirty: bool,
}

/// A cached block as the cache's contracts see it.
pub struct CachedBlock {
    pub data: Seq<u8>,
    /// When the block was stored, on the cache's clock.
    pub last_access: u64,
    /// Whether the block differs from what the device holds.
    pub dirty: bool,
}

/// The view of a cache entry.
spec fn entry_view(e: CacheEntry) -> CachedBlock {
    CachedBlock { data: e.data@, last_access: e.last_access, dirty: e.dirty }
}

/// The most entries a cache holds: its size limit, and at least one.
pub open spec fn capacity_of(max_size: usize) -> nat {
    if max_size == 0 {
        1
    } else {
        max_size as nat
    }
}

/// `victim` is an entry stored no later than any other.
pub open spec fn is_oldest(m: Map<u64, CachedBlock>, victim: u64) -> bool {
    &&& m.contains_key(victim)
    &&& forall|k: u64| #[trigger] m.contains_key(k) ==> m[victim].last_access <= m[k].last_access
}

/// Whether storing a new block under `block` makes room first: the cache is full
/// and does not hold that block yet.
pub open spec fn needs_eviction(m: Map<u64, CachedBlock>, max_size: usize, block: u64) -> bool {
    m.len() >= max_size && !m.contains_key(block) && m.len() > 0
}

/// The write-back an eviction asks for: the victim's number and data when it is
/// dirty.
pub open spec fn write_back_of(m: Map<u64, CachedBlock>, victim: u64) -> Option<(u64, Seq<u8>)> {
    if m[victim].dirty {
        Some((victim, m[victim].data))
    } else {
        None
    }
}

/// `after` is `before` with `entry` stored under `block`, after evicting the
/// oldest entry when the cache is full; `write_back` is what the eviction asks
/// to write.
pub open spec fn stored(
    before: Map<u64, CachedBlock>,
    after: Map<u64, CachedBlock>,
    max_size: usize,
    block: u64,
    entry: CachedBlock,
    write_back: Option<(u64, Seq<u8>)>,
) -> bool {
    if needs_eviction(before, max_size, block) {
        exists|victim: u64|
            #[trigger] is_oldest(before, victim) && after == before.remove(victim).insert(block, entry)
                && write_back == write_back_of(before, victim)
    } else {
        after == before.insert(block, entry) && write_back is None
    }
}

/// The blocks of `m` that have to be written back.
pub open spec fn is_dirty_in(m: Map<u64, CachedBlock>) -> spec_fn(u64) -> bool {
    |k: u64| m.contains_key(k) && m[k].dirty
}

/// The blocks of `m` that have expired at `now`.
pub open spec fn is_expired_in(m: Map<u64, CachedBlock>, now: u64, ttl: u64) -> spec_fn(u64) -> bool {
    |k: u64| m.contains_key(k) && expired(m[k].last_access, now, ttl)
}

/// Whether an entry stored at `stored_at` has expired at `now`: more than the
/// time-to-live has passed (no time passes when the clock reads earlier).
pub open spec fn expired(stored_at: u64, now: u64, ttl: u64) -> bool {
    now > stored_at && now - stored_at > ttl
}

/// A cache of decrypted blocks with a size limit and a time-to-live.
pub struct BlockCache {
    cache: HashMap<u64, CacheEntry>,
    max_size: usize,
    ttl: u64,
}

impl View for BlockCache {
    type V = Map<u64, CachedBlock>;

    closed spec fn view(&self) -> Map<u64, CachedBlock> {
        self.cache@.map_values(|e: CacheEntry| entry_view(e))
    }
}

impl BlockCache {
    /// The size limit.
    pub closed spec fn max_entries(&self) -> usize {
        self.max_size
    }

    /// The time-to-live, in nanoseconds.
    pub closed spec fn time_to_live(&self) -> u64 {
        self.ttl
    }

    /// The cache's invariant: it holds at most its capacity.
    pub open spec fn wf(&self) -> bool {
        self@.len() <= capacity_of(self.max_entries()) && self@.dom().finite()
    }

    /// An empty cache of at most `max_size` blocks whose entries live 30 seconds.
    pub fn new(max_size: usize) -> (c: Self)
        ensures
            c.wf(),
            c@ == Map::<u64, CachedBlock>::empty(),
            c.max_entries() == max_size,
            c.time_to_live() == CACHE_TTL_NANOS,
    {
        let c = BlockCache { cache: HashMap::with_capacity(max_size), max_size, ttl: CACHE_TTL_NANOS };
        assert(c@ =~= Map::<u64, CachedBlock>::empty());
        c
    }

    /// The number of cached blocks.
    pub fn len(&self) -> (n: usize)
        ensures
            n == self@.len(),
    {
        proof {
            assert(self@.dom() =~= self.cache@.dom());
        }
        self.cache.len()
    }

    /// The cached data of a block, if it is cached; a hit counts as a use of
    /// the block at `now`, which keeps it from eviction longer.
    pub fn read(&mut self, block: u64, now: u64) -> (r: Option<Vec<u8>>)
        requires
            old(self).wf(),
        ensures
            final(self).wf(),
            final(self).max_entries() == old(self).max_entries(),
            final(self).time_to_live() == old(self).time_to_live(),
            match r {
                Some(d) => old(self)@.contains_key(block) && d@ == old(self)@[block].data
                    && final(self)@ == old(self)@.insert(
                    block,
                    CachedBlock { last_access: now, ..old(self)@[block] },
                ),
                None => !old(self)@.contains_key(block) && final(self)@ == old(self)@,
            },
    {
        let ghost before = self@;
        match self.cache.remove(&block) {
            Some(e) => {
                let data = e.data.clone();
                self.cache.insert(block, CacheEntry { data: e.data, last_access: now, dirty: e.dirty });
                proof {
                    assert(before.contains_key(block));
                    assert(self@ =~= before.insert(block, CachedBlock { last_access: now, ..before[block] }));
                }
                Some(data)
            },
            None => {
                proof {
                    assert(self@ =~= before);
                }
                None
            },
        }
    }

    /// The cached data of a block that still has to be written back, if any.
    pub fn dirty_data(&self, block: u64) -> (r: Option<Vec<u8>>)
        ensures
            match r {
                Some(d) => self@.contains_key(block) && self@[block].dirty && d@ == self@[block].data,
                None => !self@.contains_key(block) || !self@[block].dirty,
            },
    {
        match self.cache.get(&block) {
            Some(entry) => if entry.dirty {
                Some(entry.data.clone())
            } else {
                None
            },
            None => None,
        }
    }

    /// The numbers of all cached blocks, each once.
    fn keys(&self) -> (ks: Vec<u64>)
        ensures
            ks@.to_set() == self@.dom(),
            ks@.no_duplicates(),
    {
        let mut ks: Vec<u64> = Vec::new();
        for k in it: self.cache.keys()
            invariant
                ks@.len() == it.index(),
                forall|i: int| 0 <= i < it.index() ==> ks@[i] == *it.seq()[i],
                it.seq().unref().to_set() == self.cache@.dom(),
                it.seq().unref().no_duplicates(),
                ks@ == it.seq().unref().take(it.index()),
            ensures
                ks@.to_set() == self.cache@.dom(),
                ks@.no_duplicates(),
        {
            ks.push(*k);
        }
        assert(self@.dom() =~= self.cache@.dom());
        ks
    }

    /// Stores a block, first evicting the oldest entry when the cache is full and
    /// does not hold the block yet. Returns the evicted block's number and data
    /// when it still has to be written back.
    pub fn insert(&mut self, block: u64, data: Vec<u8>, dirty: bool, now: u64) -> (write_back: Option<
        (u64, Vec<u8>),
    >)
        requires
            old(self).wf(),
        ensures
            final(self).wf(),
            final(self).max_entries() == old(self).max_entries(),
            final(self).time_to_live() == old(self).time_to_live(),
            stored(
                old(self)@,
                final(self)@,
                old(self).max_entries(),
                block,
                CachedBlock { data: data@, last_access: now, dirty },
                match write_back {
                    Some(w) => Some((w.0, w.1@)),
                    None => None,
                },
            ),
    {
        let ghost before = self@;
        let ghost entry = CachedBlock { data: data@, last_access: now, dirty };
        let ghost mut evicted: u64 = 0;
        let mut write_back: Option<(u64, Vec<u8>)> = None;
        let n = self.len();
        let present = self.cache.contains_key(&block);
        assert(present == before.contains_key(block));
        if n >= self.max_size && !present && n > 0 {
            let victim = self.oldest();
            let old_entry = self.cache.remove(&victim);
            match old_entry {
                Some(e) => {
                    if e.dirty {
                        write_back = Some((victim, e.data));
                    }
                },
                None => {},
            }
            proof {
                evicted = victim;
                assert(self@ =~= before.remove(victim));
                before.lemma_remove_key_len(victim);
            }
        }
        let ghost mid = self@;
        self.cache.insert(block, CacheEntry { data, last_access: now, dirty });
        proof {
            assert(self@ =~= mid.insert(block, entry));
            if needs_eviction(before, self.max_size, block) {
                assert(is_oldest(before, evicted));
                assert(self@ == before.remove(evicted).insert(block, entry));
            }
        }
        write_back
    }

    /// The block stored no later than any other; the cache must not be empty.
    fn oldest(&self) -> (victim: u64)
        requires
            self@.len() > 0,
            self@.dom().finite(),
        ensures
            is_oldest(self@, victim),
    {
        let ks = self.keys();
        proof {
            if ks@.len() == 0 {
                assert(ks@.to_set() =~= Set::<u64>::empty());
            }
        }
        let mut best = ks[0];
        let mut best_time = match self.cache.get(&best) {
            Some(e) => e.last_access,
            None => 0,
        };
        let mut i: usize = 1;
        while i < ks.len()
            invariant
                1 <= i <= ks@.len(),
                ks@.to_set() == self@.dom(),
                self@.contains_key(best),
                best_time == self@[best].last_access,
                forall|j: int| 0 <= j < i ==> self@[best].last_access <= #[trigger] self@[ks@[j]].last_access,
            decreases ks@.len() - i,
        {
            let k = ks[i];
            assert(ks@.to_set().contains(k));
            let t = match self.cache.get(&k) {
                Some(e) => e.last_access,
                None => 0,
            };
            if t < best_time {
                best = k;
                best_time = t;
            }
            i = i + 1;
        }
        proof {
            assert forall|k: u64| #[trigger] self@.contains_key(k) implies self@[best].last_access
                <= self@[k].last_access by {
                assert(ks@.to_set().contains(k));
                let j = ks@.index_of(k);
            }
        }
        best
    }

    /// Stores a block that has to be written back later.
    pub fn write(&mut self, block: u64, data: Vec<u8>, now: u64) -> (write_back: Option<(u64, Vec<u8>)>)
        requires
            old(self).wf(),
        ensures
            final(self).wf(),
            final(self).max_entries() == old(self).max_entries(),
            final(self).time_to_live() == old(self).time_to_live(),
            stored(
                old(self)@,
                final(self)@,
                old(self).max_entries(),
                block,
                CachedBlock { data: data@, last_access: now, dirty: true },
                match write_back {
                    Some(w) => Some((w.0, w.1@)),
                    None => None,
                },
            ),
    {
        self.insert(block, data, true, now)
    }

    /// The numbers of the blocks that have to be written back, each once.
    pub fn dirty_blocks(&self) -> (ks: Vec<u64>)
        ensures
            forall|k: u64| ks@.contains(k) <==> self@.contains_key(k) && self@[k].dirty,
            ks@.no_duplicates(),
    {
        let ghost pred = is_dirty_in(self@);
        let all = self.keys();
        let mut ks: Vec<u64> = Vec::new();
        let mut i: usize = 0;
        while i < all.len()
            invariant
                0 <= i <= all@.len(),
                all@.to_set() == self@.dom(),
                all@.no_duplicates(),
                ks@.no_duplicates(),
                ks@ == all@.take(i as int).filter(pred),
                pred == is_dirty_in(self@),
            decreases all@.len() - i,
        {
            let k = all[i];
            assert(all@.to_set().contains(k));
            proof {
                all@.lemma_take_succ_push(i as int);
                all@.take(i as int).lemma_filter_push(k, pred);
            }
            let dirty = match self.cache.get(&k) {
                Some(e) => e.dirty,
                None => false,
            };
            assert(self@[k] == entry_view(self.cache@[k]));
            assert(pred(k) == dirty);
            if dirty {
                proof {
                    lemma_not_yet_selected(all@, i as int, pred);
                }
                ks.push(k);
            }
            i = i + 1;
        }
        proof {
            lemma_selected_all(all@, pred, self@.dom());
        }
        ks
    }

    /// Marks a block as written back; its data and time stay.
    pub fn mark_clean(&mut self, block: u64)
        requires
            old(self).wf(),
        ensures
            final(self).wf(),
            final(self).max_entries() == old(self).max_entries(),
            final(self).time_to_live() == old(self).time_to_live(),
            old(self)@.contains_key(block) ==> final(self)@ == old(self)@.insert(
                block,
                CachedBlock { dirty: false, ..old(self)@[block] },
            ),
            !old(self)@.contains_key(block) ==> final(self)@ == old(self)@,
    {
        let ghost before = self@;
        match self.cache.remove(&block) {
            Some(e) => {
                self.cache.insert(block, CacheEntry { data: e.data, last_access: e.last_access, dirty: false });
                proof {
                    assert(self@ =~= before.insert(block, CachedBlock { dirty: false, ..before[block] }));
                    assert(before.contains_key(block));
                }
            },
            None => {
                proof {
                    assert(self@ =~= before);
                }
            },
        }
    }

    /// Drops a block from the cache.
    pub fn remove(&mut self, block: u64)
        requires
            old(self).wf(),
        ensures
            final(self).wf(),
            final(self).max_entries() == old(self).max_entries(),
            final(self).time_to_live() == old(self).time_to_live(),
            final(self)@ == old(self)@.remove(block),
    {
        let ghost before = self@;
        let _ = self.cache.remove(&block);
        proof {
            assert(self@ =~= before.remove(block));
            if before.contains_key(block) {
                before.lemma_remove_key_len(block);
            }
        }
    }

    /// Drops every block.
    pub fn clear(&mut self)
        ensures
            final(self).wf(),
            final(self).max_entries() == old(self).max_entries(),
            final(self).time_to_live() == old(self).time_to_live(),
            final(self)@ == Map::<u64, CachedBlock>::empty(),
    {
        self.cache.clear();
        assert(self@ =~= Map::<u64, CachedBlock>::empty());
    }

    /// The numbers of the blocks that have expired at `now`, each once.
    pub fn expired_blocks(&self, now: u64) -> (ks: Vec<u64>)
        ensures
            forall|k: u64|
                ks@.contains(k) <==> self@.contains_key(k) && expired(
                    self@[k].last_access,
                    now,
                    self.time_to_live(),
                ),
            ks@.no_duplicates(),
    {
        let ghost pred = is_expired_in(self@, now, self.time_to_live());
        let all = self.keys();
        let mut ks: Vec<u64> = Vec::new();
        let mut i: usize = 0;
        while i < all.len()
            invariant
                0 <= i <= all@.len(),
                all@.to_set() == self@.dom(),
                all@.no_duplicates(),
                ks@.no_duplicates(),
                ks@ == all@.take(i as int).filter(pred),
                pred == is_expired_in(self@, now, self.time_to_live()),
            decreases all@.len() - i,
        {
            let k = all[i];
            assert(all@.to_set().contains(k));
            proof {
                all@.lemma_take_succ_push(i as int);
                all@.take(i as int).lemma_filter_push(k, pred);
            }
            let stale = match self.cache.get(&k) {
                Some(e) => now > e.last_access && now - e.last_access > self.ttl,
                None => false,
            };
            assert(self@[k] == entry_view(self.cache@[k]));
            assert(pred(k) == stale);
            if stale {
                proof {
                    lemma_not_yet_selected(all@, i as int, pred);
                }
                ks.push(k);
            }
            i = i + 1;
        }
        proof {
            lemma_selected_all(all@, pred, self@.dom());
        }
        ks
    }
}

/// A stored block is then cached with what was stored, whatever the store
/// evicted: a read after a write gives back what was written.
pub proof fn lemma_read_after_store(
    before: Map<u64, CachedBlock>,
    after: Map<u64, CachedBlock>,
    max_size: usize,
    block: u64,
    entry: CachedBlock,
    write_back: Option<(u64, Seq<u8>)>,
)
    requires
        stored(before, after, max_size, block, entry, write_back),
    ensures
        after.contains_key(block),
        after[block] == entry,
{
    if needs_eviction(before, max_size, block) {
        let victim = choose|victim: u64|
            #[trigger] is_oldest(before, victim) && after == before.remove(victim).insert(block, entry)
                && write_back == write_back_of(before, victim);
    }
}

/// A store loses no data that still had to be written: every other block that
/// was dirty is either still cached unchanged, or is the write-back the store
/// hands out.
pub proof fn lemma_store_keeps_dirty(
    before: Map<u64, CachedBlock>,
    after: Map<u64, CachedBlock>,
    max_size: usize,
    block: u64,
    entry: CachedBlock,
    write_back: Option<(u64, Seq<u8>)>,
    other: u64,
)
    requires
        stored(before, after, max_size, block, entry, write_back),
        before.contains_key(other),
        before[other].dirty,
        other != block,
    ensures
        (after.contains_key(other) && after[other] == before[other]) || write_back == Some(
            (other, before[other].data),
        ),
{
    if needs_eviction(before, max_size, block) {
        let victim = choose|victim: u64|
            #[trigger] is_oldest(before, victim) && after == before.remove(victim).insert(block, entry)
                && write_back == write_back_of(before, victim);
        if victim != other {
            assert(after.contains_key(other));
        }
    }
}

/// A store leaves every block other than the stored one and the evicted one as
/// it was, and evicts only when the cache is full and does not hold the block.
pub proof fn lemma_store_frame(
    before: Map<u64, CachedBlock>,
    after: Map<u64, CachedBlock>,
    max_size: usize,
    block: u64,
    entry: CachedBlock,
    write_back: Option<(u64, Seq<u8>)>,
)
    requires
        stored(before, after, max_size, block, entry, write_back),
    ensures
        !needs_eviction(before, max_size, block) ==> after == before.insert(block, entry),
        forall|k: u64|
            k != block && #[trigger] after.contains_key(k) ==> before.contains_key(k) && after[k]
                == before[k],
{
}

/// Storing a new block in a full cache evicts a least recently used block: one
/// no entry was used before, which leaves the cache; the cache keeps its size,
/// and the write-back is that block's data exactly when it was dirty.
pub proof fn lemma_eviction_is_lru(
    before: Map<u64, CachedBlock>,
    after: Map<u64, CachedBlock>,
    max_size: usize,
    block: u64,
    entry: CachedBlock,
    write_back: Option<(u64, Seq<u8>)>,
)
    requires
        stored(before, after, max_size, block, entry, write_back),
        before.dom().finite(),
        before.len() >= max_size,
        before.len() > 0,
        !before.contains_key(block),
    ensures
        after.len() == before.len(),
        after.contains_key(block),
        exists|victim: u64|
            #![trigger before.contains_key(victim), after.contains_key(victim)]
            {
                &&& before.contains_key(victim)
                &&& !after.contains_key(victim)
                &&& forall|k: u64| #[trigger]
                    before.contains_key(k) ==> before[victim].last_access <= before[k].last_access
                &&& forall|k: u64| k != victim && k != block ==> (#[trigger] after.contains_key(k)
                    <==> before.contains_key(k))
                &&& write_back == if before[victim].dirty {
                    Some((victim, before[victim].data))
                } else {
                    None
                }
            },
{
    let victim = choose|victim: u64|
        #[trigger] is_oldest(before, victim) && after == before.remove(victim).insert(block, entry)
            && write_back == write_back_of(before, victim);
    assert(victim != block);
    before.lemma_remove_key_len(victim);
    assert(before.contains_key(victim) && !after.contains_key(victim));
}

/// Storing a block while the cache has room, or replacing a cached block,
/// evicts nothing: every block cached before stays cached, and nothing is
/// handed out to write back.
pub proof fn lemma_store_with_room(
    before: Map<u64, CachedBlock>,
    after: Map<u64, CachedBlock>,
    max_size: usize,
    block: u64,
    entry: CachedBlock,
    write_back: Option<(u64, Seq<u8>)>,
)
    requires
        stored(before, after, max_size, block, entry, write_back),
        before.len() < max_size || before.contains_key(block),
    ensures
        write_back is None,
        forall|k: u64| #[trigger] before.contains_key(k) ==> after.contains_key(k),
        forall|k: u64| k != block && #[trigger] before.contains_key(k) ==> after[k] == before[k],
{
}

/// The element at `i` of a sequence without duplicates is not among those that
/// a filter kept of the elements before it.
proof fn lemma_not_yet_selected(all: Seq<u64>, i: int, pred: spec_fn(u64) -> bool)
    requires
        0 <= i < all.len(),
        all.no_duplicates(),
    ensures
        !all.take(i).filter(pred).contains(all[i]),
{
    if all.take(i).filter(pred).contains(all[i]) {
        all.take(i).lemma_filter_contains_rev(pred, all[i]);
        let j = choose|j: int| 0 <= j < all.take(i).len() && all.take(i)[j] == all[i];
        assert(all[j] == all[i]);
    }
}

/// Filtering a whole sequence that lists a set's elements keeps exactly the
/// elements of the set that satisfy the predicate.
proof fn lemma_selected_all(all: Seq<u64>, pred: spec_fn(u64) -> bool, dom: Set<u64>)
    requires
        all.to_set() == dom,
    ensures
        all.take(all.len() as int) == all,
        forall|k: u64| #[trigger] all.filter(pred).contains(k) <==> dom.contains(k) && pred(k),
{
    assert(all.take(all.len() as int) =~= all);
    assert forall|k: u64| #[trigger] all.filter(pred).contains(k) <==> dom.contains(k) && pred(k) by {
        if all.filter(pred).contains(k) {
            all.lemma_filter_contains_rev(pred, k);
            assert(all.to_set().contains(k));
            let p = choose|p: int| 0 <= p < all.filter(pred).len() && all.filter(pred)[p] == k;
            all.lemma_filter_pred(pred, p);
        }
        if dom.contains(k) && pred(k) {
            assert(all.to_set().contains(k));
            let j = all.index_of(k);
            all.lemma_filter_contains(pred, j);
        }
    }
}

} // verus!
