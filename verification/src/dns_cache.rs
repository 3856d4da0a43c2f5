//! The cache of upstream DNS responses, keyed by query name and record type.

use vstd::prelude::*;

use std::time::Instant;

use crate::clock::{expired_at, instant_now, is_expired_at, nanos_since, secs_as_nanos, secs_to_nanos};
use crate::lru_cache::{inc_wrapping, wrapping_inc};
use crate::text::{chars_of, eq_chars};

verus! {

broadcast use vstd::string::group_string_axioms;

/// Key of a cache entry: the query name and the record type.
#[derive(Debug, Clone, PartialEq, Eq, Hash)]
pub struct CacheKey {
    pub name: String,
    pub record_type: u16,
}

/// A cached response with its times, in nanoseconds of the cache's clock.
#[derive(Debug, Clone)]
pub struct CacheEntry<R> {
    pub response: R,
    pub inserted_at: u64,
    pub ttl: u64,
    pub last_accessed: u64,
}

impl<R> CacheEntry<R> {
    /// Whether the entry has expired at `now`.
    pub fn is_expired(&self, now: u64) -> (r: bool)
        ensures
            r == expired_at(self.inserted_at, self.ttl, now),
    {
        is_expired_at(self.inserted_at, self.ttl, now)
    }
}

#[derive(Debug, Clone, Copy)]
pub struct CacheStats {
    pub hits: u64,
    pub misses: u64,
    pub evictions: u64,
    pub size: usize,
}

impl Default for CacheStats {
    fn default() -> (r: Self)
        ensures
            r.hits == 0 && r.misses == 0 && r.evictions == 0 && r.size == 0,
    {
        CacheStats { hits: 0, misses: 0, evictions: 0, size: 0 }
    }
}

struct DnsSlot<R> {
    name: Vec<char>,
    record_type: u16,
    entry: CacheEntry<R>,
}

/// One cached entry: its key and its entry.
pub type DnsSlotView<R> = ((Seq<char>, u16), CacheEntry<R>);

pub ghost struct DnsCacheModel<R> {
    pub slots: Seq<DnsSlotView<R>>,
    pub max_entries: nat,
    pub stats: CacheStats,
}

spec fn dns_slot_views<R>(v: Seq<DnsSlot<R>>) -> Seq<DnsSlotView<R>> {
    v.map_values(|s: DnsSlot<R>| ((s.name@, s.record_type), s.entry))
}

pub open spec fn key_view(k: CacheKey) -> (Seq<char>, u16) {
    (k.name@, k.record_type)
}

pub open spec fn find_dns_key_from<R>(s: Seq<DnsSlotView<R>>, k: (Seq<char>, u16), i: int) -> int
    decreases s.len() - i,
{
    if i < 0 || i >= s.len() {
        -1
    } else if s[i].0 == k {
        i
    } else {
        find_dns_key_from(s, k, i + 1)
    }
}

pub open spec fn find_dns_key<R>(s: Seq<DnsSlotView<R>>, k: (Seq<char>, u16)) -> int {
    find_dns_key_from(s, k, 0)
}

proof fn lemma_find_dns_key<R>(s: Seq<DnsSlotView<R>>, k: (Seq<char>, u16), i: int)
    requires
        0 <= i,
    ensures
        find_dns_key_from(s, k, i) == -1 || (i <= find_dns_key_from(s, k, i) < s.len()
            && s[find_dns_key_from(s, k, i)].0 == k),
        find_dns_key_from(s, k, i) == -1 ==> forall|j: int| i <= j < s.len() ==> s[j].0 != k,
        forall|j: int| i <= j < find_dns_key_from(s, k, i) ==> s[j].0 != k,
    decreases s.len() - i,
{
    if i < s.len() && s[i].0 != k {
        lemma_find_dns_key(s, k, i + 1);
    }
}

/// The entries not expired at `now`, in order.
pub open spec fn unexpired<R>(s: Seq<DnsSlotView<R>>, now: u64) -> Seq<DnsSlotView<R>>
    decreases s.len(),
{
    if s.len() == 0 {
        seq![]
    } else {
        let rest = unexpired(s.drop_last(), now);
        if expired_at(s.last().1.inserted_at, s.last().1.ttl, now) {
            rest
        } else {
            rest.push(s.last())
        }
    }
}

/// The position of the entry accessed longest ago (the first such one).
pub open spec fn oldest_index<R>(s: Seq<DnsSlotView<R>>) -> int
    decreases s.len(),
{
    if s.len() <= 1 {
        0
    } else {
        let j = oldest_index(s.drop_last());
        if s.last().1.last_accessed < s[j].1.last_accessed {
            s.len() - 1
        } else {
            j
        }
    }
}

/// `s` without its `k` entries accessed longest ago.
pub open spec fn drop_oldest<R>(s: Seq<DnsSlotView<R>>, k: nat) -> Seq<DnsSlotView<R>>
    decreases k,
{
    if k == 0 || s.len() == 0 {
        s
    } else {
        drop_oldest(s.remove(oldest_index(s)), (k - 1) as nat)
    }
}

pub open spec fn add_wrapping(a: u64, b: u64) -> u64 {
    ((a as int + b as int) % 0x1_0000_0000_0000_0000int) as u64
}

/// What `get` does at `now`: a live entry's response is returned (as a
/// clone) and counted as a hit; an expired entry is dropped; a miss and an
/// expired entry count as misses.
pub open spec fn dns_get_step<R: Clone>(
    old: DnsCacheModel<R>,
    new: DnsCacheModel<R>,
    key: (Seq<char>, u16),
    now: u64,
    r: Option<R>,
) -> bool {
    let i = find_dns_key(old.slots, key);
    &&& new.max_entries == old.max_entries
    &&& new.stats.evictions == old.stats.evictions
    &&& new.stats.size == old.stats.size
    &&& if i < 0 {
        &&& r is None
        &&& new.slots == old.slots
        &&& new.stats.hits == old.stats.hits
        &&& new.stats.misses == wrapping_inc(old.stats.misses)
    } else if expired_at(old.slots[i].1.inserted_at, old.slots[i].1.ttl, now) {
        &&& r is None
        &&& new.slots == old.slots.remove(i)
        &&& new.stats.hits == old.stats.hits
        &&& new.stats.misses == wrapping_inc(old.stats.misses)
    } else {
        &&& r matches Some(v) && cloned(old.slots[i].1.response, v)
        &&& new.slots == old.slots
        &&& new.stats.hits == wrapping_inc(old.stats.hits)
        &&& new.stats.misses == old.stats.misses
    }
}

/// What `insert` does at `now`: at capacity, expired entries go first, and
/// if still at capacity a quarter of the capacity goes, oldest first (the
/// eviction count grows by the quarter, whatever was removed); then the
/// entry is stored under its key.
pub open spec fn dns_insert_step<R>(
    old: DnsCacheModel<R>,
    key: (Seq<char>, u16),
    response: R,
    ttl: u64,
    now: u64,
) -> DnsCacheModel<R> {
    let full1 = old.slots.len() >= old.max_entries;
    let s1 = if full1 {
        unexpired(old.slots, now)
    } else {
        old.slots
    };
    let ev1 = if full1 {
        add_wrapping(old.stats.evictions, (old.slots.len() - s1.len()) as u64)
    } else {
        old.stats.evictions
    };
    let full2 = s1.len() >= old.max_entries;
    let target = old.max_entries / 4;
    let s2 = if full2 {
        drop_oldest(s1, target)
    } else {
        s1
    };
    let ev2 = if full2 {
        add_wrapping(ev1, target as u64)
    } else {
        ev1
    };
    let entry = CacheEntry { response, inserted_at: now, ttl, last_accessed: now };
    let i = find_dns_key(s2, key);
    let s3 = if i >= 0 {
        s2.update(i, (key, entry))
    } else {
        s2.push((key, entry))
    };
    DnsCacheModel {
        slots: s3,
        max_entries: old.max_entries,
        stats: CacheStats { evictions: ev2, size: s3.len() as usize, ..old.stats },
    }
}

/// A cache of DNS responses.
pub struct DnsCache<R> {
    slots: Vec<DnsSlot<R>>,
    max_entries: usize,
    stats: CacheStats,
    origin: Instant,
}

impl<R> View for DnsCache<R> {
    type V = DnsCacheModel<R>;

    closed spec fn view(&self) -> DnsCacheModel<R> {
        DnsCacheModel {
            slots: dns_slot_views(self.slots@),
            max_entries: self.max_entries as nat,
            stats: self.stats,
        }
    }
}

impl<R> DnsCache<R> {
    #[verifier::type_invariant]
    spec fn keys_distinct(self) -> bool {
        forall|i: int, j: int|
            0 <= i < j < self.slots@.len() ==> (self.slots@[i].name@, self.slots@[i].record_type)
                != (self.slots@[j].name@, self.slots@[j].record_type)
    }
}

impl<R: Clone> DnsCache<R> {
    /// An empty cache for at most `max_entries` entries.
    pub fn new(max_entries: usize) -> (r: Self)
        ensures
            r@.slots.len() == 0,
            r@.max_entries == max_entries,
            r@.stats.hits == 0 && r@.stats.misses == 0 && r@.stats.evictions == 0
                && r@.stats.size == 0,
    {
        DnsCache {
            slots: Vec::new(),
            max_entries,
            stats: CacheStats::default(),
            origin: instant_now(),
        }
    }

    fn find(&self, name: &Vec<char>, record_type: u16) -> (r: Option<usize>)
        ensures
            match r {
                Some(i) => i < self@.slots.len() && find_dns_key(self@.slots, (name@, record_type))
                    == i,
                None => find_dns_key(self@.slots, (name@, record_type)) == -1,
            },
    {
        let mut i: usize = 0;
        while i < self.slots.len()
            invariant
                i <= self.slots.len(),
                find_dns_key(self@.slots, (name@, record_type)) == find_dns_key_from(
                    self@.slots,
                    (name@, record_type),
                    i as int,
                ),
            decreases self.slots.len() - i,
        {
            assert(self@.slots[i as int].0 == (self.slots@[i as int].name@, self.slots@[i as int].record_type));
            if self.slots[i].record_type == record_type && eq_chars(&self.slots[i].name, name) {
                return Some(i);
            }
            i += 1;
        }
        None
    }

    /// Looks `key` up at time `now`.
    pub fn get_at(&mut self, key: &CacheKey, now: u64) -> (r: Option<R>)
        ensures
            dns_get_step(old(self)@, final(self)@, key_view(*key), now, r),
    {
        proof {
            use_type_invariant(&*self);
        }
        let name = chars_of(key.name.as_str());
        match self.find(&name, key.record_type) {
            None => {
                self.stats.misses = inc_wrapping(self.stats.misses);
                None
            },
            Some(i) => {
                if self.slots[i].entry.is_expired(now) {
                    let ghost before = self@.slots;
                    let mut slots = Vec::new();
                    std::mem::swap(&mut slots, &mut self.slots);
                    slots.remove(i);
                    assert(dns_slot_views(slots@) =~= before.remove(i as int));
                    self.slots = slots;
                    self.stats.misses = inc_wrapping(self.stats.misses);
                    None
                } else {
                    self.stats.hits = inc_wrapping(self.stats.hits);
                    Some(self.slots[i].entry.response.clone())
                }
            },
        }
    }

    /// Looks `key` up now.
    pub fn get(&mut self, key: &CacheKey) -> (r: Option<R>)
        ensures
            exists|now: u64| dns_get_step(old(self)@, final(self)@, key_view(*key), now, r),
    {
        let now = nanos_since(&self.origin);
        self.get_at(key, now)
    }

    /// Removes the entries expired at `now`; returns how many went.
    fn drop_expired(&mut self, now: u64) -> (r: usize)
        ensures
            final(self)@.slots == unexpired(old(self)@.slots, now),
            final(self)@.max_entries == old(self)@.max_entries,
            final(self)@.stats == old(self)@.stats,
            r == old(self)@.slots.len() - final(self)@.slots.len(),
    {
        proof {
            use_type_invariant(&*self);
        }
        let ghost all = self@.slots;
        let ghost raw = self.slots@;
        let mut rest = Vec::new();
        std::mem::swap(&mut rest, &mut self.slots);
        let total = rest.len();
        let mut kept: Vec<DnsSlot<R>> = Vec::new();
        let mut i: usize = 0;
        while rest.len() > 0
            invariant
                i + rest.len() == total,
                total == raw.len(),
                all == dns_slot_views(raw),
                rest@ == raw.skip(i as int),
                dns_slot_views(kept@) == unexpired(all.take(i as int), now),
                kept.len() <= i,
                forall|a: int| #![trigger kept@[a]]
                    0 <= a < kept.len() ==> exists|b: int| 0 <= b < i && kept@[a] == raw[b],
                forall|a: int, b: int|
                    0 <= a < b < kept.len() ==> (kept@[a].name@, kept@[a].record_type) != (
                    kept@[b].name@,
                    kept@[b].record_type,
                ),
                forall|a: int, b: int|
                    0 <= a < b < raw.len() ==> (raw[a].name@, raw[a].record_type) != (
                    raw[b].name@,
                    raw[b].record_type,
                ),
                forall|b: int, a: int|
                    0 <= a < kept.len() && i <= b < raw.len() ==> (
                    kept@[a].name@,
                    kept@[a].record_type,
                ) != (raw[b].name@, raw[b].record_type),
            decreases rest.len(),
        {
            let slot = rest.remove(0);
            assert(slot == raw[i as int]);
            assert(rest@ =~= raw.skip(i + 1));
            assert(all.take(i + 1).drop_last() =~= all.take(i as int));
            if !slot.entry.is_expired(now) {
                let ghost before = kept@;
                kept.push(slot);
                assert(dns_slot_views(kept@) =~= dns_slot_views(before).push(all[i as int]));
            }
            i += 1;
        }
        assert(all.take(total as int) =~= all);
        let removed = total - kept.len();
        self.slots = kept;
        removed
    }

    /// Removes the `k` entries accessed longest ago.
    fn drop_oldest_entries(&mut self, k: usize)
        ensures
            final(self)@.slots == drop_oldest(old(self)@.slots, k as nat),
            final(self)@.max_entries == old(self)@.max_entries,
            final(self)@.stats == old(self)@.stats,
        decreases k,
    {
        proof {
            use_type_invariant(&*self);
        }
        if k == 0 || self.slots.len() == 0 {
            return;
        }
        let ghost s = self@.slots;
        let mut best: usize = 0;
        let mut j: usize = 1;
        assert(s.take(1).len() == 1);
        while j < self.slots.len()
            invariant
                1 <= j <= self.slots.len(),
                s == self@.slots,
                best < j,
                best == oldest_index(s.take(j as int)),
            decreases self.slots.len() - j,
        {
            assert(s.take(j + 1).drop_last() =~= s.take(j as int));
            assert(s.take(j + 1)[best as int] == s[best as int]);
            assert(s[j as int].1 == self.slots@[j as int].entry);
            assert(s[best as int].1 == self.slots@[best as int].entry);
            if self.slots[j].entry.last_accessed < self.slots[best].entry.last_accessed {
                best = j;
            }
            j += 1;
        }
        assert(s.take(self.slots.len() as int) =~= s);
        let mut slots = Vec::new();
        std::mem::swap(&mut slots, &mut self.slots);
        let ghost raw = slots@;
        slots.remove(best);
        assert(dns_slot_views(slots@) =~= s.remove(best as int));
        assert forall|a: int, b: int| 0 <= a < b < slots@.len() implies (
            slots@[a].name@,
            slots@[a].record_type,
        ) != (slots@[b].name@, slots@[b].record_type) by {
            let a2 = if a < best {
                a
            } else {
                a + 1
            };
            let b2 = if b < best {
                b
            } else {
                b + 1
            };
            assert(slots@[a] == raw[a2] && slots@[b] == raw[b2]);
        }
        self.slots = slots;
        self.drop_oldest_entries(k - 1);
    }

    /// Stores `response` under `key` at time `now`, with `ttl` nanoseconds
    /// to live, making room first when the cache is full.
    pub fn insert_at(&mut self, key: CacheKey, response: R, ttl: u64, now: u64)
        ensures
            final(self)@ == dns_insert_step(old(self)@, key_view(key), response, ttl, now),
    {
        let ghost m = self@;
        if self.slots.len() >= self.max_entries {
            let removed = self.drop_expired(now);
            proof {
                use_type_invariant(&*self);
            }
            self.stats.evictions = self.stats.evictions.wrapping_add(removed as u64);
        }
        let ghost ev1 = self.stats.evictions;
        if self.slots.len() >= self.max_entries {
            let target = self.max_entries / 4;
            self.drop_oldest_entries(target);
            proof {
                use_type_invariant(&*self);
            }
            self.stats.evictions = self.stats.evictions.wrapping_add(target as u64);
        }
        proof {
            use_type_invariant(&*self);
        }
        let ghost s2 = self@.slots;
        let name = chars_of(key.name.as_str());
        let entry = CacheEntry { response, inserted_at: now, ttl, last_accessed: now };
        let ghost ev = entry;
        let found = self.find(&name, key.record_type);
        proof {
            use_type_invariant(&*self);
        }
        match found {
            Some(i) => {
                proof {
                    lemma_find_dns_key(s2, key_view(key), 0);
                }
                let mut slots = Vec::new();
                std::mem::swap(&mut slots, &mut self.slots);
                let ghost raw = slots@;
                assert(s2[i as int].0 == (raw[i as int].name@, raw[i as int].record_type));
                assert(s2[i as int].0 == key_view(key));
                slots.set(i, DnsSlot { name, record_type: key.record_type, entry });
                assert(dns_slot_views(slots@) =~= s2.update(i as int, (key_view(key), ev)));
                assert forall|a: int, b: int| 0 <= a < b < slots@.len() implies (
                    slots@[a].name@,
                    slots@[a].record_type,
                ) != (slots@[b].name@, slots@[b].record_type) by {
                    assert(a != i ==> slots@[a] == raw[a]);
                    assert(b != i ==> slots@[b] == raw[b]);
                    assert((slots@[i as int].name@, slots@[i as int].record_type) == (
                        raw[i as int].name@,
                        raw[i as int].record_type,
                    ));
                }
                self.slots = slots;
            },
            None => {
                proof {
                    lemma_find_dns_key(s2, key_view(key), 0);
                }
                let mut slots = Vec::new();
                std::mem::swap(&mut slots, &mut self.slots);
                let ghost raw = slots@;
                slots.push(DnsSlot { name, record_type: key.record_type, entry });
                assert(dns_slot_views(slots@) =~= s2.push((key_view(key), ev)));
                assert forall|a: int, b: int| 0 <= a < b < slots@.len() implies (
                    slots@[a].name@,
                    slots@[a].record_type,
                ) != (slots@[b].name@, slots@[b].record_type) by {
                    assert(slots@[a] == raw[a]);
                    if b < raw.len() {
                        assert(slots@[b] == raw[b]);
                    } else {
                        assert(s2[a].0 == (raw[a].name@, raw[a].record_type));
                    }
                }
                self.slots = slots;
            },
        }
        self.stats.size = self.slots.len();
        proof {
            assert(self.stats.evictions == dns_insert_step(m, key_view(key), response, ttl, now).stats.evictions);
        }
    }

    /// Stores `response` under `key` now, with `ttl_secs` seconds to live
    /// (counted in nanoseconds, saturating).
    pub fn insert(&mut self, key: CacheKey, response: R, ttl_secs: u64)
        ensures
            exists|now: u64|
                final(self)@ == dns_insert_step(old(self)@, key_view(key), response, secs_to_nanos(ttl_secs), now),
    {
        let now = nanos_since(&self.origin);
        let t = secs_as_nanos(ttl_secs);
        let ghost kv = key_view(key);
        self.insert_at(key, response, t, now);
        assert(self@ == dns_insert_step(old(self)@, kv, response, secs_to_nanos(ttl_secs), now));
    }

    /// Drops every entry; the size statistic becomes zero.
    pub fn clear(&mut self)
        ensures
            final(self)@.slots.len() == 0,
            final(self)@.max_entries == old(self)@.max_entries,
            final(self)@.stats == (CacheStats { size: 0, ..old(self)@.stats }),
    {
        self.slots = Vec::new();
        self.stats.size = 0;
        assert(dns_slot_views(self.slots@) =~= Seq::<DnsSlotView<R>>::empty());
    }

    pub fn stats(&self) -> (r: CacheStats)
        ensures
            r == self@.stats,
    {
        self.stats
    }

    pub fn len(&self) -> (r: usize)
        ensures
            r == self@.slots.len(),
    {
        self.slots.len()
    }

    pub fn is_empty(&self) -> (r: bool)
        ensures
            r == (self@.slots.len() == 0),
    {
        self.slots.len() == 0
    }
}

/// The entry `drop_oldest` removes first was accessed no later than any
/// other entry.
pub proof fn law_oldest_is_least_recent<R>(s: Seq<DnsSlotView<R>>)
    requires
        s.len() > 0,
    ensures
        0 <= oldest_index(s) < s.len(),
        forall|j: int| 0 <= j < s.len() ==> s[oldest_index(s)].1.last_accessed <= #[trigger] s[j].1.last_accessed,
    decreases s.len(),
{
    if s.len() > 1 {
        law_oldest_is_least_recent(s.drop_last());
        let j0 = oldest_index(s.drop_last());
        assert(s.drop_last()[j0] == s[j0]);
        assert forall|j: int| 0 <= j < s.len() implies s[oldest_index(s)].1.last_accessed
            <= #[trigger] s[j].1.last_accessed by {
            if j < s.len() - 1 {
                assert(s.drop_last()[j] == s[j]);
            }
        }
    }
}

proof fn lemma_unexpired_len<R>(s: Seq<DnsSlotView<R>>, now: u64)
    ensures
        unexpired(s, now).len() <= s.len(),
    decreases s.len(),
{
    if s.len() > 0 {
        lemma_unexpired_len(s.drop_last(), now);
    }
}

proof fn lemma_drop_oldest_len<R>(s: Seq<DnsSlotView<R>>, k: nat)
    ensures
        drop_oldest(s, k).len() == if k <= s.len() {
            s.len() - k
        } else {
            0
        },
    decreases k,
{
    if k > 0 && s.len() > 0 {
        law_oldest_is_least_recent(s);
        lemma_drop_oldest_len(s.remove(oldest_index(s)), (k - 1) as nat);
    }
}

/// A cache of at least four entries never holds more than it may: storing
/// into a cache within its bound keeps it within its bound.
pub proof fn law_dns_insert_respects_capacity<R>(
    m: DnsCacheModel<R>,
    key: (Seq<char>, u16),
    response: R,
    ttl: u64,
    now: u64,
)
    requires
        m.max_entries >= 4,
        m.slots.len() <= m.max_entries,
    ensures
        dns_insert_step(m, key, response, ttl, now).slots.len() <= m.max_entries,
{
    lemma_unexpired_len(m.slots, now);
    let full1 = m.slots.len() >= m.max_entries;
    let s1 = if full1 {
        unexpired(m.slots, now)
    } else {
        m.slots
    };
    lemma_drop_oldest_len(s1, m.max_entries / 4);
    assert(m.max_entries / 4 >= 1);
    let full2 = s1.len() >= m.max_entries;
    let s2 = if full2 {
        drop_oldest(s1, m.max_entries / 4)
    } else {
        s1
    };
    assert(s2.len() < m.max_entries);
    let entry = CacheEntry { response, inserted_at: now, ttl, last_accessed: now };
    let i = find_dns_key(s2, key);
    lemma_find_dns_key(s2, key, 0);
    if i >= 0 {
        assert(s2.update(i, (key, entry)).len() == s2.len());
    }
}

/// A response just stored is found by a lookup under its key until its time
/// to live has passed.
pub proof fn law_dns_get_after_insert<R: Clone>(
    m: DnsCacheModel<R>,
    key: (Seq<char>, u16),
    response: R,
    ttl: u64,
    now: u64,
    later: u64,
    after: DnsCacheModel<R>,
    r: Option<R>,
)
    requires
        later <= now + ttl,
        dns_get_step(dns_insert_step(m, key, response, ttl, now), after, key, later, r),
    ensures
        r matches Some(v) && cloned(response, v),
{
    let m1 = dns_insert_step(m, key, response, ttl, now);
    let full1 = m.slots.len() >= m.max_entries;
    let s1 = if full1 {
        unexpired(m.slots, now)
    } else {
        m.slots
    };
    let full2 = s1.len() >= m.max_entries;
    let s2 = if full2 {
        drop_oldest(s1, m.max_entries / 4)
    } else {
        s1
    };
    let i = find_dns_key(s2, key);
    lemma_find_dns_key(s2, key, 0);
    if i >= 0 {
        lemma_find_dns_key_first(m1.slots, key, i);
    } else {
        lemma_find_dns_key_first(m1.slots, key, s2.len() as int);
    }
}

proof fn lemma_find_dns_key_first<R>(s: Seq<DnsSlotView<R>>, key: (Seq<char>, u16), i: int)
    requires
        0 <= i < s.len(),
        s[i].0 == key,
        forall|j: int| 0 <= j < i ==> s[j].0 != key,
    ensures
        find_dns_key(s, key) == i,
{
    assert forall|j: int| 0 <= j <= i implies find_dns_key_from(s, key, j) == i by {
        lemma_find_dns_key_from_to(s, key, j, i);
    }
}

proof fn lemma_find_dns_key_from_to<R>(s: Seq<DnsSlotView<R>>, key: (Seq<char>, u16), j: int, i: int)
    requires
        0 <= j <= i < s.len(),
        s[i].0 == key,
        forall|k: int| 0 <= k < i ==> s[k].0 != key,
    ensures
        find_dns_key_from(s, key, j) == i,
    decreases i - j,
{
    if j < i {
        lemma_find_dns_key_from_to(s, key, j + 1, i);
    }
}

} // verus!
