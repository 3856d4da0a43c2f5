//! A least-recently-used cache with a time to live per entry, keyed by
//! strings.

use vstd::prelude::*;

use std::time::Instant;

use crate::clock::{expired_at, instant_now, is_expired_at, millis_as_nanos, millis_to_nanos, nanos_since};
use crate::text::eq_chars;
use crate::text::chars_of;

verus! {

broadcast use vstd::string::group_string_axioms;

/// A counter step that wraps at `u64::MAX`, as an atomic `fetch_add` does.
pub open spec fn wrapping_inc(x: u64) -> u64 {
    if x == u64::MAX {
        0
    } else {
        (x + 1) as u64
    }
}

pub fn inc_wrapping(x: u64) -> (r: u64)
    ensures
        r == wrapping_inc(x),
{
    x.wrapping_add(1)
}

/// A cached value with the time it was inserted and its time to live, both
/// in nanoseconds of the cache's clock.
struct Entry<V> {
    value: V,
    inserted_at: u64,
    ttl: u64,
}

impl<V> Entry<V> {
    /// Whether the entry has expired at `now`.
    fn is_expired(&self, now: u64) -> (r: bool)
        ensures
            r == expired_at(self.inserted_at, self.ttl, now),
    {
        is_expired_at(self.inserted_at, self.ttl, now)
    }
}

struct Slot<V> {
    key: Vec<char>,
    entry: Entry<V>,
}

/// One cached entry: key, value, insertion time and time to live.
pub type SlotView<V> = (Seq<char>, V, u64, u64);

/// The state of a cache: entries from least to most recently used, the
/// capacity, and the hit and miss counters.
pub ghost struct LruModel<V> {
    pub slots: Seq<SlotView<V>>,
    pub capacity: nat,
    pub hits: u64,
    pub misses: u64,
}

/// The statistics of a cache.
#[derive(Debug, Clone, Copy)]
pub struct CacheStats {
    pub size: usize,
    pub capacity: usize,
    pub hits: u64,
    pub misses: u64,
}

/// The position of `key` from index `i` on.
pub open spec fn find_key_from<V>(s: Seq<SlotView<V>>, key: Seq<char>, i: int) -> int
    decreases s.len() - i,
{
    if i < 0 || i >= s.len() {
        -1
    } else if s[i].0 == key {
        i
    } else {
        find_key_from(s, key, i + 1)
    }
}

pub open spec fn find_key<V>(s: Seq<SlotView<V>>, key: Seq<char>) -> int {
    find_key_from(s, key, 0)
}

pub open spec fn distinct_keys<V>(s: Seq<SlotView<V>>) -> bool {
    forall|i: int, j: int| 0 <= i < j < s.len() ==> s[i].0 != s[j].0
}

pub open spec fn live_entries<V>(s: Seq<SlotView<V>>, now: u64) -> Seq<SlotView<V>>
    decreases s.len(),
{
    if s.len() == 0 {
        seq![]
    } else {
        let rest = live_entries(s.drop_last(), now);
        if expired_at(s.last().2, s.last().3, now) {
            rest
        } else {
            rest.push(s.last())
        }
    }
}

/// What `get` does at time `now`: a live entry is returned (as a clone) and
/// becomes the most recently used; an expired one is dropped; a miss or an
/// expired entry counts as a miss.
pub open spec fn get_step<V: Clone>(
    old: LruModel<V>,
    new: LruModel<V>,
    key: Seq<char>,
    now: u64,
    r: Option<V>,
) -> bool {
    let i = find_key(old.slots, key);
    &&& new.capacity == old.capacity
    &&& if i < 0 {
        &&& r is None
        &&& new.slots == old.slots
        &&& new.hits == old.hits
        &&& new.misses == wrapping_inc(old.misses)
    } else if expired_at(old.slots[i].2, old.slots[i].3, now) {
        &&& r is None
        &&& new.slots == old.slots.remove(i)
        &&& new.hits == old.hits
        &&& new.misses == wrapping_inc(old.misses)
    } else {
        &&& r matches Some(v) && cloned(old.slots[i].1, v)
        &&& new.slots == old.slots.remove(i).push(old.slots[i])
        &&& new.hits == wrapping_inc(old.hits)
        &&& new.misses == old.misses
    }
}

/// How many least recently used entries an insertion evicts, given the
/// entries left once any entry under the key itself is taken out: as many as
/// it takes to leave room for the new entry. Replacing the value of a key
/// already held in a cache within its capacity therefore evicts nothing.
pub open spec fn evict_count(len: int, capacity: int) -> int {
    let over = len - capacity + 1;
    if over < 0 {
        0
    } else if over > len {
        len
    } else {
        over
    }
}

/// What `insert` does at time `now`.
pub open spec fn insert_step<V>(
    old: LruModel<V>,
    key: Seq<char>,
    value: V,
    ttl: u64,
    now: u64,
) -> LruModel<V> {
    let i = find_key(old.slots, key);
    let rest = if i >= 0 {
        old.slots.remove(i)
    } else {
        old.slots
    };
    let evicted = evict_count(rest.len() as int, old.capacity as int);
    LruModel { slots: rest.skip(evicted).push((key, value, now, ttl)), ..old }
}

/// A cache of at most `max_capacity` entries (at least one), keyed by
/// strings, each entry living for its own time to live.
pub struct LruCache<V> {
    slots: Vec<Slot<V>>,
    max_capacity: usize,
    hits: u64,
    misses: u64,
    origin: Instant,
}

spec fn slot_views<V>(v: Seq<Slot<V>>) -> Seq<SlotView<V>> {
    v.map_values(|s: Slot<V>| (s.key@, s.entry.value, s.entry.inserted_at, s.entry.ttl))
}

impl<V> View for LruCache<V> {
    type V = LruModel<V>;

    closed spec fn view(&self) -> LruModel<V> {
        LruModel {
            slots: slot_views(self.slots@),
            capacity: self.max_capacity as nat,
            hits: self.hits,
            misses: self.misses,
        }
    }
}

proof fn lemma_find_key_in_range<V>(s: Seq<SlotView<V>>, key: Seq<char>, i: int)
    requires
        0 <= i,
    ensures
        find_key_from(s, key, i) == -1 || (i <= find_key_from(s, key, i) < s.len() && s[find_key_from(
            s,
            key,
            i,
        )].0 == key),
        find_key_from(s, key, i) == -1 ==> forall|j: int| i <= j < s.len() ==> s[j].0 != key,
    decreases s.len() - i,
{
    if i < s.len() && s[i].0 != key {
        lemma_find_key_in_range(s, key, i + 1);
    }
}

impl<V> LruCache<V> {
    #[verifier::type_invariant]
    spec fn keys_distinct(self) -> bool {
        forall|i: int, j: int|
            0 <= i < j < self.slots@.len() ==> self.slots@[i].key@ != self.slots@[j].key@
    }
}

impl<V: Clone> LruCache<V> {
    /// An empty cache holding at most `max_capacity` entries.
    pub fn new(max_capacity: usize) -> (r: Self)
        ensures
            r@.slots.len() == 0,
            r@.capacity == max_capacity,
            r@.hits == 0,
            r@.misses == 0,
    {
        LruCache {
            slots: Vec::new(),
            max_capacity,
            hits: 0,
            misses: 0,
            origin: instant_now(),
        }
    }

    fn find(&self, key: &str) -> (r: Option<usize>)
        ensures
            match r {
                Some(i) => i < self@.slots.len() && find_key(self@.slots, key@) == i,
                None => find_key(self@.slots, key@) == -1,
            },
    {
        let k = chars_of(key);
        let mut i: usize = 0;
        while i < self.slots.len()
            invariant
                i <= self.slots.len(),
                k@ == key@,
                find_key(self@.slots, key@) == find_key_from(self@.slots, key@, i as int),
            decreases self.slots.len() - i,
        {
            assert(self@.slots[i as int].0 == self.slots@[i as int].key@);
            if eq_chars(&self.slots[i].key, &k) {
                return Some(i);
            }
            i += 1;
        }
        None
    }

    /// Looks `key` up at time `now` (nanoseconds of the cache's clock).
    pub fn get_at(&mut self, key: &String, now: u64) -> (r: Option<V>)
        ensures
            get_step(old(self)@, final(self)@, key@, now, r),
    {
        proof {
            use_type_invariant(&*self);
        }
        let found = self.find(key.as_str());
        match found {
            None => {
                self.misses = inc_wrapping(self.misses);
                None
            },
            Some(i) => {
                let ghost before = self@.slots;
                if self.slots[i].entry.is_expired(now) {
                    let mut slots = Vec::new();
                    std::mem::swap(&mut slots, &mut self.slots);
                    let ghost raw = slots@;
                    slots.remove(i);
                    assert(slot_views(slots@) =~= before.remove(i as int));
                    self.slots = slots;
                    self.misses = inc_wrapping(self.misses);
                    None
                } else {
                    let value = self.slots[i].entry.value.clone();
                    let mut slots = Vec::new();
                    std::mem::swap(&mut slots, &mut self.slots);
                    let slot = slots.remove(i);
                    slots.push(slot);
                    assert(slot_views(slots@) =~= before.remove(i as int).push(before[i as int]));
                    self.slots = slots;
                    self.hits = inc_wrapping(self.hits);
                    Some(value)
                }
            },
        }
    }

    /// Looks `key` up now.
    pub fn get(&mut self, key: &String) -> (r: Option<V>)
        ensures
            exists|now: u64| get_step(old(self)@, final(self)@, key@, now, r),
    {
        let now = nanos_since(&self.origin);
        self.get_at(key, now)
    }

    /// Inserts `value` under `key` at time `now`, with `ttl` nanoseconds to
    /// live; an earlier entry under the key is replaced, and least recently
    /// used entries are evicted while the cache is at capacity.
    pub fn insert_at(&mut self, key: String, value: V, ttl: u64, now: u64)
        ensures
            final(self)@ == insert_step(old(self)@, key@, value, ttl, now),
    {
        proof {
            use_type_invariant(&*self);
        }
        let ghost m = self@;
        let found = self.find(key.as_str());
        proof {
            lemma_find_key_in_range(m.slots, key@, 0);
        }
        let mut slots = Vec::new();
        std::mem::swap(&mut slots, &mut self.slots);
        let ghost raw = slots@;
        match found {
            Some(i) => {
                slots.remove(i);
            },
            None => {},
        }
        let ghost rest = if find_key(m.slots, key@) >= 0 {
            m.slots.remove(find_key(m.slots, key@))
        } else {
            m.slots
        };
        assert(slot_views(slots@) =~= rest);
        // No entry left holds the key.
        assert forall|k: int| 0 <= k < slots@.len() implies slots@[k].key@ != key@ by {
            match found {
                Some(i) => {
                    if k < i {
                        assert(raw[k].key@ != raw[i as int].key@);
                    } else {
                        assert(raw[k + 1].key@ != raw[i as int].key@);
                    }
                },
                None => {
                    assert(m.slots[k].0 == raw[k].key@);
                },
            }
        }
        let ghost n = rest.len() as int;
        let ghost evicted = evict_count(n, self.max_capacity as int);
        let ghost mut dropped: int = 0;
        while slots.len() > 0 && slots.len() >= self.max_capacity
            invariant
                0 <= dropped <= evicted,
                evicted == evict_count(n, self.max_capacity as int),
                n == rest.len(),
                slots.len() == n - dropped,
                slot_views(slots@) == rest.skip(dropped),
                forall|i: int, j: int| 0 <= i < j < slots@.len() ==> slots@[i].key@ != slots@[j].key@,
                forall|k: int| 0 <= k < slots@.len() ==> slots@[k].key@ != key@,
            decreases slots.len(),
        {
            let ghost before = slots@;
            slots.remove(0);
            assert(slot_views(slots@) =~= slot_views(before).drop_first());
            assert(rest.skip(dropped).drop_first() =~= rest.skip(dropped + 1));
            proof {
                dropped = dropped + 1;
            }
            assert forall|k: int| 0 <= k < slots@.len() implies slots@[k].key@ != key@ by {
                assert(slots@[k] == before[k + 1]);
            }
            assert forall|i: int, j: int| 0 <= i < j < slots@.len() implies slots@[i].key@
                != slots@[j].key@ by {
                assert(slots@[i] == before[i + 1] && slots@[j] == before[j + 1]);
            }
        }
        assert(dropped == evicted);
        let ghost kept = slots@;
        let key_chars = chars_of(key.as_str());
        slots.push(Slot { key: key_chars, entry: Entry { value, inserted_at: now, ttl } });
        assert(slot_views(slots@) =~= slot_views(kept).push((key@, value, now, ttl)));
        assert forall|i: int, j: int| 0 <= i < j < slots@.len() implies slots@[i].key@
            != slots@[j].key@ by {
            if j == slots@.len() - 1 {
                assert(slots@[i] == kept[i]);
            } else {
                assert(slots@[i] == kept[i] && slots@[j] == kept[j]);
            }
        }
        self.slots = slots;
    }

    /// Inserts `value` under `key` now, with `ttl_millis` milliseconds to
    /// live (counted in nanoseconds, saturating).
    pub fn insert(&mut self, key: String, value: V, ttl_millis: u64)
        ensures
            exists|now: u64|
                final(self)@ == insert_step(old(self)@, key@, value, millis_to_nanos(ttl_millis), now),
    {
        let now = nanos_since(&self.origin);
        let t = millis_as_nanos(ttl_millis);
        self.insert_at(key, value, t, now);
    }

    /// Removes the entry under `key` and returns its value.
    pub fn remove(&mut self, key: &String) -> (r: Option<V>)
        ensures
            ({
                let i = find_key(old(self)@.slots, key@);
                if i < 0 {
                    r is None && final(self)@ == old(self)@
                } else {
                    r == Some(old(self)@.slots[i].1) && final(self)@ == LruModel {
                        slots: old(self)@.slots.remove(i),
                        ..old(self)@
                    }
                }
            }),
    {
        proof {
            use_type_invariant(&*self);
        }
        match self.find(key.as_str()) {
            None => None,
            Some(i) => {
                let ghost before = self@.slots;
                let mut slots = Vec::new();
                std::mem::swap(&mut slots, &mut self.slots);
                let slot = slots.remove(i);
                assert(slot_views(slots@) =~= before.remove(i as int));
                self.slots = slots;
                Some(slot.entry.value)
            },
        }
    }

    /// Drops every entry; the counters stay.
    pub fn clear(&mut self)
        ensures
            final(self)@ == (LruModel { slots: Seq::<SlotView<V>>::empty(), ..old(self)@ }),
    {
        self.slots = Vec::new();
        assert(slot_views(self.slots@) =~= Seq::<SlotView<V>>::empty());
    }

    pub fn len(&self) -> (r: usize)
        ensures
            r == self@.slots.len(),
    {
        self.slots.len()
    }

    pub fn is_empty(&self) -> (r: bool)
        ensures
            r == (self@.slots.len() == 0),
    {
        self.slots.len() == 0
    }

    pub fn stats(&self) -> (r: CacheStats)
        ensures
            r.size == self@.slots.len(),
            r.capacity == self@.capacity,
            r.hits == self@.hits,
            r.misses == self@.misses,
    {
        CacheStats {
            size: self.slots.len(),
            capacity: self.max_capacity,
            hits: self.hits,
            misses: self.misses,
        }
    }

    /// Drops every entry expired at `now` and returns how many were dropped.
    pub fn evict_expired_at(&mut self, now: u64) -> (r: usize)
        ensures
            final(self)@ == (LruModel {
                slots: live_entries(old(self)@.slots, now),
                ..old(self)@
            }),
            r == old(self)@.slots.len() - live_entries(old(self)@.slots, now).len(),
    {
        proof {
            use_type_invariant(&*self);
        }
        let ghost all = self@.slots;
        let ghost raw = self.slots@;
        let mut rest = Vec::new();
        std::mem::swap(&mut rest, &mut self.slots);
        let total = rest.len();
        let mut kept: Vec<Slot<V>> = Vec::new();
        let mut i: usize = 0;
        while rest.len() > 0
            invariant
                i + rest.len() == total,
                total == raw.len(),
                all == slot_views(raw),
                rest@ == raw.skip(i as int),
                slot_views(kept@) == live_entries(all.take(i as int), now),
                kept.len() <= i,
                forall|a: int| #![trigger kept@[a]]
                    0 <= a < kept.len() ==> exists|b: int| 0 <= b < i && kept@[a] == raw[b],
                forall|a: int, b: int| 0 <= a < b < kept.len() ==> kept@[a].key@ != kept@[b].key@,
                forall|a: int, b: int| 0 <= a < b < raw.len() ==> raw[a].key@ != raw[b].key@,
                forall|b: int, a: int| 0 <= a < kept.len() && i <= b < raw.len() ==> kept@[a].key@ != raw[b].key@,
            decreases rest.len(),
        {
            let slot = rest.remove(0);
            assert(slot == raw[i as int]);
            assert(rest@ =~= raw.skip(i + 1));
            assert(all.take(i + 1).drop_last() =~= all.take(i as int));
            if !slot.entry.is_expired(now) {
                let ghost before = kept@;
                kept.push(slot);
                assert(slot_views(kept@) =~= slot_views(before).push(all[i as int]));
            }
            i += 1;
        }
        assert(all.take(total as int) =~= all);
        let removed = total - kept.len();
        self.slots = kept;
        removed
    }

    /// Drops every entry expired now and returns how many were dropped.
    pub fn evict_expired(&mut self) -> (r: usize)
        ensures
            exists|now: u64|
                final(self)@ == (LruModel {
                    slots: live_entries(old(self)@.slots, now),
                    ..old(self)@
                }) && r == old(self)@.slots.len() - live_entries(old(self)@.slots, now).len(),
    {
        let now = nanos_since(&self.origin);
        self.evict_expired_at(now)
    }
}

/// After an insertion the cache holds at most its capacity (at least one
/// entry: the one just inserted).
pub proof fn law_insert_respects_capacity<V>(
    m: LruModel<V>,
    key: Seq<char>,
    value: V,
    ttl: u64,
    now: u64,
)
    ensures
        insert_step(m, key, value, ttl, now).slots.len() <= if m.capacity == 0 {
            1
        } else {
            m.capacity
        },
{
}

/// A value just inserted is what a lookup returns (as a clone) until its time
/// to live has passed.
pub proof fn law_get_after_insert<V: Clone>(
    m: LruModel<V>,
    key: Seq<char>,
    value: V,
    ttl: u64,
    now: u64,
    later: u64,
    after: LruModel<V>,
    r: Option<V>,
)
    requires
        distinct_keys(m.slots),
        later <= now + ttl,
        get_step(insert_step(m, key, value, ttl, now), after, key, later, r),
    ensures
        r matches Some(v) && cloned(value, v),
{
    let m1 = insert_step(m, key, value, ttl, now);
    let i = find_key(m.slots, key);
    lemma_find_key_in_range(m.slots, key, 0);
    let rest = if i >= 0 {
        m.slots.remove(i)
    } else {
        m.slots
    };
    let evicted = evict_count(rest.len() as int, m.capacity as int);
    let kept = rest.skip(evicted);
    assert forall|k: int| 0 <= k < kept.len() implies kept[k].0 != key by {
        if i >= 0 {
            if k + evicted < i {
                assert(kept[k] == m.slots[k + evicted]);
            } else {
                assert(kept[k] == m.slots[k + evicted + 1]);
            }
        } else {
            assert(kept[k] == m.slots[k + evicted]);
        }
    }
    lemma_find_key_last(kept, key, (key, value, now, ttl));
}

proof fn lemma_find_key_last<V>(s: Seq<SlotView<V>>, key: Seq<char>, last: SlotView<V>)
    requires
        forall|k: int| 0 <= k < s.len() ==> s[k].0 != key,
        last.0 == key,
    ensures
        find_key(s.push(last), key) == s.len(),
{
    let t = s.push(last);
    assert forall|j: int| 0 <= j <= s.len() implies find_key_from(t, key, j) == s.len() by {
        lemma_find_key_from_skip(t, key, j, s.len() as int);
    }
}

proof fn lemma_find_key_from_skip<V>(t: Seq<SlotView<V>>, key: Seq<char>, j: int, n: int)
    requires
        0 <= j <= n,
        n == t.len() - 1,
        t[n].0 == key,
        forall|k: int| 0 <= k < n ==> t[k].0 != key,
    ensures
        find_key_from(t, key, j) == n,
    decreases n - j,
{
    if j < n {
        lemma_find_key_from_skip(t, key, j + 1, n);
    }
}

/// Inserting a new key into a full cache evicts exactly the least recently
/// used entry.
pub proof fn law_full_insert_evicts_least_recent<V>(
    m: LruModel<V>,
    key: Seq<char>,
    value: V,
    ttl: u64,
    now: u64,
)
    requires
        find_key(m.slots, key) < 0,
        m.capacity >= 1,
        m.slots.len() == m.capacity,
    ensures
        insert_step(m, key, value, ttl, now).slots == m.slots.drop_first().push((key, value, now, ttl)),
{
    assert(m.slots.skip(1) =~= m.slots.drop_first());
}

/// Replacing the value of a key the cache already holds evicts nothing: the
/// other entries stay, in their order, and the key becomes the most recently
/// used.
pub proof fn law_update_evicts_nothing<V>(
    m: LruModel<V>,
    key: Seq<char>,
    value: V,
    ttl: u64,
    now: u64,
)
    requires
        find_key(m.slots, key) >= 0,
        m.slots.len() <= m.capacity,
    ensures
        insert_step(m, key, value, ttl, now).slots == m.slots.remove(find_key(m.slots, key)).push(
            (key, value, now, ttl),
        ),
{
    lemma_find_key_in_range(m.slots, key, 0);
    let rest = m.slots.remove(find_key(m.slots, key));
    assert(rest.skip(0) =~= rest);
}

} // verus!
