//! The running query counters of the statistics store.

use vstd::prelude::*;

use crate::lru_cache::{inc_wrapping, wrapping_inc};

verus! {

/// Counts of the queries handled since start-up (the first two start from
/// what the stored log already holds).
#[derive(Debug, Clone, Copy)]
pub struct QueryCounters {
    pub total_queries: u64,
    pub blocked_queries: u64,
    pub cache_hits: u64,
    pub cache_misses: u64,
}

impl QueryCounters {
    /// Counters that start from the stored totals, with no cache traffic yet.
    pub fn new(total: u64, blocked: u64) -> (r: Self)
        ensures
            r.total_queries == total,
            r.blocked_queries == blocked,
            r.cache_hits == 0,
            r.cache_misses == 0,
    {
        QueryCounters { total_queries: total, blocked_queries: blocked, cache_hits: 0, cache_misses: 0 }
    }

    /// Counts one query: always the total; the blocked count when it was
    /// blocked; a cache hit when it was answered from the cache, else a
    /// miss. The counters wrap as atomic additions do.
    pub fn record(&mut self, blocked: bool, cached: bool)
        ensures
            final(self).total_queries == wrapping_inc(old(self).total_queries),
            final(self).blocked_queries == if blocked {
                wrapping_inc(old(self).blocked_queries)
            } else {
                old(self).blocked_queries
            },
            final(self).cache_hits == if cached {
                wrapping_inc(old(self).cache_hits)
            } else {
                old(self).cache_hits
            },
            final(self).cache_misses == if cached {
                old(self).cache_misses
            } else {
                wrapping_inc(old(self).cache_misses)
            },
    {
        self.total_queries = inc_wrapping(self.total_queries);
        if blocked {
            self.blocked_queries = inc_wrapping(self.blocked_queries);
        }
        if cached {
            self.cache_hits = inc_wrapping(self.cache_hits);
        } else {
            self.cache_misses = inc_wrapping(self.cache_misses);
        }
    }
}

} // verus!
