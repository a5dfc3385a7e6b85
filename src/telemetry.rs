//! Event counters for the cache and the speculative decoder. They count; a
//! metrics exporter outside the library publishes them.
use vstd::prelude::*;

verus! {

/// The value of a counter after one more event: counters stop at `u64::MAX`.
pub open spec fn bumped(c: u64) -> u64 {
    if c == u64::MAX {
        c
    } else {
        (c + 1) as u64
    }
}

/// The value of a counter after `n` more events.
pub open spec fn bumped_by(c: u64, n: nat) -> u64 {
    if c + n >= u64::MAX {
        u64::MAX
    } else {
        (c + n) as u64
    }
}

/// Counts of the events that the cache and the decoder emit.
pub struct Monitoring {
    pub cache_hits: u64,
    pub cache_misses: u64,
    pub evictions: u64,
    pub speculative_accepted: u64,
    pub speculative_rejected: u64,
    pub deduplication_hits: u64,
}

impl Monitoring {
    /// All counters at zero.
    pub fn new() -> (m: Monitoring)
        ensures
            m.cache_hits == 0,
            m.cache_misses == 0,
            m.evictions == 0,
            m.speculative_accepted == 0,
            m.speculative_rejected == 0,
            m.deduplication_hits == 0,
    {
        Monitoring {
            cache_hits: 0,
            cache_misses: 0,
            evictions: 0,
            speculative_accepted: 0,
            speculative_rejected: 0,
            deduplication_hits: 0,
        }
    }

    pub fn record_cache_hit(&mut self)
        ensures
            *final(self) == (Monitoring { cache_hits: bumped(old(self).cache_hits), ..*old(self) }),
    {
        self.cache_hits = self.cache_hits.saturating_add(1);
    }

    pub fn record_cache_miss(&mut self)
        ensures
            *final(self) == (Monitoring { cache_misses: bumped(old(self).cache_misses), ..*old(self) }),
    {
        self.cache_misses = self.cache_misses.saturating_add(1);
    }

    pub fn record_eviction(&mut self)
        ensures
            *final(self) == (Monitoring { evictions: bumped(old(self).evictions), ..*old(self) }),
    {
        self.evictions = self.evictions.saturating_add(1);
    }

    /// `n` evictions at once.
    pub fn record_evictions(&mut self, n: usize)
        ensures
            *final(self) == (Monitoring { evictions: bumped_by(old(self).evictions, n as nat), ..*old(self) }),
    {
        self.evictions = self.evictions.saturating_add(n as u64);
    }

    pub fn record_speculative_accepted(&mut self)
        ensures
            *final(self) == (Monitoring {
                speculative_accepted: bumped(old(self).speculative_accepted),
                ..*old(self)
            }),
    {
        self.speculative_accepted = self.speculative_accepted.saturating_add(1);
    }

    pub fn record_speculative_rejected(&mut self)
        ensures
            *final(self) == (Monitoring {
                speculative_rejected: bumped(old(self).speculative_rejected),
                ..*old(self)
            }),
    {
        self.speculative_rejected = self.speculative_rejected.saturating_add(1);
    }

    /// One block dropped by the deduplicator as already seen.
    pub fn log_deduplication_hit(&mut self)
        ensures
            *final(self) == (Monitoring {
                deduplication_hits: bumped(old(self).deduplication_hits),
                ..*old(self)
            }),
    {
        self.deduplication_hits = self.deduplication_hits.saturating_add(1);
    }
}

} // verus!
