//! Keeps a buffer's usage under a threshold by evicting its oldest entries.
use vstd::prelude::*;
use crate::buffer::{evict_to, total_size, EntryView, MemoryBuffer};
use crate::telemetry::{bumped_by, Monitoring};

verus! {

/// Threshold used when none is given: 512 MiB.
pub const DEFAULT_EVICTION_THRESHOLD: usize = 536870912;

pub struct EvictionManager {
    eviction_threshold: usize,
}

impl EvictionManager {
    pub closed spec fn threshold(&self) -> nat {
        self.eviction_threshold as nat
    }

    pub fn new() -> (m: EvictionManager)
        ensures
            m.threshold() == DEFAULT_EVICTION_THRESHOLD,
    {
        EvictionManager { eviction_threshold: DEFAULT_EVICTION_THRESHOLD }
    }

    pub fn with_threshold(eviction_threshold: usize) -> (m: EvictionManager)
        ensures
            m.threshold() == eviction_threshold,
    {
        EvictionManager { eviction_threshold }
    }

    pub fn eviction_threshold(&self) -> (t: usize)
        ensures
            t == self.threshold(),
    {
        self.eviction_threshold
    }

    /// Evicts the oldest entries of `buffer` while its usage exceeds the
    /// threshold, and counts one eviction event for each. Returns how many
    /// left.
    pub fn check_eviction_threshold(&self, buffer: &mut MemoryBuffer, monitoring: &mut Monitoring) -> (n: usize)
        requires
            old(buffer).wf(),
        ensures
            final(buffer).wf(),
            final(buffer).spec_capacity() == old(buffer).spec_capacity(),
            final(buffer)@ == evict_to(old(buffer)@, self.threshold()),
            n == old(buffer)@.len() - final(buffer)@.len(),
            *final(monitoring) == (Monitoring {
                evictions: bumped_by(old(monitoring).evictions, n as nat),
                ..*old(monitoring)
            }),
    {
        let n = buffer.check_and_evict(self.eviction_threshold);
        monitoring.record_evictions(n);
        n
    }
}

/// After eviction to a threshold, usage is within the threshold unless no
/// entry is left.
pub proof fn law_eviction_respects_threshold(entries: Seq<EntryView>, threshold: nat)
    ensures
        evict_to(entries, threshold).len() == 0 || total_size(evict_to(entries, threshold))
            <= threshold,
{
    crate::buffer::lemma_evict_to_fits(entries, threshold);
}

} // verus!
