//! The cache facade: statistics, precision choice, deduplication,
//! quantization, storage and eviction for each update.
use vstd::prelude::*;
use crate::buffer::{evict_to, lookup, updated, without, KVCacheError, MemoryBuffer};
use crate::dedup::{block_hashes, dedup_by, dropped_count, kept_concat, Deduplicator};
use crate::eviction::EvictionManager;
use crate::metrics::{locality_spec, measure_locality};
use crate::policy::{decide, decide_spec, PrecisionLevel};
use crate::quantize::{encode_payload, encode_spec};
use crate::telemetry::{bumped, bumped_by, Monitoring};

verus! {

/// Locality as the rule table reads it: capped at `u32::MAX`.
pub open spec fn capped_locality(s: Seq<i32>) -> int {
    if locality_spec(s) > u32::MAX {
        u32::MAX as int
    } else {
        locality_spec(s)
    }
}

/// Owns the buffer, the eviction policy, the deduplicator and the event
/// counters of one cache.
pub struct KVCacheManager {
    buffer: MemoryBuffer,
    eviction: EvictionManager,
    dedup: Deduplicator,
    monitoring: Monitoring,
}

impl KVCacheManager {
    pub closed spec fn spec_buffer(&self) -> MemoryBuffer {
        self.buffer
    }

    pub closed spec fn spec_eviction(&self) -> EvictionManager {
        self.eviction
    }

    pub closed spec fn spec_dedup(&self) -> Deduplicator {
        self.dedup
    }

    pub closed spec fn spec_monitoring(&self) -> Monitoring {
        self.monitoring
    }

    pub open spec fn wf(&self) -> bool {
        self.spec_buffer().wf()
    }

    /// The hashes that count as already seen by the next update.
    pub open spec fn seen_before_update(&self) -> Set<u64> {
        self.spec_dedup().seen_at_next_call()
    }

    /// An empty cache of `capacity` bytes that evicts above
    /// `eviction_threshold` bytes.
    pub fn new(capacity: usize, eviction_threshold: usize) -> (m: KVCacheManager)
        ensures
            m.wf(),
            m.spec_buffer()@ == Seq::<crate::buffer::EntryView>::empty(),
            m.spec_buffer().spec_capacity() == capacity,
            m.spec_eviction().threshold() == eviction_threshold,
    {
        KVCacheManager {
            buffer: MemoryBuffer::new(capacity),
            eviction: EvictionManager::with_threshold(eviction_threshold),
            dedup: Deduplicator::new(),
            monitoring: Monitoring::new(),
        }
    }

    pub fn buffer(&self) -> (b: &MemoryBuffer)
        ensures
            *b == self.spec_buffer(),
    {
        &self.buffer
    }

    pub fn monitoring(&self) -> (m: &Monitoring)
        ensures
            *m == self.spec_monitoring(),
    {
        &self.monitoring
    }

    /// Stores the activation batch of `job_id`. The precision comes from the
    /// rule table over `entropy` and `system_load` (thousandths) and the
    /// batch's locality; the batch is deduplicated, encoded at that
    /// precision and stored, and the buffer is then brought under the
    /// eviction threshold. Fails, changing no entry, when the encoded
    /// payload alone exceeds the capacity.
    pub fn update(&mut self, job_id: String, activation: &Vec<i32>, entropy: u32, system_load: u32) -> (r:
        Result<PrecisionLevel, KVCacheError>)
        requires
            old(self).wf(),
            activation@.len() <= u32::MAX,
        ensures
            final(self).wf(),
            final(self).spec_buffer().spec_capacity() == old(self).spec_buffer().spec_capacity(),
            final(self).spec_eviction() == old(self).spec_eviction(),
            r is Err ==> r == Err::<PrecisionLevel, KVCacheError>(KVCacheError::CapacityExceeded),
            old(self).seen_before_update().union(block_hashes(activation@)).subset_of(
                final(self).spec_dedup().seen(),
            ),
            ({
                let level = decide_spec(
                    entropy as int,
                    capped_locality(activation@),
                    system_load as int,
                );
                let cap = old(self).spec_buffer().spec_capacity();
                exists|keep: Seq<bool>|
                    {
                        let payload = encode_spec(level, kept_concat(activation@, keep));
                        &&& #[trigger] dedup_by(activation@, keep, old(self).seen_before_update())
                        &&& (payload.len() > cap <==> r == Err::<PrecisionLevel, KVCacheError>(
                            KVCacheError::CapacityExceeded,
                        ))
                        &&& (r is Err ==> final(self).spec_buffer()@ == old(self).spec_buffer()@)
                        &&& (r is Ok ==> r == Ok::<PrecisionLevel, KVCacheError>(level)
                            && final(self).spec_buffer()@ == evict_to(
                            updated(old(self).spec_buffer()@, job_id@, payload, cap),
                            old(self).spec_eviction().threshold(),
                        ))
                        &&& final(self).spec_monitoring() == (Monitoring {
                            deduplication_hits: bumped_by(
                                old(self).spec_monitoring().deduplication_hits,
                                dropped_count(keep),
                            ),
                            evictions: if r is Ok {
                                bumped_by(
                                    old(self).spec_monitoring().evictions,
                                    (without(old(self).spec_buffer()@, job_id@).len() + 1
                                        - final(self).spec_buffer()@.len()) as nat,
                                )
                            } else {
                                old(self).spec_monitoring().evictions
                            },
                            ..old(self).spec_monitoring()
                        })
                    }
            }),
    {
        let loc = measure_locality(activation);
        let loc32: u32 = if loc > u32::MAX as u64 {
            u32::MAX
        } else {
            loc as u32
        };
        let level = decide(entropy, loc32, system_load);
        let ghost seen0 = self.seen_before_update();
        let ghost b0 = self.buffer@;
        let ghost id = job_id@;
        let ghost m0 = self.monitoring;
        let deduped = self.dedup.deduplicate(activation, &mut self.monitoring);
        let ghost keep = choose|keep: Seq<bool>|
            dedup_by(activation@, keep, seen0) && deduped@ == kept_concat(activation@, keep)
                && self.monitoring == (Monitoring {
                deduplication_hits: bumped_by(m0.deduplication_hits, dropped_count(keep)),
                ..m0
            });
        let payload = encode_payload(level, &deduped);
        let ghost cap = self.buffer.spec_capacity();
        match self.buffer.update(job_id, payload) {
            Ok(made_room) => {
                self.monitoring.record_evictions(made_room);
                let ghost u = self.buffer@;
                let n2 = self.eviction.check_eviction_threshold(&mut self.buffer, &mut self.monitoring);
                proof {
                    crate::buffer::lemma_evict_to_fits(u, self.eviction.threshold());
                    assert(made_room + n2 == without(b0, id).len() + 1 - self.buffer@.len());
                }
                assert(dedup_by(activation@, keep, seen0));
                Ok(level)
            },
            Err(e) => {
                assert(dedup_by(activation@, keep, seen0));
                Err(e)
            },
        }
    }

    /// The payload held for `job_id`; counts a hit or a miss.
    pub fn get(&mut self, job_id: &str) -> (r: Option<Vec<u8>>)
        requires
            old(self).wf(),
        ensures
            final(self).wf(),
            final(self).spec_buffer() == old(self).spec_buffer(),
            match r {
                Some(v) => lookup(old(self).spec_buffer()@, job_id@) == Some(v@)
                    && final(self).spec_monitoring() == (Monitoring {
                    cache_hits: bumped(old(self).spec_monitoring().cache_hits),
                    ..old(self).spec_monitoring()
                }),
                None => lookup(old(self).spec_buffer()@, job_id@) is None
                    && final(self).spec_monitoring() == (Monitoring {
                    cache_misses: bumped(old(self).spec_monitoring().cache_misses),
                    ..old(self).spec_monitoring()
                }),
            },
    {
        let r = self.buffer.get_kv_cache(job_id);
        match r {
            Some(_) => self.monitoring.record_cache_hit(),
            None => self.monitoring.record_cache_miss(),
        }
        r
    }

    /// Like `get`, but a miss is the `NotFound` error.
    pub fn fetch(&mut self, job_id: &str) -> (r: Result<Vec<u8>, KVCacheError>)
        requires
            old(self).wf(),
        ensures
            final(self).wf(),
            final(self).spec_buffer() == old(self).spec_buffer(),
            match r {
                Ok(v) => lookup(old(self).spec_buffer()@, job_id@) == Some(v@),
                Err(e) => e == KVCacheError::NotFound && lookup(old(self).spec_buffer()@, job_id@) is None,
            },
    {
        match self.get(job_id) {
            Some(v) => Ok(v),
            None => Err(KVCacheError::NotFound),
        }
    }
    /// The requested jobs that hold no entry, in request order: what a
    /// prefetch has to bring from the store.
    pub fn missing_jobs(&self, job_ids: &Vec<String>) -> (m: Vec<String>)
        requires
            self.wf(),
        ensures
            m@.map_values(|j: String| j@) == job_ids@.map_values(|j: String| j@).filter(
                |id: Seq<char>| lookup(self.spec_buffer()@, id) is None,
            ),
    {
        let ghost ids = job_ids@.map_values(|j: String| j@);
        let ghost pred = |id: Seq<char>| lookup(self.spec_buffer()@, id) is None;
        let mut m: Vec<String> = Vec::new();
        let n = job_ids.len();
        let mut i: usize = 0;
        while i < n
            invariant
                n == job_ids@.len(),
                ids == job_ids@.map_values(|j: String| j@),
                pred == (|id: Seq<char>| lookup(self.spec_buffer()@, id) is None),
                self.wf(),
                i <= n,
                m@.map_values(|j: String| j@) == ids.subrange(0, i as int).filter(pred),
            decreases n - i,
        {
            let ghost before = m@;
            proof {
                let sub = ids.subrange(0, i as int + 1);
                assert(sub.drop_last() =~= ids.subrange(0, i as int));
                assert(sub.filter(pred) == sub.drop_last().filter(pred) + if pred(sub.last()) {
                    seq![sub.last()]
                } else {
                    Seq::<Seq<char>>::empty()
                }) by {
                    reveal(Seq::filter);
                }
            }
            match self.buffer.get_kv_cache(job_ids[i].as_str()) {
                None => {
                    let id = job_ids[i].clone();
                    m.push(id);
                    assert(m@.map_values(|j: String| j@) =~= before.map_values(|j: String| j@).push(ids[i as int]));
                },
                Some(_) => {},
            }
            i = i + 1;
        }
        assert(ids.subrange(0, n as int) =~= ids);
        m
    }

    /// Stages a payload brought by a prefetch, only where it fits beside the
    /// entries held; evicts nothing. Returns whether it was stored.
    pub fn stage_prefetched(&mut self, job_id: String, data: Vec<u8>) -> (stored: bool)
        requires
            old(self).wf(),
        ensures
            final(self).wf(),
            final(self).spec_buffer().spec_capacity() == old(self).spec_buffer().spec_capacity(),
            stored == (crate::buffer::total_size(crate::buffer::without(old(self).spec_buffer()@, job_id@))
                + data@.len() <= old(self).spec_buffer().spec_capacity()),
            stored ==> final(self).spec_buffer()@ == crate::buffer::without(
                old(self).spec_buffer()@,
                job_id@,
            ).push((job_id@, data@)),
            !stored ==> final(self).spec_buffer()@ == old(self).spec_buffer()@,
    {
        self.buffer.add_kv_cache(job_id, data)
    }
}

} // verus!
