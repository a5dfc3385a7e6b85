//! Fixed-capacity byte store holding the latest payload of each job, oldest
//! insertion first.
use vstd::prelude::*;

verus! {

/// Errors of the cache path.
#[derive(Clone, Copy, Debug, PartialEq, Eq, Structural)]
pub enum KVCacheError {
    /// The payload alone is larger than the buffer.
    CapacityExceeded,
    /// No entry is held for the job.
    NotFound,
    /// The external store could not be reached.
    StorageUnavailable,
}

/// One job's cached payload.
pub struct CacheEntry {
    pub job_id: String,
    pub payload: Vec<u8>,
}

/// An entry as the contracts see it: job id and payload.
pub type EntryView = (Seq<char>, Seq<u8>);

/// Sum of the payload sizes.
pub open spec fn total_size(s: Seq<EntryView>) -> nat
    decreases s.len(),
{
    if s.len() == 0 {
        0
    } else {
        total_size(s.drop_last()) + s.last().1.len()
    }
}

/// `s` without the entries of `id`, order kept.
pub open spec fn without(s: Seq<EntryView>, id: Seq<char>) -> Seq<EntryView>
    decreases s.len(),
{
    if s.len() == 0 {
        s
    } else if s.last().0 == id {
        without(s.drop_last(), id)
    } else {
        without(s.drop_last(), id).push(s.last())
    }
}

/// Drops the oldest entries until the sizes sum to at most `limit` or
/// nothing is left.
pub open spec fn evict_to(s: Seq<EntryView>, limit: nat) -> Seq<EntryView>
    decreases s.len(),
{
    if s.len() == 0 || total_size(s) <= limit {
        s
    } else {
        evict_to(s.subrange(1, s.len() as int), limit)
    }
}

/// No job id occurs twice.
pub open spec fn unique_ids(s: Seq<EntryView>) -> bool {
    forall|i: int, j: int| 0 <= i < j < s.len() ==> s[i].0 != s[j].0
}

/// The payload held for `id`, if any.
pub open spec fn lookup(s: Seq<EntryView>, id: Seq<char>) -> Option<Seq<u8>> {
    if exists|i: int| 0 <= i < s.len() && s[i].0 == id {
        Some(s[choose|i: int| 0 <= i < s.len() && s[i].0 == id].1)
    } else {
        None
    }
}

/// The entries after a successful `update` of `id` with `bytes`: the old
/// entry of `id` goes, the oldest others leave until the new payload fits
/// beside them in `capacity`, and the new entry is the newest.
pub open spec fn updated(s: Seq<EntryView>, id: Seq<char>, bytes: Seq<u8>, capacity: nat) -> Seq<
    EntryView,
> {
    evict_to(without(s, id), (capacity - bytes.len()) as nat).push((id, bytes))
}

pub proof fn lemma_total_size_front(s: Seq<EntryView>)
    requires
        s.len() > 0,
    ensures
        total_size(s) == s[0].1.len() + total_size(s.subrange(1, s.len() as int)),
    decreases s.len(),
{
    if s.len() > 1 {
        let t = s.subrange(1, s.len() as int);
        lemma_total_size_front(s.drop_last());
        assert(s.drop_last().subrange(1, s.drop_last().len() as int) =~= t.drop_last());
    } else {
        assert(s.drop_last() =~= Seq::<EntryView>::empty());
        assert(s.subrange(1, s.len() as int) =~= Seq::<EntryView>::empty());
    }
}

pub proof fn lemma_evict_to_fits(s: Seq<EntryView>, limit: nat)
    ensures
        evict_to(s, limit).len() == 0 || total_size(evict_to(s, limit)) <= limit,
        evict_to(s, limit).len() <= s.len(),
        total_size(evict_to(s, limit)) <= total_size(s),
        evict_to(s, limit) =~= s.subrange(s.len() - evict_to(s, limit).len(), s.len() as int),
    decreases s.len(),
{
    if s.len() == 0 || total_size(s) <= limit {
    } else {
        let t = s.subrange(1, s.len() as int);
        lemma_evict_to_fits(t, limit);
        lemma_total_size_front(s);
    }
}

pub proof fn lemma_without_size(s: Seq<EntryView>, id: Seq<char>)
    ensures
        total_size(without(s, id)) <= total_size(s),
        without(s, id).len() <= s.len(),
        forall|i: int| 0 <= i < without(s, id).len() ==> without(s, id)[i].0 != id,
        unique_ids(s) ==> unique_ids(without(s, id)),
        forall|i: int|
            0 <= i < without(s, id).len() ==> exists|j: int|
                0 <= j < s.len() && s[j] == #[trigger] without(s, id)[i],
    decreases s.len(),
{
    if s.len() > 0 {
        lemma_without_size(s.drop_last(), id);
        let w = without(s.drop_last(), id);
        if s.last().0 != id {
            assert(without(s, id) == w.push(s.last()));
            assert(w.push(s.last()).drop_last() =~= w);
            assert forall|i: int| 0 <= i < without(s, id).len() implies exists|j: int|
                0 <= j < s.len() && s[j] == #[trigger] without(s, id)[i] by {
                if i < w.len() {
                    let j = choose|j: int| 0 <= j < s.drop_last().len() && s.drop_last()[j] == w[i];
                    assert(s[j] == without(s, id)[i]);
                } else {
                    assert(s[s.len() - 1] == without(s, id)[i]);
                }
            }
            if unique_ids(s) {
                assert(unique_ids(s.drop_last()));
                assert forall|i: int, j: int|
                    0 <= i < j < without(s, id).len() implies without(s, id)[i].0 != without(
                    s,
                    id,
                )[j].0 by {
                    if j == w.len() {
                        let k = choose|k: int| 0 <= k < s.drop_last().len() && s.drop_last()[k] == w[i];
                        assert(s[k] == w[i]);
                    }
                }
            }
        } else {
            if unique_ids(s) {
                assert(unique_ids(s.drop_last()));
            }
        }
    }
}


pub proof fn lemma_without_absent(s: Seq<EntryView>, id: Seq<char>)
    requires
        forall|i: int| 0 <= i < s.len() ==> s[i].0 != id,
    ensures
        without(s, id) == s,
    decreases s.len(),
{
    if s.len() > 0 {
        lemma_without_absent(s.drop_last(), id);
        assert(s.drop_last().push(s.last()) =~= s);
    }
}

/// With unique ids, dropping the entries of `id` removes exactly the one at
/// `k`.
pub proof fn lemma_without_at(s: Seq<EntryView>, id: Seq<char>, k: int)
    requires
        unique_ids(s),
        0 <= k < s.len(),
        s[k].0 == id,
    ensures
        without(s, id) == s.remove(k),
        total_size(s) == total_size(s.remove(k)) + s[k].1.len(),
    decreases s.len(),
{
    let d = s.drop_last();
    if k == s.len() - 1 {
        lemma_without_absent(d, id);
        assert(s.remove(k) =~= d);
    } else {
        assert(unique_ids(d));
        lemma_without_at(d, id, k);
        assert(s.remove(k) =~= d.remove(k).push(s.last()));
        assert(s.remove(k).drop_last() =~= d.remove(k));
    }
}

pub proof fn lemma_push_unique(s: Seq<EntryView>, e: EntryView)
    requires
        unique_ids(s),
        forall|i: int| 0 <= i < s.len() ==> s[i].0 != e.0,
    ensures
        unique_ids(s.push(e)),
        total_size(s.push(e)) == total_size(s) + e.1.len(),
{
    assert(s.push(e).drop_last() =~= s);
}

pub proof fn lemma_unique_subrange(s: Seq<EntryView>, lo: int)
    requires
        unique_ids(s),
        0 <= lo <= s.len(),
    ensures
        unique_ids(s.subrange(lo, s.len() as int)),
{
}

/// Fixed-capacity store of the latest payload per job.
pub open spec fn entries_view(q: Seq<CacheEntry>) -> Seq<EntryView> {
    q.map_values(|e: CacheEntry| (e.job_id@, e.payload@))
}

/// Pops the oldest entries while `used` exceeds `limit`; returns how many
/// left.
fn evict_front(
    entries: &mut std::collections::VecDeque<CacheEntry>,
    used: &mut usize,
    limit: usize,
) -> (count: usize)
    requires
        *old(used) == total_size(entries_view(old(entries)@)),
    ensures
        entries_view(final(entries)@) == evict_to(entries_view(old(entries)@), limit as nat),
        *final(used) == total_size(entries_view(final(entries)@)),
        count == old(entries)@.len() - final(entries)@.len(),
{
    let ghost s0 = entries_view(entries@);
    let n0 = entries.len();
    let mut count: usize = 0;
    while *used > limit && entries.len() > 0
        invariant
            evict_to(entries_view(entries@), limit as nat) == evict_to(s0, limit as nat),
            *used == total_size(entries_view(entries@)),
            count + entries@.len() == n0,
        decreases entries@.len(),
    {
        let ghost before = entries_view(entries@);
        proof {
            lemma_total_size_front(before);
        }
        match entries.pop_front() {
            Some(e) => {
                assert(entries_view(entries@) =~= before.subrange(1, before.len() as int));
                *used = *used - e.payload.len();
                count = count + 1;
            },
            None => {},
        }
    }
    count
}

pub struct MemoryBuffer {
    capacity: usize,
    used: usize,
    kv_caches: std::collections::VecDeque<CacheEntry>,
}

impl View for MemoryBuffer {
    type V = Seq<EntryView>;

    closed spec fn view(&self) -> Seq<EntryView> {
        entries_view(self.kv_caches@)
    }
}

impl MemoryBuffer {
    pub closed spec fn spec_capacity(&self) -> nat {
        self.capacity as nat
    }

    pub closed spec fn spec_used(&self) -> nat {
        self.used as nat
    }

    /// Usage is the sum of the payload sizes and fits the capacity; each job
    /// holds one entry.
    pub open spec fn wf(&self) -> bool {
        &&& self.spec_used() == total_size(self@)
        &&& self.spec_used() <= self.spec_capacity()
        &&& unique_ids(self@)
    }

    pub fn new(capacity: usize) -> (b: MemoryBuffer)
        ensures
            b.wf(),
            b@ == Seq::<EntryView>::empty(),
            b.spec_capacity() == capacity,
    {
        let b = MemoryBuffer { capacity, used: 0, kv_caches: std::collections::VecDeque::new() };
        assert(b@ =~= Seq::<EntryView>::empty());
        b
    }

    pub fn capacity(&self) -> (c: usize)
        ensures
            c == self.spec_capacity(),
    {
        self.capacity
    }

    pub fn used(&self) -> (u: usize)
        ensures
            u == self.spec_used(),
    {
        self.used
    }

    /// Position of `job_id`'s entry.
    fn find(&self, job_id: &String) -> (r: Option<usize>)
        ensures
            match r {
                Some(k) => k < self@.len() && self@[k as int].0 == job_id@,
                None => forall|i: int| 0 <= i < self@.len() ==> self@[i].0 != job_id@,
            },
    {
        let n = self.kv_caches.len();
        let mut i: usize = 0;
        while i < n
            invariant
                n == self@.len(),
                i <= n,
                forall|j: int| 0 <= j < i ==> self@[j].0 != job_id@,
            decreases n - i,
        {
            if self.kv_caches[i].job_id == *job_id {
                return Some(i);
            }
            i = i + 1;
        }
        None
    }

    /// The payload held for `job_id`.
    pub fn get_kv_cache(&self, job_id: &str) -> (r: Option<Vec<u8>>)
        requires
            self.wf(),
        ensures
            match r {
                Some(v) => lookup(self@, job_id@) == Some(v@),
                None => lookup(self@, job_id@) is None,
            },
    {
        let id = job_id.to_owned();
        match self.find(&id) {
            Some(k) => {
                let v = self.kv_caches[k].payload.clone();
                proof {
                    let c = choose|i: int| 0 <= i < self@.len() && self@[i].0 == job_id@;
                    assert(c == k);
                }
                Some(v)
            },
            None => None,
        }
    }

    /// Takes out the entry of `job_id`, if any.
    fn remove_job(&mut self, job_id: &String)
        requires
            old(self).spec_used() == total_size(old(self)@),
            unique_ids(old(self)@),
        ensures
            final(self)@ == without(old(self)@, job_id@),
            final(self).spec_used() == total_size(final(self)@),
            final(self).capacity == old(self).capacity,
            unique_ids(final(self)@),
    {
        proof {
            lemma_without_size(self@, job_id@);
        }
        match self.find(job_id) {
            Some(k) => {
                proof {
                    lemma_without_at(self@, job_id@, k as int);
                }
                let ghost before = self@;
                let removed = self.kv_caches.remove(k);
                match removed {
                    Some(e) => {
                        assert(self@ =~= before.remove(k as int));
                        self.used = self.used - e.payload.len();
                    },
                    None => {},
                }
            },
            None => {
                proof {
                    lemma_without_absent(self@, job_id@);
                }
            },
        }
    }

    /// Replaces the payload of `job_id`. Fails when the payload alone is
    /// larger than the buffer; otherwise the oldest other entries leave
    /// until it fits, and it becomes the newest entry. Returns how many
    /// entries were evicted to make room.
    pub fn update(&mut self, job_id: String, data: Vec<u8>) -> (r: Result<usize, KVCacheError>)
        requires
            old(self).wf(),
        ensures
            final(self).wf(),
            final(self).spec_capacity() == old(self).spec_capacity(),
            data@.len() > old(self).spec_capacity() <==> r == Err::<usize, KVCacheError>(
                KVCacheError::CapacityExceeded,
            ),
            data@.len() <= old(self).spec_capacity() ==> r is Ok,
            r is Err ==> r == Err::<usize, KVCacheError>(KVCacheError::CapacityExceeded),
            r is Err ==> final(self)@ == old(self)@,
            r matches Ok(n) ==> {
                &&& final(self)@ == updated(
                    old(self)@,
                    job_id@,
                    data@,
                    old(self).spec_capacity(),
                )
                &&& n == without(old(self)@, job_id@).len() + 1 - final(self)@.len()
            },
    {
        if data.len() > self.capacity {
            return Err(KVCacheError::CapacityExceeded);
        }
        let ghost s0 = self@;
        self.remove_job(&job_id);
        let ghost w = self@;
        let limit = self.capacity - data.len();
        let count = evict_front(&mut self.kv_caches, &mut self.used, limit);
        proof {
            lemma_evict_to_fits(w, limit as nat);
            lemma_without_size(s0, job_id@);
            lemma_unique_subrange(w, w.len() - self@.len());
            assert forall|i: int| 0 <= i < self@.len() implies self@[i].0 != job_id@ by {
                assert(self@[i] == w[w.len() - self@.len() + i]);
            }
            lemma_push_unique(self@, (job_id@, data@));
        }
        let ghost e = self@;
        self.used = self.used + data.len();
        self.kv_caches.push_back(CacheEntry { job_id, payload: data });
        assert(self@ =~= e.push((job_id@, data@)));
        Ok(count)
    }

    /// Stores `data` for `job_id` only where it fits beside the other
    /// entries; evicts nothing. Returns whether it was stored.
    pub fn add_kv_cache(&mut self, job_id: String, data: Vec<u8>) -> (stored: bool)
        requires
            old(self).wf(),
        ensures
            final(self).wf(),
            final(self).spec_capacity() == old(self).spec_capacity(),
            stored == (total_size(without(old(self)@, job_id@)) + data@.len()
                <= old(self).spec_capacity()),
            stored ==> final(self)@ == without(old(self)@, job_id@).push((job_id@, data@)),
            !stored ==> final(self)@ == old(self)@,
    {
        let old_size: usize = match self.find(&job_id) {
            Some(k) => {
                proof {
                    lemma_without_at(self@, job_id@, k as int);
                }
                self.kv_caches[k].payload.len()
            },
            None => {
                proof {
                    lemma_without_absent(self@, job_id@);
                }
                0
            },
        };
        let others = self.used - old_size;
        if data.len() > self.capacity - others {
            return false;
        }
        let ghost s0 = self@;
        self.remove_job(&job_id);
        proof {
            lemma_without_size(s0, job_id@);
            lemma_push_unique(self@, (job_id@, data@));
        }
        let ghost e = self@;
        self.used = self.used + data.len();
        self.kv_caches.push_back(CacheEntry { job_id, payload: data });
        assert(self@ =~= e.push((job_id@, data@)));
        true
    }

    /// Evicts the oldest entries while usage exceeds `threshold`. Returns how
    /// many left.
    pub fn check_and_evict(&mut self, threshold: usize) -> (evicted: usize)
        requires
            old(self).wf(),
        ensures
            final(self).wf(),
            final(self).spec_capacity() == old(self).spec_capacity(),
            final(self)@ == evict_to(old(self)@, threshold as nat),
            final(self)@.len() == 0 || final(self).spec_used() <= threshold,
            evicted == old(self)@.len() - final(self)@.len(),
    {
        let ghost s0 = self@;
        let count = evict_front(&mut self.kv_caches, &mut self.used, threshold);
        proof {
            lemma_evict_to_fits(s0, threshold as nat);
            lemma_unique_subrange(s0, s0.len() - self@.len());
        }
        count
    }

    /// Number of entries held.
    pub fn len(&self) -> (n: usize)
        ensures
            n == self@.len(),
    {
        self.kv_caches.len()
    }

    pub fn is_empty(&self) -> (r: bool)
        ensures
            r == (self@.len() == 0),
    {
        self.kv_caches.len() == 0
    }
}

} // verus!
