//! Block-level duplicate suppression over a value stream, backed by a
//! probabilistic membership filter.
use vstd::prelude::*;
use vstd::arithmetic::div_mod::{lemma_fundamental_div_mod, lemma_fundamental_div_mod_converse};
use bloomfilter::Bloom;
use crate::telemetry::{bumped_by, Monitoring};

verus! {

/// Values per block.
pub const BLOCK_SIZE: usize = 64;

/// Items a filter is sized for; once a generation has recorded this many
/// blocks, the next call starts a new generation with a fresh filter.
pub const FILTER_ITEMS: usize = 10000;

/// Filter size in bytes: about one false positive in a hundred at
/// `FILTER_ITEMS` items.
pub const FILTER_BYTES: usize = 12000;

#[verifier::external_type_specification]
#[verifier::external_body]
#[verifier::reject_recursive_types(T)]
pub struct ExBloom<T: ?Sized>(Bloom<T>);

/// The items a filter reports present: every item recorded so far, and any
/// false positives its bits give.
pub uninterp spec fn bloom_positives(b: Bloom<u64>) -> Set<u64>;

/// FxHash (64-bit) of a block's values, each widened to `i64`.
pub uninterp spec fn fx_hash_of(block: Seq<i32>) -> u64;

/// Relies on `bloomfilter::Bloom::new`: a new filter's bits are all clear,
/// and `check` tests at least one bit, so it reports nothing present. It
/// asserts that both sizes are nonzero and that the size in bits fits in
/// `u64`; its keys come from the system's random source.
#[verifier::external_body]
fn bloom_new(bitmap_size: usize, items_count: usize) -> (b: Bloom<u64>)
    requires
        bitmap_size > 0,
        items_count > 0,
        bitmap_size <= usize::MAX / 8,
    ensures
        bloom_positives(b) == Set::<u64>::empty(),
{
    Bloom::new(bitmap_size, items_count)
}

/// Relies on `bloomfilter::Bloom::check`: reports whether the item is
/// present by the filter's bits.
#[verifier::external_body]
fn bloom_check(b: &Bloom<u64>, item: u64) -> (r: bool)
    ensures
        r == bloom_positives(*b).contains(item),
{
    b.check(&item)
}

/// Relies on `bloomfilter::Bloom::set`: sets the item's bits, so it is
/// reported present from then on; bits are never cleared, so what was
/// reported present stays so.
#[verifier::external_body]
fn bloom_set(b: &mut Bloom<u64>, item: u64)
    ensures
        bloom_positives(*old(b)).insert(item).subset_of(bloom_positives(*final(b))),
{
    b.set(&item)
}

/// Relies on `fxhash::hash64`: over a slice of `i64` it hashes the length and
/// then each value as a word, so the result depends on the values alone.
#[verifier::external_body]
fn block_hash(data: &Vec<i32>, start: usize, end: usize) -> (h: u64)
    requires
        start <= end <= data@.len(),
    ensures
        h == fx_hash_of(data@.subrange(start as int, end as int)),
{
    let words: Vec<i64> = data[start..end].iter().map(|&v| v as i64).collect();
    fxhash::hash64(&words[..])
}

pub open spec fn num_blocks(n: nat) -> nat {
    ((n + BLOCK_SIZE - 1) / BLOCK_SIZE as int) as nat
}

pub open spec fn block_end(n: nat, i: int) -> int {
    if BLOCK_SIZE * i + BLOCK_SIZE <= n {
        BLOCK_SIZE * i + BLOCK_SIZE
    } else {
        n as int
    }
}

/// The `i`-th block of `s`: `BLOCK_SIZE` values, fewer for the last one.
pub open spec fn block_at(s: Seq<i32>, i: int) -> Seq<i32> {
    s.subrange(BLOCK_SIZE * i, block_end(s.len(), i))
}

pub open spec fn block_hash_at(s: Seq<i32>, i: int) -> u64 {
    fx_hash_of(block_at(s, i))
}

/// The blocks of `s` whose flag in `keep` is set, concatenated in order.
pub open spec fn kept_concat(s: Seq<i32>, keep: Seq<bool>) -> Seq<i32>
    decreases keep.len(),
{
    if keep.len() == 0 {
        Seq::empty()
    } else {
        kept_concat(s, keep.drop_last()) + if keep.last() {
            block_at(s, keep.len() - 1)
        } else {
            Seq::empty()
        }
    }
}

/// `keep` is a deduplication of `s` by a filter that reported the hashes
/// of `seen` present at the start: the first block is kept exactly when its
/// hash is not in `seen`; no block is kept whose hash is in `seen` or equals
/// the hash of an earlier block.
pub open spec fn dedup_by(s: Seq<i32>, keep: Seq<bool>, seen: Set<u64>) -> bool {
    &&& keep.len() == num_blocks(s.len())
    &&& keep.len() > 0 ==> (keep[0] <==> !seen.contains(block_hash_at(s, 0)))
    &&& forall|i: int| 0 <= i < keep.len() && #[trigger] keep[i] ==> !seen.contains(block_hash_at(s, i))
    &&& forall|i: int, j: int|
        #![trigger keep[i], block_hash_at(s, j)]
        0 <= j < i < keep.len() && keep[i] ==> block_hash_at(s, j) != block_hash_at(s, i)
}

/// The hashes of the blocks of `s`.
pub open spec fn block_hashes(s: Seq<i32>) -> Set<u64> {
    Set::new(|h: u64| exists|i: int| 0 <= i < num_blocks(s.len()) && block_hash_at(s, i) == h)
}

pub proof fn lemma_kept_concat_len(s: Seq<i32>, keep: Seq<bool>)
    requires
        keep.len() <= num_blocks(s.len()),
    ensures
        kept_concat(s, keep).len() <= if BLOCK_SIZE * keep.len() <= s.len() {
            BLOCK_SIZE * keep.len()
        } else {
            s.len() as int
        },
    decreases keep.len(),
{
    if keep.len() > 0 {
        lemma_kept_concat_len(s, keep.drop_last());
    }
}

/// Concatenates the flagged blocks of `data`.
pub fn keep_blocks(data: &Vec<i32>, keep: &Vec<bool>) -> (r: Vec<i32>)
    requires
        keep@.len() == num_blocks(data@.len()),
    ensures
        r@ == kept_concat(data@, keep@),
        r@.len() <= data@.len(),
{
    let n = data.len();
    let nb = keep.len();
    let mut r: Vec<i32> = Vec::new();
    let mut b: usize = 0;
    while b < nb
        invariant
            n == data@.len(),
            nb == keep@.len(),
            nb == num_blocks(n as nat),
            b <= nb,
            r@ == kept_concat(data@, keep@.subrange(0, b as int)),
        decreases nb - b,
    {
        let ghost prev = r@;
        assert(keep@.subrange(0, b as int + 1).drop_last() =~= keep@.subrange(0, b as int));
        let start = BLOCK_SIZE * b;
        let end = if n - start > BLOCK_SIZE {
            start + BLOCK_SIZE
        } else {
            n
        };
        if keep[b] {
            let mut j = start;
            while j < end
                invariant
                    start <= j <= end <= n,
                    n == data@.len(),
                    r@ == prev + data@.subrange(start as int, j as int),
                decreases end - j,
            {
                r.push(data[j]);
                assert(data@.subrange(start as int, j as int + 1) =~= data@.subrange(
                    start as int,
                    j as int,
                ).push(data@[j as int]));
                j = j + 1;
            }
        } else {
            assert(r@ =~= prev + Seq::<i32>::empty());
        }
        b = b + 1;
    }
    assert(keep@.subrange(0, nb as int) =~= keep@);
    proof {
        lemma_kept_concat_len(data@, keep@);
    }
    r
}

/// Asks `filter` about each block of `data` in order, records the blocks it
/// does not report present, and flags them to be kept.
fn select_unseen_blocks(data: &Vec<i32>, filter: &mut Bloom<u64>) -> (keep: Vec<bool>)
    ensures
        dedup_by(data@, keep@, bloom_positives(*old(filter))),
        bloom_positives(*old(filter)).union(block_hashes(data@)).subset_of(
            bloom_positives(*final(filter)),
        ),
{
    let ghost seen = bloom_positives(*filter);
    let n = data.len();
    let nb: usize = n / BLOCK_SIZE + if n % BLOCK_SIZE == 0 {
        0
    } else {
        1
    };
    let mut keep: Vec<bool> = Vec::new();
    let mut b: usize = 0;
    while b < nb
        invariant
            n == data@.len(),
            nb == num_blocks(n as nat),
            b <= nb,
            keep@.len() == b,
            b > 0 ==> (keep@[0] <==> !seen.contains(block_hash_at(data@, 0))),
            forall|i: int| 0 <= i < b && #[trigger] keep@[i] ==> !seen.contains(block_hash_at(data@, i)),
            forall|i: int, j: int|
                #![trigger keep@[i], block_hash_at(data@, j)]
                0 <= j < i < b && keep@[i] ==> block_hash_at(data@, j) != block_hash_at(data@, i),
            seen.subset_of(bloom_positives(*filter)),
            b == 0 ==> bloom_positives(*filter) == seen,
            forall|j: int| 0 <= j < b ==> bloom_positives(*filter).contains(#[trigger] block_hash_at(data@, j)),
        decreases nb - b,
    {
        let start = BLOCK_SIZE * b;
        let end = if n - start > BLOCK_SIZE {
            start + BLOCK_SIZE
        } else {
            n
        };
        let h = block_hash(data, start, end);
        assert(h == block_hash_at(data@, b as int));
        let ghost before = keep@;
        let ghost p0 = bloom_positives(*filter);
        if !bloom_check(filter, h) {
            bloom_set(filter, h);
            keep.push(true);
            assert forall|j: int| 0 <= j < b implies block_hash_at(data@, j) != block_hash_at(data@, b as int) by {
                assert(p0.contains(block_hash_at(data@, j)));
            }
        } else {
            keep.push(false);
        }
        if b > 0 {
            assert(keep@[0] == before[0]);
        }
        assert forall|i: int| 0 <= i < b + 1 && #[trigger] keep@[i] implies !seen.contains(block_hash_at(data@, i)) by {
            if i < b {
                assert(keep@[i] == before[i]);
            }
        }
        assert forall|i: int, j: int|
            #![trigger keep@[i], block_hash_at(data@, j)]
            0 <= j < i < b + 1 && keep@[i] implies block_hash_at(data@, j) != block_hash_at(data@, i) by {
            if i < b {
                assert(keep@[i] == before[i]);
                assert(before[i]);
            }
        }
        b = b + 1;
    }
    assert(block_hashes(data@).subset_of(bloom_positives(*filter))) by {
        assert forall|x: u64| block_hashes(data@).contains(x) implies bloom_positives(*filter).contains(x) by {
            let i = choose|i: int| 0 <= i < num_blocks(data@.len()) && block_hash_at(data@, i) == x;
            assert(bloom_positives(*filter).contains(block_hash_at(data@, i)));
        }
    }
    keep
}

/// Number of unset flags.
pub open spec fn dropped_count(keep: Seq<bool>) -> nat
    decreases keep.len(),
{
    if keep.len() == 0 {
        0
    } else {
        dropped_count(keep.drop_last()) + if keep.last() {
            0nat
        } else {
            1nat
        }
    }
}

fn count_dropped(keep: &Vec<bool>) -> (n: usize)
    ensures
        n == dropped_count(keep@),
        n <= keep@.len(),
{
    let mut n: usize = 0;
    let mut i: usize = 0;
    while i < keep.len()
        invariant
            i <= keep@.len(),
            n == dropped_count(keep@.subrange(0, i as int)),
            n <= i,
        decreases keep@.len() - i,
    {
        assert(keep@.subrange(0, i as int + 1).drop_last() =~= keep@.subrange(0, i as int));
        if !keep[i] {
            n = n + 1;
        }
        i = i + 1;
    }
    assert(keep@.subrange(0, i as int) =~= keep@);
    n
}

/// A kept first block starts the output.
pub proof fn lemma_kept_first(s: Seq<i32>, keep: Seq<bool>)
    requires
        s.len() > 0,
        0 < keep.len() <= num_blocks(s.len()),
        keep[0],
    ensures
        kept_concat(s, keep).len() > 0,
        kept_concat(s, keep)[0] == s[0],
    decreases keep.len(),
{
    if keep.len() > 1 {
        lemma_kept_first(s, keep.drop_last());
    } else {
        assert(kept_concat(s, keep.drop_last()) =~= Seq::<i32>::empty());
        assert(block_at(s, 0).len() > 0);
    }
}

/// Deduplicates `data` with a fresh filter: keeps each block that the filter
/// does not report present, in order, and records it. The first block of a
/// non-empty stream is always kept, and a block that hashes like an earlier
/// one is always dropped.
pub fn deduplicate_kvcache(data: &Vec<i32>) -> (r: Vec<i32>)
    ensures
        exists|keep: Seq<bool>|
            dedup_by(data@, keep, Set::<u64>::empty()) && r@ == kept_concat(data@, keep),
        r@.len() <= data@.len(),
        data@.len() > 0 ==> r@.len() > 0 && r@[0] == data@[0],
{
    let mut filter = bloom_new(FILTER_BYTES, FILTER_ITEMS);
    let keep = select_unseen_blocks(data, &mut filter);
    proof {
        if data@.len() > 0 {
            lemma_num_blocks_pos(data@.len());
            lemma_kept_first(data@, keep@);
        }
    }
    keep_blocks(data, &keep)
}

/// Deduplicator with one filter per generation. A generation ends once it
/// has recorded `FILTER_ITEMS` blocks: the next call starts with a fresh
/// filter, so that a saturated filter does not drop everything.
pub struct Deduplicator {
    filter: Bloom<u64>,
    recorded: usize,
}

impl Deduplicator {
    /// Hashes that the current generation's filter reports present: at
    /// least those of every block it was asked about.
    pub closed spec fn seen(&self) -> Set<u64> {
        bloom_positives(self.filter)
    }

    /// Blocks recorded in the current generation (saturating).
    pub closed spec fn recorded(&self) -> nat {
        self.recorded as nat
    }

    /// The current generation has recorded as many blocks as the filter is
    /// sized for.
    pub open spec fn generation_full(&self) -> bool {
        self.recorded() >= FILTER_ITEMS
    }

    /// What the next call checks against: nothing when it starts a new
    /// generation.
    pub open spec fn seen_at_next_call(&self) -> Set<u64> {
        if self.generation_full() {
            Set::<u64>::empty()
        } else {
            self.seen()
        }
    }

    pub open spec fn recorded_at_next_call(&self) -> nat {
        if self.generation_full() {
            0
        } else {
            self.recorded()
        }
    }

    pub fn new() -> (d: Deduplicator)
        ensures
            d.seen() == Set::<u64>::empty(),
            d.recorded() == 0,
    {
        Deduplicator { filter: bloom_new(FILTER_BYTES, FILTER_ITEMS), recorded: 0 }
    }

    /// Drops the blocks of `data` that the filter reports present (every
    /// block asked about earlier in this generation, and any false
    /// positive), keeps the others in order, records them, and counts one
    /// deduplication hit per dropped block.
    pub fn deduplicate(&mut self, data: &Vec<i32>, monitoring: &mut Monitoring) -> (r: Vec<i32>)
        ensures
            exists|keep: Seq<bool>|
                {
                    &&& #[trigger] dedup_by(data@, keep, old(self).seen_at_next_call())
                    &&& r@ == kept_concat(data@, keep)
                    &&& *final(monitoring) == (Monitoring {
                        deduplication_hits: bumped_by(
                            old(monitoring).deduplication_hits,
                            dropped_count(keep),
                        ),
                        ..*old(monitoring)
                    })
                    &&& final(self).recorded() == if old(self).recorded_at_next_call() + keep.len()
                        - dropped_count(keep) > usize::MAX {
                        usize::MAX as nat
                    } else {
                        (old(self).recorded_at_next_call() + keep.len() - dropped_count(
                            keep,
                        )) as nat
                    }
                },
            old(self).seen_at_next_call().union(block_hashes(data@)).subset_of(final(self).seen()),
            r@.len() <= data@.len(),
    {
        let ghost seen0 = self.seen_at_next_call();
        if self.recorded >= FILTER_ITEMS {
            self.filter = bloom_new(FILTER_BYTES, FILTER_ITEMS);
            self.recorded = 0;
        }
        let keep = select_unseen_blocks(data, &mut self.filter);
        assert(dedup_by(data@, keep@, seen0));
        let dropped = count_dropped(&keep);
        let kept = keep.len() - dropped;
        self.recorded = self.recorded.saturating_add(kept);
        let mut i: usize = 0;
        let ghost m0 = *monitoring;
        while i < dropped
            invariant
                i <= dropped,
                *monitoring == (Monitoring {
                    deduplication_hits: bumped_by(m0.deduplication_hits, i as nat),
                    ..m0
                }),
            decreases dropped - i,
        {
            monitoring.log_deduplication_hit();
            i = i + 1;
        }
        keep_blocks(data, &keep)
    }
}

/// Deduplication never lengthens a stream.
pub proof fn law_dedup_never_grows(s: Seq<i32>, keep: Seq<bool>, seen: Set<u64>)
    requires
        dedup_by(s, keep, seen),
    ensures
        kept_concat(s, keep).len() <= s.len(),
{
    lemma_kept_concat_len(s, keep);
}

/// A pass that drops a block only when an earlier kept block hashes alike:
/// what a fresh filter without false positives does.
pub open spec fn exact_dedup(s: Seq<i32>, keep: Seq<bool>) -> bool {
    &&& dedup_by(s, keep, Set::<u64>::empty())
    &&& forall|i: int|
        0 <= i < keep.len() && !#[trigger] keep[i] ==> exists|j: int|
            0 <= j < i && keep[j] && block_hash_at(s, j) == block_hash_at(s, i)
}

/// Indices of the set flags, increasing.
pub open spec fn kept_indices(keep: Seq<bool>) -> Seq<int>
    decreases keep.len(),
{
    if keep.len() == 0 {
        Seq::empty()
    } else if keep.last() {
        kept_indices(keep.drop_last()).push(keep.len() - 1)
    } else {
        kept_indices(keep.drop_last())
    }
}

pub open spec fn block_len(s: Seq<i32>, i: int) -> int {
    block_end(s.len(), i) - BLOCK_SIZE * i
}

proof fn lemma_num_blocks(n: nat)
    ensures
        BLOCK_SIZE * num_blocks(n) >= n,
        num_blocks(n) > 0 ==> BLOCK_SIZE * (num_blocks(n) - 1) < n,
        n > 0 ==> num_blocks(n) > 0,
{
    lemma_fundamental_div_mod(n + 63int, 64);
}

proof fn lemma_num_blocks_pos(n: nat)
    requires
        n > 0,
    ensures
        num_blocks(n) > 0,
{
    lemma_num_blocks(n);
}

proof fn lemma_num_blocks_of(c: int, l: int)
    requires
        c >= 1,
        1 <= l <= 64,
    ensures
        num_blocks((64 * (c - 1) + l) as nat) == c,
{
    lemma_fundamental_div_mod_converse(64 * (c - 1) + l + 63, 64, c, l - 1);
}

/// Every block but the last is full, and every block is non-empty.
proof fn lemma_block_len(s: Seq<i32>, i: int)
    requires
        0 <= i < num_blocks(s.len()),
    ensures
        1 <= block_len(s, i) <= BLOCK_SIZE,
        i < num_blocks(s.len()) - 1 ==> block_len(s, i) == BLOCK_SIZE,
{
    lemma_num_blocks(s.len());
}

/// The kept blocks sit one after another in the output, each at a multiple
/// of the block size.
proof fn lemma_kept_layout(s: Seq<i32>, keep: Seq<bool>, k: int)
    requires
        keep.len() == num_blocks(s.len()),
        0 <= k <= keep.len(),
    ensures
        ({
            let idx = kept_indices(keep.subrange(0, k));
            let p = kept_concat(s, keep.subrange(0, k));
            let c = idx.len() as int;
            &&& forall|t: int| 0 <= t < c ==> 0 <= #[trigger] idx[t] < k && keep[idx[t]]
            &&& forall|t1: int, t2: int| 0 <= t1 < t2 < c ==> #[trigger] idx[t1] < #[trigger] idx[t2]
            &&& (c == 0 ==> p.len() == 0)
            &&& (c > 0 ==> p.len() == BLOCK_SIZE * (c - 1) + block_len(s, idx[c - 1]))
            &&& forall|t: int|
                0 <= t < c ==> p.subrange(BLOCK_SIZE * t, BLOCK_SIZE * t + block_len(s, #[trigger] idx[t]))
                    == block_at(s, idx[t])
        }),
    decreases k,
{
    let idx = kept_indices(keep.subrange(0, k));
    let p = kept_concat(s, keep.subrange(0, k));
    if k == 0 {
        assert(keep.subrange(0, 0) =~= Seq::<bool>::empty());
    } else {
        lemma_kept_layout(s, keep, k - 1);
        let sub = keep.subrange(0, k);
        assert(sub.drop_last() =~= keep.subrange(0, k - 1));
        let idx0 = kept_indices(keep.subrange(0, k - 1));
        let p0 = kept_concat(s, keep.subrange(0, k - 1));
        let c0 = idx0.len() as int;
        if keep[k - 1] {
            assert(idx == idx0.push(k - 1));
            assert(p == p0 + block_at(s, k - 1));
            lemma_block_len(s, k - 1);
            if c0 > 0 {
                lemma_block_len(s, idx0[c0 - 1]);
                assert(block_len(s, idx0[c0 - 1]) == BLOCK_SIZE);
            }
            assert(p0.len() == BLOCK_SIZE * c0);
            assert forall|t: int|
                0 <= t < c0 + 1 implies p.subrange(BLOCK_SIZE * t, BLOCK_SIZE * t + block_len(s, #[trigger] idx[t]))
                == block_at(s, idx[t]) by {
                if t < c0 {
                    lemma_block_len(s, idx0[t]);
                    if t < c0 - 1 {
                        lemma_block_len(s, idx0[c0 - 1]);
                    }
                    assert(BLOCK_SIZE * t + block_len(s, idx0[t]) <= p0.len());
                    assert(p.subrange(BLOCK_SIZE * t, BLOCK_SIZE * t + block_len(s, idx[t]))
                        =~= p0.subrange(BLOCK_SIZE * t, BLOCK_SIZE * t + block_len(s, idx0[t])));
                } else {
                    assert(p.subrange(BLOCK_SIZE * t, BLOCK_SIZE * t + block_len(s, idx[t]))
                        =~= block_at(s, k - 1));
                }
            }
        } else {
            assert(idx == idx0);
            assert(p =~= p0);
        }
    }
}

/// Keeping every block of a stream gives it back.
proof fn lemma_keep_all(r: Seq<i32>, keep: Seq<bool>, k: int)
    requires
        keep.len() == num_blocks(r.len()),
        forall|t: int| 0 <= t < keep.len() ==> #[trigger] keep[t],
        0 <= k <= keep.len(),
    ensures
        kept_concat(r, keep.subrange(0, k)) == r.subrange(
            0,
            if k == 0 {
                0
            } else {
                block_end(r.len(), k - 1)
            },
        ),
    decreases k,
{
    if k == 0 {
        assert(keep.subrange(0, 0) =~= Seq::<bool>::empty());
        assert(r.subrange(0, 0) =~= Seq::<i32>::empty());
    } else {
        lemma_keep_all(r, keep, k - 1);
        assert(keep.subrange(0, k).drop_last() =~= keep.subrange(0, k - 1));
        lemma_num_blocks(r.len());
        if k > 1 {
            lemma_block_len(r, k - 2);
        }
        assert(kept_concat(r, keep.subrange(0, k)) =~= r.subrange(0, block_end(r.len(), k - 1)));
    }
}

/// Deduplicating a deduplicated stream again, with a fresh filter that
/// reports only the blocks it recorded, gives the same stream: no block of
/// a deduplicated stream hashes like an earlier one.
pub proof fn law_dedup_idempotent(s: Seq<i32>, keep: Seq<bool>, seen: Set<u64>, again: Seq<bool>)
    requires
        dedup_by(s, keep, seen),
        exact_dedup(kept_concat(s, keep), again),
    ensures
        kept_concat(kept_concat(s, keep), again) == kept_concat(s, keep),
{
    let r = kept_concat(s, keep);
    let n = keep.len() as int;
    assert(keep.subrange(0, n) =~= keep);
    lemma_kept_layout(s, keep, n);
    let idx = kept_indices(keep);
    let c = idx.len() as int;
    // The output has one block per kept block, each equal to it.
    if c > 0 {
        lemma_block_len(s, idx[c - 1]);
        lemma_num_blocks_of(c, block_len(s, idx[c - 1]));
    }
    assert(num_blocks(r.len()) == c);
    assert forall|t: int| 0 <= t < c implies block_at(r, t) == block_at(s, #[trigger] idx[t]) by {
        lemma_block_len(s, idx[t]);
        lemma_block_len(s, idx[c - 1]);
        if t < c - 1 {
            lemma_block_len(s, idx[c - 1]);
            assert(idx[t] < idx[c - 1]);
        }
        assert(block_end(r.len(), t) == BLOCK_SIZE * t + block_len(s, idx[t]));
    }
    // Their hashes differ, so the exact pass drops nothing.
    assert forall|t: int| 0 <= t < again.len() implies #[trigger] again[t] by {
        if !again[t] {
            let j = choose|j: int| 0 <= j < t && again[j] && block_hash_at(r, j) == block_hash_at(r, t);
            assert(block_at(r, j) == block_at(s, idx[j]));
            assert(block_at(r, t) == block_at(s, idx[t]));
            assert(idx[j] < idx[t]);
            assert(keep[idx[j]] && keep[idx[t]]);
            assert(block_hash_at(s, idx[j]) != block_hash_at(s, idx[t]));
        }
    }
    lemma_keep_all(r, again, c);
    assert(again.subrange(0, c) =~= again);
    if c > 0 {
        lemma_num_blocks(r.len());
    } else {
        assert(r.len() == 0);
    }
    assert(r.subrange(0, if c == 0 { 0 } else { block_end(r.len(), c - 1) }) =~= r);
}

} // verus!
