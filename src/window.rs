//! Bounded FIFO window of feed-forward weight rows, one per neuron index.
use vstd::prelude::*;

verus! {

/// One neuron's weights and bias.
pub struct WeightRow<W> {
    pub neuron_index: usize,
    pub weights: Vec<W>,
    pub bias: W,
}

/// The resident indices after offering `idx` to a window of `cap` rows: a
/// resident index stays where it is; otherwise, when the window is full, the
/// oldest row leaves and `idx` becomes the newest.
pub open spec fn window_insert(s: Seq<usize>, idx: usize, cap: nat) -> Seq<usize> {
    if s.contains(idx) || cap == 0 {
        s
    } else if s.len() >= cap {
        s.subrange(1, s.len() as int).push(idx)
    } else {
        s.push(idx)
    }
}

/// Offers the indices of `idxs` in order.
pub open spec fn window_insert_all(s: Seq<usize>, idxs: Seq<usize>, cap: nat) -> Seq<usize>
    decreases idxs.len(),
{
    if idxs.len() == 0 {
        s
    } else {
        window_insert(window_insert_all(s, idxs.drop_last(), cap), idxs.last(), cap)
    }
}

/// The indices of `p`, first occurrences only, that are not in `resident`.
pub open spec fn missing_spec(resident: Seq<usize>, p: Seq<usize>) -> Seq<usize>
    decreases p.len(),
{
    if p.len() == 0 {
        p
    } else {
        let m = missing_spec(resident, p.drop_last());
        if resident.contains(p.last()) || m.contains(p.last()) {
            m
        } else {
            m.push(p.last())
        }
    }
}

pub open spec fn row_indices<W>(s: Seq<WeightRow<W>>) -> Seq<usize> {
    s.map_values(|r: WeightRow<W>| r.neuron_index)
}

/// The resident rows after offering `row`, as `window_insert` does for the
/// indices.
pub open spec fn insert_row<W>(s: Seq<WeightRow<W>>, row: WeightRow<W>, cap: nat) -> Seq<WeightRow<W>> {
    if row_indices(s).contains(row.neuron_index) || cap == 0 {
        s
    } else if s.len() >= cap {
        s.subrange(1, s.len() as int).push(row)
    } else {
        s.push(row)
    }
}

/// Offers the rows of `rows` in order.
pub open spec fn insert_rows_all<W>(s: Seq<WeightRow<W>>, rows: Seq<WeightRow<W>>, cap: nat) -> Seq<
    WeightRow<W>,
>
    decreases rows.len(),
{
    if rows.len() == 0 {
        s
    } else {
        insert_row(insert_rows_all(s, rows.drop_last(), cap), rows.last(), cap)
    }
}

pub open spec fn no_duplicates(s: Seq<usize>) -> bool {
    forall|i: int, j: int| 0 <= i < j < s.len() ==> s[i] != s[j]
}

/// The window keeps no index twice and never holds more than `cap` rows.
pub proof fn lemma_window_insert_wf(s: Seq<usize>, idx: usize, cap: nat)
    requires
        no_duplicates(s),
        s.len() <= cap,
    ensures
        no_duplicates(window_insert(s, idx, cap)),
        window_insert(s, idx, cap).len() <= cap,
{
    if !(s.contains(idx) || cap == 0) {
        let t = if s.len() >= cap {
            s.subrange(1, s.len() as int)
        } else {
            s
        };
        assert forall|i: int| 0 <= i < t.len() implies t[i] != idx by {
            if s.len() >= cap {
                assert(t[i] == s[i + 1]);
            }
        }
        assert(window_insert(s, idx, cap) == t.push(idx));
    }
}

/// Bounded FIFO of weight rows.
pub struct SlidingWindowCache<W> {
    window_size: usize,
    rows: std::collections::VecDeque<WeightRow<W>>,
}

impl<W> View for SlidingWindowCache<W> {
    type V = Seq<usize>;

    /// Resident neuron indices, oldest first.
    closed spec fn view(&self) -> Seq<usize> {
        self.rows@.map_values(|r: WeightRow<W>| r.neuron_index)
    }
}

impl<W> SlidingWindowCache<W> {
    pub closed spec fn capacity(&self) -> nat {
        self.window_size as nat
    }

    /// Resident rows, oldest first.
    pub closed spec fn rows(&self) -> Seq<WeightRow<W>> {
        self.rows@
    }

    pub open spec fn wf(&self) -> bool {
        &&& self@ == row_indices(self.rows())
        &&& no_duplicates(self@)
        &&& self@.len() <= self.capacity()
    }

    pub fn new(window_size: usize) -> (w: SlidingWindowCache<W>)
        ensures
            w.wf(),
            w@ == Seq::<usize>::empty(),
            w.rows() == Seq::<WeightRow<W>>::empty(),
            w.capacity() == window_size,
    {
        let w = SlidingWindowCache { window_size, rows: std::collections::VecDeque::new() };
        assert(w@ =~= Seq::<usize>::empty());
        assert(w@ =~= row_indices(w.rows()));
        w
    }

    pub fn window_size(&self) -> (n: usize)
        ensures
            n == self.capacity(),
    {
        self.window_size
    }

    pub fn len(&self) -> (n: usize)
        ensures
            n == self@.len(),
    {
        self.rows.len()
    }

    /// The `i`-th resident row, oldest first.
    pub fn row_at(&self, i: usize) -> (r: &WeightRow<W>)
        requires
            i < self@.len(),
        ensures
            r.neuron_index == self@[i as int],
            *r == self.rows()[i as int],
    {
        &self.rows[i]
    }

    pub fn contains(&self, neuron_index: usize) -> (r: bool)
        ensures
            r == self@.contains(neuron_index),
    {
        let n = self.rows.len();
        let mut i: usize = 0;
        while i < n
            invariant
                n == self@.len(),
                i <= n,
                forall|j: int| 0 <= j < i ==> self@[j] != neuron_index,
            decreases n - i,
        {
            if self.rows[i].neuron_index == neuron_index {
                assert(self@[i as int] == neuron_index);
                return true;
            }
            i = i + 1;
        }
        false
    }

    /// Offers one row. A resident index is left as it is (not moved, not
    /// refreshed); otherwise the oldest row leaves first when the window is
    /// full. Returns the index evicted, if one was.
    pub fn insert(&mut self, row: WeightRow<W>) -> (evicted: Option<usize>)
        requires
            old(self).wf(),
        ensures
            final(self).wf(),
            final(self).capacity() == old(self).capacity(),
            final(self)@ == window_insert(old(self)@, row.neuron_index, old(self).capacity()),
            final(self).rows() == insert_row(old(self).rows(), row, old(self).capacity()),
            evicted == (if !old(self)@.contains(row.neuron_index) && old(self).capacity() > 0
                && old(self)@.len() >= old(self).capacity() {
                Some(old(self)@[0])
            } else {
                None::<usize>
            }),
    {
        proof {
            lemma_window_insert_wf(self@, row.neuron_index, self.capacity());
        }
        if self.window_size == 0 || self.contains(row.neuron_index) {
            return None;
        }
        let ghost s0 = self@;
        let mut evicted: Option<usize> = None;
        if self.rows.len() >= self.window_size {
            match self.rows.pop_front() {
                Some(r) => {
                    evicted = Some(r.neuron_index);
                },
                None => {},
            }
            assert(self@ =~= s0.subrange(1, s0.len() as int));
        }
        let ghost s1 = self@;
        let ghost r1 = self.rows@;
        let idx = row.neuron_index;
        let ghost rw = row;
        self.rows.push_back(row);
        assert(self@ =~= s1.push(idx));
        assert(self.rows@ == r1.push(rw));
        assert(self@ =~= row_indices(self.rows()));
        evicted
    }

    /// Shrinks or grows the window; the oldest rows leave while more than
    /// `window_size` are resident.
    pub fn resize(&mut self, window_size: usize)
        requires
            old(self).wf(),
        ensures
            final(self).wf(),
            final(self).capacity() == window_size,
            final(self)@ == (if old(self)@.len() <= window_size {
                old(self)@
            } else {
                old(self)@.subrange(old(self)@.len() - window_size, old(self)@.len() as int)
            }),
            final(self).rows() == (if old(self)@.len() <= window_size {
                old(self).rows()
            } else {
                old(self).rows().subrange(old(self)@.len() - window_size, old(self)@.len() as int)
            }),
    {
        let ghost s0 = self@;
        let ghost rows0 = self.rows@;
        while self.rows.len() > window_size
            invariant
                self@.len() >= window_size ==> self@ == s0.subrange(
                    s0.len() - self@.len(),
                    s0.len() as int,
                ),
                self.rows@.len() >= window_size ==> self.rows@ == rows0.subrange(
                    rows0.len() - self.rows@.len(),
                    rows0.len() as int,
                ),
                s0.len() <= window_size ==> self.rows@ == rows0,
                rows0.len() == s0.len(),
                self@.len() <= s0.len(),
                s0.len() > window_size ==> self@.len() >= window_size,
                s0.len() <= window_size ==> self@ == s0,
                no_duplicates(s0),
            decreases self@.len(),
        {
            let ghost before = self@;
            let ghost rb = self.rows@;
            let _ = self.rows.pop_front();
            assert(self@ =~= before.subrange(1, before.len() as int));
            assert(self.rows@ =~= rb.subrange(1, rb.len() as int));
        }
        self.window_size = window_size;
        assert(no_duplicates(self@)) by {
            if s0.len() > window_size {
                assert forall|i: int, j: int| 0 <= i < j < self@.len() implies self@[i] != self@[j] by {
                    assert(self@[i] == s0[s0.len() - self@.len() + i]);
                    assert(self@[j] == s0[s0.len() - self@.len() + j]);
                }
            }
        }
    }

    /// The indices of `predicted`, first occurrences only, that are not
    /// resident: what has to be fetched.
    pub fn missing(&self, predicted: &Vec<usize>) -> (m: Vec<usize>)
        ensures
            m@ == missing_spec(self@, predicted@),
    {
        let mut m: Vec<usize> = Vec::new();
        let n = predicted.len();
        let mut i: usize = 0;
        while i < n
            invariant
                n == predicted@.len(),
                i <= n,
                m@ == missing_spec(self@, predicted@.subrange(0, i as int)),
            decreases n - i,
        {
            let idx = predicted[i];
            let ghost p = predicted@.subrange(0, i as int + 1);
            assert(p.drop_last() =~= predicted@.subrange(0, i as int));
            let resident = self.contains(idx);
            let mut seen = false;
            let mut j: usize = 0;
            while j < m.len()
                invariant
                    j <= m@.len(),
                    seen == (exists|k: int| 0 <= k < j && m@[k] == idx),
                decreases m@.len() - j,
            {
                if m[j] == idx {
                    seen = true;
                }
                j = j + 1;
            }
            if !resident && !seen {
                m.push(idx);
            }
            i = i + 1;
        }
        assert(predicted@.subrange(0, n as int) =~= predicted@);
        m
    }
}

} // verus!
