//! Active-neuron prediction and the weight window that follows it.
use vstd::prelude::*;
use crate::window::{insert_rows_all, window_insert_all, SlidingWindowCache, WeightRow};

verus! {

/// A row is active when its largest value exceeds this (in thousandths).
pub const ACTIVATION_THRESHOLD: i32 = 500;

/// A neuron is selected when its predicted probability exceeds this (in
/// thousandths).
pub const PROBABILITY_THRESHOLD: u32 = 500;

/// Which predictor a manager was built with: the learned one exists only
/// where activity history was supplied at construction.
#[derive(Clone, Copy, Debug, PartialEq, Eq, Structural)]
pub enum PredictorMode {
    Learned,
    Heuristic,
}

/// Some value of `row` exceeds the activation threshold.
pub open spec fn row_active(row: Seq<i32>) -> bool {
    exists|j: int| 0 <= j < row.len() && row[j] > ACTIVATION_THRESHOLD
}

/// Indices `0..n`.
pub open spec fn all_indices(n: nat) -> Seq<usize> {
    Seq::new(n, |i: int| i as usize)
}

/// Indices `i < n` with `pick(i)`, increasing.
pub open spec fn indices_where(n: nat, pick: spec_fn(int) -> bool) -> Seq<usize>
    decreases n,
{
    if n == 0 {
        Seq::empty()
    } else {
        let s = indices_where((n - 1) as nat, pick);
        if pick(n - 1) {
            s.push((n - 1) as usize)
        } else {
            s
        }
    }
}

/// The heuristic choice: the rows with a value above the threshold, or every
/// row when none has one.
pub open spec fn heuristic_spec(rows: Seq<Seq<i32>>) -> Seq<usize> {
    let s = indices_where(rows.len(), |i: int| row_active(rows[i]));
    if s.len() == 0 {
        all_indices(rows.len())
    } else {
        s
    }
}

/// The learned choice: the neurons whose probability exceeds the threshold.
pub open spec fn learned_spec(probabilities: Seq<u32>) -> Seq<usize> {
    indices_where(probabilities.len(), |i: int| probabilities[i] > PROBABILITY_THRESHOLD)
}

fn row_is_active(row: &Vec<i32>) -> (r: bool)
    ensures
        r == row_active(row@),
{
    let mut j: usize = 0;
    while j < row.len()
        invariant
            j <= row@.len(),
            forall|k: int| 0 <= k < j ==> row@[k] <= ACTIVATION_THRESHOLD,
        decreases row@.len() - j,
    {
        if row[j] > ACTIVATION_THRESHOLD {
            return true;
        }
        j = j + 1;
    }
    false
}

/// Fallback predictor: per-row maximum above a fixed threshold.
pub fn heuristic_active_neurons(rows: &Vec<Vec<i32>>) -> (r: Vec<usize>)
    ensures
        r@ == heuristic_spec(rows@.map_values(|v: Vec<i32>| v@)),
{
    let ghost views = rows@.map_values(|v: Vec<i32>| v@);
    let ghost pick = |i: int| row_active(views[i]);
    let n = rows.len();
    let mut r: Vec<usize> = Vec::new();
    let mut i: usize = 0;
    while i < n
        invariant
            n == rows@.len(),
            views == rows@.map_values(|v: Vec<i32>| v@),
            pick == (|i: int| row_active(views[i])),
            i <= n,
            r@ == indices_where(i as nat, pick),
        decreases n - i,
    {
        if row_is_active(&rows[i]) {
            r.push(i);
        }
        i = i + 1;
    }
    if r.len() == 0 {
        let mut all: Vec<usize> = Vec::new();
        let mut k: usize = 0;
        while k < n
            invariant
                k <= n,
                n == rows@.len(),
                all@ =~= all_indices(k as nat),
            decreases n - k,
        {
            all.push(k);
            k = k + 1;
        }
        return all;
    }
    r
}

/// Learned predictor's selection from its per-neuron probabilities.
pub fn learned_active_neurons(probabilities: &Vec<u32>) -> (r: Vec<usize>)
    ensures
        r@ == learned_spec(probabilities@),
{
    let ghost pick = |i: int| probabilities@[i] > PROBABILITY_THRESHOLD;
    let n = probabilities.len();
    let mut r: Vec<usize> = Vec::new();
    let mut i: usize = 0;
    while i < n
        invariant
            n == probabilities@.len(),
            pick == (|i: int| probabilities@[i] > PROBABILITY_THRESHOLD),
            i <= n,
            r@ == indices_where(i as nat, pick),
        decreases n - i,
    {
        if probabilities[i] > PROBABILITY_THRESHOLD {
            r.push(i);
        }
        i = i + 1;
    }
    r
}

/// Predicts the active neurons of each step and keeps their weight rows in
/// a bounded window.
pub struct SparsityManager<W> {
    window: SlidingWindowCache<W>,
    predictor: PredictorMode,
}

impl<W> SparsityManager<W> {
    pub open spec fn wf(&self) -> bool {
        self.spec_window().wf()
    }

    pub closed spec fn spec_window(&self) -> SlidingWindowCache<W> {
        self.window
    }

    pub closed spec fn spec_predictor(&self) -> PredictorMode {
        self.predictor
    }

    /// A manager with an empty window of `window_size` rows; the learned
    /// predictor is used only when activity history was supplied.
    pub fn new(window_size: usize, history_supplied: bool) -> (m: SparsityManager<W>)
        ensures
            m.wf(),
            m.spec_window()@ == Seq::<usize>::empty(),
            m.spec_window().capacity() == window_size,
            m.spec_predictor() == (if history_supplied {
                PredictorMode::Learned
            } else {
                PredictorMode::Heuristic
            }),
    {
        let predictor = if history_supplied {
            PredictorMode::Learned
        } else {
            PredictorMode::Heuristic
        };
        SparsityManager { window: SlidingWindowCache::new(window_size), predictor }
    }

    pub fn predictor(&self) -> (p: PredictorMode)
        ensures
            p == self.spec_predictor(),
    {
        self.predictor
    }

    pub fn window(&self) -> (w: &SlidingWindowCache<W>)
        ensures
            *w == self.spec_window(),
    {
        &self.window
    }

    /// The neurons to keep resident for `activation`. `learned` is the
    /// learned predictor's per-neuron probabilities (in thousandths), or
    /// `None` where it failed; a failure, or a manager without the learned
    /// predictor, falls back to the heuristic.
    pub fn predict_active_neurons(&self, activation: &Vec<Vec<i32>>, learned: Option<Vec<u32>>) -> (r: Vec<usize>)
        ensures
            r@ == (match (self.spec_predictor(), learned) {
                (PredictorMode::Learned, Some(p)) => learned_spec(p@),
                _ => heuristic_spec(activation@.map_values(|v: Vec<i32>| v@)),
            }),
    {
        match (self.predictor, learned) {
            (PredictorMode::Learned, Some(p)) => learned_active_neurons(&p),
            _ => heuristic_active_neurons(activation),
        }
    }

    /// Predicted indices that are not resident yet, each once.
    pub fn rows_to_fetch(&self, predicted: &Vec<usize>) -> (m: Vec<usize>)
        ensures
            m@ == crate::window::missing_spec(self.spec_window()@, predicted@),
    {
        self.window.missing(predicted)
    }

    /// Offers the fetched rows to the window in order. Rows that could not
    /// be fetched are simply absent: the window keeps what it holds.
    pub fn update_window(&mut self, rows: Vec<WeightRow<W>>)
        requires
            old(self).wf(),
        ensures
            final(self).wf(),
            final(self).spec_predictor() == old(self).spec_predictor(),
            final(self).spec_window().capacity() == old(self).spec_window().capacity(),
            final(self).spec_window()@ == window_insert_all(
                old(self).spec_window()@,
                rows@.map_values(|r: WeightRow<W>| r.neuron_index),
                old(self).spec_window().capacity(),
            ),
            final(self).spec_window().rows() == insert_rows_all(
                old(self).spec_window().rows(),
                rows@,
                old(self).spec_window().capacity(),
            ),
    {
        let ghost r0 = self.window.rows();
        let ghost idxs = rows@.map_values(|r: WeightRow<W>| r.neuron_index);
        let ghost old_rows = rows;
        let ghost pred0 = self.predictor;
        let ghost s0 = self.window@;
        let ghost cap = self.window.capacity();
        let mut rows = rows;
        let n = rows.len();
        let mut i: usize = 0;
        while i < n
            invariant
                rows@ == old_rows@.subrange(i as int, n as int),
                i <= n,
                n == idxs.len(),
                n == old_rows@.len(),
                idxs == old_rows@.map_values(|r: WeightRow<W>| r.neuron_index),
                self.window.wf(),
                self.predictor == pred0,
                self.window.capacity() == cap,
                self.window@ == window_insert_all(s0, idxs.subrange(0, i as int), cap),
                self.window.rows() == insert_rows_all(r0, old_rows@.subrange(0, i as int), cap),
            decreases n - i,
        {
            let ghost before = rows@;
            let row = rows.remove(0);
            assert(rows@ =~= old_rows@.subrange(i as int + 1, n as int));
            assert(row.neuron_index == idxs[i as int]);
            assert(idxs.subrange(0, i as int + 1).drop_last() =~= idxs.subrange(0, i as int));
            assert(old_rows@.subrange(0, i as int + 1).drop_last() =~= old_rows@.subrange(0, i as int));
            assert(old_rows@.subrange(0, i as int + 1).last() == row);
            self.window.insert(row);
            i = i + 1;
        }
        assert(idxs.subrange(0, n as int) =~= idxs);
        assert(old_rows@.subrange(0, n as int) =~= old_rows@);
    }

    /// Changes the window's size; the oldest rows leave when it shrinks.
    pub fn resize_window(&mut self, window_size: usize)
        requires
            old(self).wf(),
        ensures
            final(self).wf(),
            final(self).spec_predictor() == old(self).spec_predictor(),
            final(self).spec_window().capacity() == window_size,
            final(self).spec_window()@ == (if old(self).spec_window()@.len() <= window_size {
                old(self).spec_window()@
            } else {
                old(self).spec_window()@.subrange(
                    old(self).spec_window()@.len() - window_size,
                    old(self).spec_window()@.len() as int,
                )
            }),
    {
        self.window.resize(window_size);
    }
}

} // verus!
