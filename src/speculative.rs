//! Speculative decoding: draft tokens are verified in position order and
//! the accepted prefix is committed.
use vstd::prelude::*;
use crate::metrics::seq_sum;
use crate::sparsity::SparsityManager;
use crate::telemetry::{bumped, bumped_by, Monitoring};

verus! {

/// A draft token is accepted when the mean of its payload exceeds this (in
/// thousandths).
pub const ACCEPT_THRESHOLD: i128 = 500;

/// Errors of a decode call.
#[derive(Clone, Copy, Debug, PartialEq, Eq, Structural)]
pub enum DecodeError {
    /// The drafts do not have the configured count or one common width.
    ShapeMismatch,
    /// A draft token carries an empty payload.
    VerificationFailure,
}

#[derive(Clone, Copy, Debug, PartialEq, Eq, Structural)]
pub enum TokenStatus {
    Pending,
    Accepted,
    Rejected,
}

/// A candidate token at its draft position.
pub struct DraftToken {
    pub position: usize,
    pub payload: Vec<i32>,
    pub status: TokenStatus,
}

/// The acceptance predicate: the payload's mean exceeds the threshold.
pub open spec fn accepts(p: Seq<i32>) -> bool {
    seq_sum(p) > ACCEPT_THRESHOLD * p.len()
}

/// `clamp(round(ratio * (lambda + 1)), 1, k)`, with the ratio in
/// thousandths and halves rounded up.
pub open spec fn window_spec(lambda: nat, k: nat, ratio: nat) -> nat {
    let w = (ratio * (lambda + 1) + 500) / 1000;
    if w < 1 {
        1
    } else if w > k {
        k
    } else {
        w as nat
    }
}

/// How many tokens are committed: the accepted run at the front of `ps`,
/// at most `w` long.
pub open spec fn accepted_run(ps: Seq<Seq<i32>>, w: nat) -> nat
    decreases ps.len(),
{
    if ps.len() == 0 || w == 0 {
        0
    } else if accepts(ps[0]) {
        1 + accepted_run(ps.subrange(1, ps.len() as int), (w - 1) as nat)
    } else {
        0
    }
}

/// Verification stopped at a rejected token rather than at the window or at
/// the end of the drafts.
pub open spec fn stops_on_reject(ps: Seq<Seq<i32>>, w: nat) -> bool {
    accepted_run(ps, w) < w && accepted_run(ps, w) < ps.len()
}

/// Verification stops at the first rejected token: when the first `k`
/// tokens are accepted, token `k` is rejected and `k` is below the window,
/// exactly the first `k` are committed and the run ends on a rejection, so
/// no token after it is committed.
pub proof fn law_stops_at_first_rejection(ps: Seq<Seq<i32>>, w: nat, k: int)
    requires
        0 <= k < ps.len(),
        k < w,
        forall|i: int| 0 <= i < k ==> accepts(#[trigger] ps[i]),
        !accepts(ps[k]),
    ensures
        accepted_run(ps, w) == k,
        stops_on_reject(ps, w),
    decreases k,
{
    if k > 0 {
        let sub = ps.subrange(1, ps.len() as int);
        assert(accepts(ps[0]));
        assert forall|i: int| 0 <= i < k - 1 implies accepts(#[trigger] sub[i]) by {
            assert(sub[i] == ps[i + 1]);
        }
        assert(sub[k - 1] == ps[k]);
        law_stops_at_first_rejection(sub, (w - 1) as nat, k - 1);
    }
}

/// When every draft is rejected, nothing is committed and verification
/// ends on the first rejection: one rejection is counted, not one per
/// draft.
pub proof fn law_all_rejected(ps: Seq<Seq<i32>>, w: nat)
    requires
        ps.len() > 0,
        w >= 1,
        forall|i: int| 0 <= i < ps.len() ==> !accepts(#[trigger] ps[i]),
    ensures
        accepted_run(ps, w) == 0,
        stops_on_reject(ps, w),
{
    law_stops_at_first_rejection(ps, w, 0);
}

/// What is wrong with a set of drafts, if anything.
pub open spec fn draft_error(ps: Seq<Seq<i32>>, lambda: nat) -> Option<DecodeError> {
    if ps.len() != lambda || exists|i: int| 0 <= i < ps.len() && #[trigger] ps[i].len() != ps[0].len() {
        Some(DecodeError::ShapeMismatch)
    } else if ps.len() > 0 && ps[0].len() == 0 {
        Some(DecodeError::VerificationFailure)
    } else {
        None
    }
}

pub open spec fn payloads(drafts: Seq<Vec<i32>>) -> Seq<Seq<i32>> {
    drafts.map_values(|v: Vec<i32>| v@)
}

/// Whether one token passes verification.
pub fn token_accepted(payload: &Vec<i32>) -> (r: bool)
    ensures
        r == accepts(payload@),
{
    let n = payload.len();
    let mut sum: i128 = 0;
    let mut i: usize = 0;
    while i < n
        invariant
            n == payload@.len(),
            i <= n,
            sum == seq_sum(payload@.subrange(0, i as int)),
            -(i as int) * 2147483648 <= sum <= (i as int) * 2147483648,
        decreases n - i,
    {
        assert(payload@.subrange(0, i as int + 1).drop_last() =~= payload@.subrange(0, i as int));
        sum = sum + payload[i] as i128;
        i = i + 1;
    }
    assert(payload@.subrange(0, n as int) =~= payload@);
    sum > ACCEPT_THRESHOLD * (n as i128)
}

/// Draft, verify, commit.
pub struct SpeculativeDecoder<W> {
    sparsity_mgr: SparsityManager<W>,
    draft_lambda: usize,
    window_size_k: usize,
    acceptance_ratio: u32,
}

impl<W> SpeculativeDecoder<W> {
    pub closed spec fn spec_lambda(&self) -> nat {
        self.draft_lambda as nat
    }

    pub closed spec fn spec_k(&self) -> nat {
        self.window_size_k as nat
    }

    pub closed spec fn spec_ratio(&self) -> nat {
        self.acceptance_ratio as nat
    }

    pub closed spec fn spec_sparsity(&self) -> SparsityManager<W> {
        self.sparsity_mgr
    }

    pub open spec fn wf(&self) -> bool {
        &&& self.spec_k() >= 1
        &&& self.spec_sparsity().wf()
    }

    /// A decoder that drafts `draft_lambda` tokens, commits at most
    /// `window_size_k` of them, and owns a sparsity manager with a window of
    /// `window_size` rows.
    pub fn new(
        window_size: usize,
        draft_lambda: usize,
        window_size_k: usize,
        acceptance_ratio: u32,
        history_supplied: bool,
    ) -> (d: SpeculativeDecoder<W>)
        requires
            window_size_k >= 1,
        ensures
            d.wf(),
            d.spec_lambda() == draft_lambda,
            d.spec_k() == window_size_k,
            d.spec_ratio() == acceptance_ratio,
            d.spec_sparsity().spec_window()@ == Seq::<usize>::empty(),
            d.spec_sparsity().spec_window().capacity() == window_size,
    {
        SpeculativeDecoder {
            sparsity_mgr: SparsityManager::new(window_size, history_supplied),
            draft_lambda,
            window_size_k,
            acceptance_ratio,
        }
    }

    /// Sets the window size, the draft count, the commit bound and the
    /// acceptance ratio.
    pub fn configure(
        &mut self,
        window_size: usize,
        draft_lambda: usize,
        window_size_k: usize,
        acceptance_ratio: u32,
    )
        requires
            old(self).wf(),
            window_size_k >= 1,
        ensures
            final(self).wf(),
            final(self).spec_lambda() == draft_lambda,
            final(self).spec_k() == window_size_k,
            final(self).spec_ratio() == acceptance_ratio,
            final(self).spec_sparsity().spec_window().capacity() == window_size,
            final(self).spec_sparsity().spec_predictor() == old(self).spec_sparsity().spec_predictor(),
            final(self).spec_sparsity().spec_window()@ == (if old(self).spec_sparsity().spec_window()@.len()
                <= window_size {
                old(self).spec_sparsity().spec_window()@
            } else {
                old(self).spec_sparsity().spec_window()@.subrange(
                    old(self).spec_sparsity().spec_window()@.len() - window_size,
                    old(self).spec_sparsity().spec_window()@.len() as int,
                )
            }),
    {
        self.sparsity_mgr.resize_window(window_size);
        self.draft_lambda = draft_lambda;
        self.window_size_k = window_size_k;
        self.acceptance_ratio = acceptance_ratio;
    }

    pub fn draft_lambda(&self) -> (n: usize)
        ensures
            n == self.spec_lambda(),
    {
        self.draft_lambda
    }

    pub fn sparsity_manager(&self) -> (m: &SparsityManager<W>)
        ensures
            *m == self.spec_sparsity(),
    {
        &self.sparsity_mgr
    }

    pub fn sparsity_manager_mut(&mut self) -> (m: &mut SparsityManager<W>)
        ensures
            *m == old(self).spec_sparsity(),
            final(self).spec_sparsity() == *final(m),
            final(self).spec_lambda() == old(self).spec_lambda(),
            final(self).spec_k() == old(self).spec_k(),
            final(self).spec_ratio() == old(self).spec_ratio(),
    {
        &mut self.sparsity_mgr
    }

    /// How many tokens one call may commit.
    pub fn optimal_window(&self) -> (w: usize)
        requires
            self.wf(),
        ensures
            w == window_spec(self.spec_lambda(), self.spec_k(), self.spec_ratio()),
            1 <= w <= self.spec_k(),
    {
        let r = self.acceptance_ratio as u128;
        let l = self.draft_lambda as u128 + 1;
        assert(r * l <= 0xffff_ffff * 0x1_0000_0000_0000_0000) by (nonlinear_arith)
            requires
                r <= 0xffff_ffff,
                l <= 0x1_0000_0000_0000_0000,
        ;
        let x: u128 = (r * l + 500) / 1000;
        if x < 1 {
            1
        } else if x > self.window_size_k as u128 {
            self.window_size_k
        } else {
            x as usize
        }
    }

    /// Verifies `drafts` (the draft model's candidates for this step, in
    /// position order) and returns the committed prefix. Verification stops
    /// at the first rejected token, at the window, or when the drafts run
    /// out; what follows a rejection is discarded. Each verified token counts
    /// one accepted or rejected event. An empty result is the defined answer
    /// when nothing was accepted.
    pub fn decode(&self, drafts: Vec<Vec<i32>>, monitoring: &mut Monitoring) -> (r: Result<
        Vec<Vec<i32>>,
        DecodeError,
    >)
        requires
            self.wf(),
        ensures
            ({
                let ps = payloads(drafts@);
                let w = window_spec(self.spec_lambda(), self.spec_k(), self.spec_ratio());
                match r {
                    Err(e) => draft_error(ps, self.spec_lambda()) == Some(e) && *final(monitoring)
                        == *old(monitoring),
                    Ok(c) => {
                        &&& draft_error(ps, self.spec_lambda()) is None
                        &&& c@ == drafts@.subrange(0, accepted_run(ps, w) as int)
                        &&& *final(monitoring) == (Monitoring {
                            speculative_accepted: bumped_by(
                                old(monitoring).speculative_accepted,
                                accepted_run(ps, w),
                            ),
                            speculative_rejected: if stops_on_reject(ps, w) {
                                bumped(old(monitoring).speculative_rejected)
                            } else {
                                old(monitoring).speculative_rejected
                            },
                            ..*old(monitoring)
                        })
                    },
                }
            }),
    {
        let ghost ps = payloads(drafts@);
        let ghost d0 = drafts@;
        let n = drafts.len();
        // Drafting: the count and the common width are checked first.
        if n != self.draft_lambda {
            return Err(DecodeError::ShapeMismatch);
        }
        if n > 0 {
            let width = drafts[0].len();
            let mut i: usize = 0;
            while i < n
                invariant
                    n == drafts@.len(),
                    ps == payloads(drafts@),
                    n > 0,
                    width == ps[0].len(),
                    i <= n,
                    forall|j: int| 0 <= j < i ==> ps[j].len() == width,
                decreases n - i,
            {
                if drafts[i].len() != width {
                    assert(ps[i as int].len() != ps[0].len());
                    return Err(DecodeError::ShapeMismatch);
                }
                i = i + 1;
            }
            if width == 0 {
                return Err(DecodeError::VerificationFailure);
            }
        }
        assert(draft_error(ps, self.spec_lambda()) is None);
        let mut drafts = drafts;
        let mut buffer: std::collections::VecDeque<DraftToken> = std::collections::VecDeque::new();
        let mut p: usize = 0;
        while p < n
            invariant
                n == d0.len(),
                p <= n,
                drafts@ == d0.subrange(p as int, n as int),
                buffer@.len() == p,
                forall|k: int|
                    0 <= k < p ==> (#[trigger] buffer@[k]).payload == d0[k] && buffer@[k].position
                        == k,
            decreases n - p,
        {
            let payload = drafts.remove(0);
            assert(drafts@ =~= d0.subrange(p as int + 1, n as int));
            buffer.push_back(DraftToken { position: p, payload, status: TokenStatus::Pending });
            p = p + 1;
        }
        // Verifying: strictly in position order, stopping at the first
        // rejection.
        let w = self.optimal_window();
        let ghost acc0 = monitoring.speculative_accepted;
        let ghost m0 = *monitoring;
        let mut committed: Vec<Vec<i32>> = Vec::new();
        let mut stopped = false;
        assert(ps.subrange(0, n as int) =~= ps);
        assert(d0.subrange(0, 0) =~= committed@);
        while committed.len() < w && !stopped && buffer.len() > 0
            invariant
                n == d0.len(),
                ps == payloads(d0),
                w == window_spec(self.spec_lambda(), self.spec_k(), self.spec_ratio()),
                committed@.len() <= w,
                committed@.len() <= n,
                committed@ == d0.subrange(0, committed@.len() as int),
                stopped ==> committed@.len() < n && committed@.len() < w && !accepts(
                    ps[committed@.len() as int],
                ),
                buffer@.len() + committed@.len() + (if stopped {
                    1int
                } else {
                    0int
                }) == n,
                forall|k: int|
                    0 <= k < buffer@.len() ==> (#[trigger] buffer@[k]).payload == d0[k
                        + committed@.len() + (if stopped {
                        1int
                    } else {
                        0int
                    })],
                accepted_run(ps, w as nat) == committed@.len() + accepted_run(
                    ps.subrange(committed@.len() as int, n as int),
                    (w - committed@.len()) as nat,
                ),
                *monitoring == (Monitoring {
                    speculative_accepted: bumped_by(acc0, committed@.len() as nat),
                    speculative_rejected: if stopped {
                        bumped(m0.speculative_rejected)
                    } else {
                        m0.speculative_rejected
                    },
                    ..m0
                }),
            decreases buffer@.len(),
        {
            let ghost c = committed@.len() as int;
            let ghost before = buffer@;
            let ghost sub = ps.subrange(c, n as int);
            match buffer.pop_front() {
                Some(mut tok) => {
                    assert(tok.payload == d0[c]);
                    assert(sub[0] == ps[c]);
                    if token_accepted(&tok.payload) {
                        tok.status = TokenStatus::Accepted;
                        monitoring.record_speculative_accepted();
                        assert(sub.subrange(1, sub.len() as int) =~= ps.subrange(c + 1, n as int));
                        committed.push(tok.payload);
                        assert(committed@ =~= d0.subrange(0, c + 1));
                    } else {
                        tok.status = TokenStatus::Rejected;
                        monitoring.record_speculative_rejected();
                        stopped = true;
                    }
                    assert forall|k: int| 0 <= k < buffer@.len() implies (#[trigger] buffer@[k]).payload
                        == d0[k + committed@.len() + (if stopped {
                        1int
                    } else {
                        0int
                    })] by {
                        assert(buffer@[k] == before[k + 1]);
                    }
                },
                None => {},
            }
        }
        proof {
            let c = committed@.len() as int;
            let sub = ps.subrange(c, n as int);
            if stopped {
                assert(sub[0] == ps[c]);
            } else if c < w {
                assert(sub.len() == 0);
            }
            assert(accepted_run(sub, (w - c) as nat) == 0);
            assert(accepted_run(ps, w as nat) == c);
            assert(stops_on_reject(ps, w as nat) == stopped);
        }
        Ok(committed)
    }
}

} // verus!
