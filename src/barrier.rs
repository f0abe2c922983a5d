//! The frame barrier: the decisions of the poll loop that waits for every
//! process of the group, and a barrier group for processes that share one
//! address space.
use vstd::prelude::*;

verus! {

/// Why a frame barrier did not complete.
#[derive(Debug, Clone, Copy, PartialEq, Eq, Structural)]
pub enum BarrierError {
    /// The group did not complete the barrier before the deadline.
    Timeout,
    /// The collective environment could not be set up or attached.
    EnvironmentUnavailable,
}

/// What the poll loop does after testing the outstanding barrier request.
#[derive(Debug, Clone, Copy, PartialEq, Eq, Structural)]
pub enum PollAction {
    /// Every participant has arrived: the barrier succeeded.
    Complete,
    /// The deadline has passed: cancel the request, then report a timeout.
    CancelAndFail,
    /// Give the processor a spin hint and test again.
    Retry,
}

/// Default deadline of a frame barrier, in milliseconds.
pub const FRAME_BARRIER_TIMEOUT_MS: u64 = 200;

pub open spec fn poll_action(completed: bool, elapsed: nat, timeout: nat) -> PollAction {
    if completed {
        PollAction::Complete
    } else if elapsed > timeout {
        PollAction::CancelAndFail
    } else {
        PollAction::Retry
    }
}

/// Decides one round of the poll loop, from whether the request has
/// completed and how long the barrier has been waiting.
pub fn busy_barrier_step(completed: bool, elapsed: u64, timeout: u64) -> (r: PollAction)
    ensures
        r == poll_action(completed, elapsed as nat, timeout as nat),
{
    if completed {
        PollAction::Complete
    } else if elapsed > timeout {
        PollAction::CancelAndFail
    } else {
        PollAction::Retry
    }
}

pub open spec fn action_outcome(a: PollAction) -> Option<Result<(), BarrierError>> {
    match a {
        PollAction::Complete => Some(Ok(())),
        PollAction::CancelAndFail => Some(Err(BarrierError::Timeout)),
        PollAction::Retry => None,
    }
}

/// What the frame barrier returns once the poll loop has taken this
/// action; `None` while it keeps polling.
pub fn barrier_outcome(a: PollAction) -> (r: Option<Result<(), BarrierError>>)
    ensures
        r == action_outcome(a),
{
    match a {
        PollAction::Complete => Some(Ok(())),
        PollAction::CancelAndFail => Some(Err(BarrierError::Timeout)),
        PollAction::Retry => None,
    }
}

/// The frame barrier without a synchronisation backend: it succeeds at
/// once.
pub fn unsynchronized_barrier() -> (r: Result<(), BarrierError>)
    ensures
        r is Ok,
{
    Ok(())
}

/// A poll loop whose tests all find the request pending, at the given
/// elapsed times, takes these actions.
pub open spec fn actions_while_pending(elapsed: Seq<nat>, timeout: nat) -> Seq<PollAction> {
    elapsed.map_values(|e: nat| poll_action(false, e, timeout))
}

/// While the request stays pending the loop never reports success, and the
/// first test after the deadline cancels the request and reports a
/// timeout.
pub proof fn lemma_pending_barrier_times_out(elapsed: Seq<nat>, timeout: nat, k: int)
    requires
        0 <= k < elapsed.len(),
        elapsed[k] > timeout,
        forall|j: int| 0 <= j < k ==> elapsed[j] <= timeout,
    ensures
        forall|j: int| 0 <= j < k ==> actions_while_pending(elapsed, timeout)[j] == PollAction::Retry,
        actions_while_pending(elapsed, timeout)[k] == PollAction::CancelAndFail,
        action_outcome(actions_while_pending(elapsed, timeout)[k]) == Some(
            Err::<(), BarrierError>(BarrierError::Timeout),
        ),
{
}

/// The number of participants that have arrived.
pub open spec fn arrivals(s: Seq<bool>) -> nat
    decreases s.len(),
{
    if s.len() == 0 {
        0
    } else {
        arrivals(s.drop_last()) + if s.last() {
            1nat
        } else {
            0nat
        }
    }
}

proof fn lemma_arrivals_update(s: Seq<bool>, i: int, b: bool)
    requires
        0 <= i < s.len(),
    ensures
        arrivals(s.update(i, b)) + (if s[i] {
            1nat
        } else {
            0nat
        }) == arrivals(s) + (if b {
            1nat
        } else {
            0nat
        }),
    decreases s.len(),
{
    if i < s.len() - 1 {
        lemma_arrivals_update(s.drop_last(), i, b);
        assert(s.update(i, b).drop_last() == s.drop_last().update(i, b));
    } else {
        assert(s.update(i, b).drop_last() == s.drop_last());
    }
}

proof fn lemma_arrivals_none(n: nat)
    ensures
        arrivals(Seq::new(n, |i: int| false)) == 0,
    decreases n,
{
    if n > 0 {
        lemma_arrivals_none((n - 1) as nat);
        assert(Seq::new(n, |i: int| false).drop_last() == Seq::new((n - 1) as nat, |i: int| false));
    }
}

proof fn lemma_arrivals_idle(s: Seq<bool>)
    requires
        forall|i: int| 0 <= i < s.len() ==> !s[i],
    ensures
        arrivals(s) == 0,
    decreases s.len(),
{
    if s.len() > 0 {
        assert forall|i: int| 0 <= i < s.drop_last().len() implies !s.drop_last()[i] by {
            assert(s.drop_last()[i] == s[i]);
        }
        lemma_arrivals_idle(s.drop_last());
    }
}

proof fn lemma_arrivals_bound(s: Seq<bool>)
    ensures
        arrivals(s) <= s.len(),
        arrivals(s) == s.len() ==> forall|i: int| 0 <= i < s.len() ==> s[i],
    decreases s.len(),
{
    if s.len() > 0 {
        lemma_arrivals_bound(s.drop_last());
        assert forall|i: int| 0 <= i < s.len() && arrivals(s) == s.len() implies s[i] by {
            if i < s.len() - 1 {
                assert(s.drop_last()[i] == s[i]);
            }
        }
    }
}

/// A barrier group of a fixed number of participants that share one
/// address space. Each round completes when the last participant arrives;
/// a participant that gives up withdraws its arrival.
pub struct LocalBarrier {
    arrived: Vec<bool>,
    count: usize,
    generation: u64,
}

/// A barrier group as a mathematical value.
pub ghost struct BarrierModel {
    pub arrived: Seq<bool>,
    pub count: nat,
    pub generation: nat,
}

impl View for LocalBarrier {
    type V = BarrierModel;

    closed spec fn view(&self) -> BarrierModel {
        BarrierModel {
            arrived: self.arrived@,
            count: self.count as nat,
            generation: self.generation as nat,
        }
    }
}

impl BarrierModel {
    pub open spec fn wf(self) -> bool {
        &&& self.arrived.len() > 0
        &&& self.count == arrivals(self.arrived)
        &&& self.count < self.arrived.len()
    }

    /// No participant is waiting.
    pub open spec fn idle(self) -> bool {
        forall|i: int| 0 <= i < self.arrived.len() ==> !self.arrived[i]
    }

    /// The group after participant `rank` arrives: the round completes,
    /// and every arrival is cleared, when it was the last to come.
    pub open spec fn issue(self, rank: int) -> BarrierModel {
        if self.count + 1 == self.arrived.len() {
            BarrierModel {
                arrived: Seq::new(self.arrived.len(), |i: int| false),
                count: 0,
                generation: self.generation + 1,
            }
        } else {
            BarrierModel {
                arrived: self.arrived.update(rank, true),
                count: self.count + 1,
                generation: self.generation,
            }
        }
    }

    /// The group after participant `rank` gives up on round `ticket`.
    pub open spec fn cancel(self, rank: int, ticket: nat) -> BarrierModel {
        if ticket == self.generation && self.arrived[rank] {
            BarrierModel {
                arrived: self.arrived.update(rank, false),
                count: (self.count - 1) as nat,
                generation: self.generation,
            }
        } else {
            self
        }
    }

    /// Whether the round of `ticket` has completed.
    pub open spec fn released(self, ticket: nat) -> bool {
        self.generation > ticket
    }
}

impl LocalBarrier {
    /// A group of `size` participants, none of which has arrived.
    pub fn new(size: usize) -> (r: LocalBarrier)
        requires
            size > 0,
        ensures
            r@.wf(),
            r@.idle(),
            r@.count == 0,
            r@.arrived.len() == size,
            r@.generation == 0,
    {
        let arrived = Self::no_arrivals(size);
        LocalBarrier { arrived, count: 0, generation: 0 }
    }

    fn no_arrivals(size: usize) -> (r: Vec<bool>)
        ensures
            r@ == Seq::new(size as nat, |i: int| false),
            arrivals(r@) == 0,
    {
        let mut v: Vec<bool> = Vec::new();
        let mut i: usize = 0;
        while i < size
            invariant
                i <= size,
                v@ == Seq::new(i as nat, |j: int| false),
            decreases size - i,
        {
            v.push(false);
            assert(v@ =~= Seq::new((i + 1) as nat, |j: int| false));
            i = i + 1;
        }
        proof {
            lemma_arrivals_none(size as nat);
        }
        v
    }

    /// The number of participants.
    pub fn size(&self) -> (r: usize)
        ensures
            r == self@.arrived.len(),
    {
        self.arrived.len()
    }

    /// Participant `rank` arrives at the barrier; the result is the ticket
    /// of the round it waits for.
    pub fn issue(&mut self, rank: usize) -> (ticket: u64)
        requires
            old(self)@.wf(),
            rank < old(self)@.arrived.len(),
            !old(self)@.arrived[rank as int],
            old(self)@.generation < u64::MAX,
        ensures
            final(self)@ == old(self)@.issue(rank as int),
            final(self)@.wf(),
            ticket == old(self)@.generation,
    {
        let ticket = self.generation;
        proof {
            lemma_arrivals_update(self.arrived@, rank as int, true);
            lemma_arrivals_bound(self.arrived@.update(rank as int, true));
        }
        if self.count == self.arrived.len() - 1 {
            self.arrived = Self::no_arrivals(self.arrived.len());
            self.count = 0;
            self.generation = self.generation + 1;
        } else {
            self.arrived.set(rank, true);
            self.count = self.count + 1;
        }
        ticket
    }

    /// Whether the round of `ticket` has completed.
    pub fn test(&self, ticket: u64) -> (r: bool)
        ensures
            r == self@.released(ticket as nat),
    {
        self.generation > ticket
    }

    /// Participant `rank` gives up on the round of `ticket`, withdrawing its
    /// arrival if that round is still open.
    pub fn cancel(&mut self, rank: usize, ticket: u64)
        requires
            old(self)@.wf(),
            rank < old(self)@.arrived.len(),
        ensures
            final(self)@ == old(self)@.cancel(rank as int, ticket as nat),
            final(self)@.wf(),
    {
        if ticket == self.generation && self.arrived[rank] {
            proof {
                lemma_arrivals_update(self.arrived@, rank as int, false);
            }
            self.arrived.set(rank, false);
            self.count = self.count - 1;
        }
    }
}

/// The group after the participants in `ranks` arrive, in that order.
pub open spec fn issue_all(b: BarrierModel, ranks: Seq<int>) -> BarrierModel
    decreases ranks.len(),
{
    if ranks.len() == 0 {
        b
    } else {
        issue_all(b, ranks.drop_last()).issue(ranks.last())
    }
}

/// The group after the participants in `ranks` give up on round `ticket`.
pub open spec fn cancel_all(b: BarrierModel, ranks: Seq<int>, ticket: nat) -> BarrierModel
    decreases ranks.len(),
{
    if ranks.len() == 0 {
        b
    } else {
        cancel_all(b, ranks.drop_last(), ticket).cancel(ranks.last(), ticket)
    }
}

/// Distinct participants of a group of `n`.
pub open spec fn distinct_ranks(ranks: Seq<int>, n: nat) -> bool {
    &&& forall|i: int| 0 <= i < ranks.len() ==> 0 <= #[trigger] ranks[i] < n
    &&& forall|i: int, j: int| 0 <= i < j < ranks.len() ==> ranks[i] != ranks[j]
}

proof fn lemma_partial_round(b: BarrierModel, ranks: Seq<int>)
    requires
        b.wf(),
        b.idle(),
        distinct_ranks(ranks, b.arrived.len()),
        ranks.len() < b.arrived.len(),
    ensures
        issue_all(b, ranks).generation == b.generation,
        issue_all(b, ranks).count == ranks.len(),
        issue_all(b, ranks).arrived.len() == b.arrived.len(),
        forall|r: int| 0 <= r < b.arrived.len() ==> issue_all(b, ranks).arrived[r] == ranks.contains(r),
    decreases ranks.len(),
{
    lemma_arrivals_idle(b.arrived);
    if ranks.len() > 0 {
        let init = ranks.drop_last();
        assert(distinct_ranks(init, b.arrived.len())) by {
            assert forall|i: int| 0 <= i < init.len() implies 0 <= #[trigger] init[i] < b.arrived.len() by {
                assert(init[i] == ranks[i]);
            }
        }
        lemma_partial_round(b, init);
        let prev = issue_all(b, init);
        assert(issue_all(b, ranks) == prev.issue(ranks.last()));
        assert(prev.count + 1 < b.arrived.len());
        assert forall|r: int| 0 <= r < b.arrived.len() implies issue_all(b, ranks).arrived[r]
            == ranks.contains(r) by {
            if ranks.contains(r) && r != ranks.last() {
                let k = choose|k: int| 0 <= k < ranks.len() && ranks[k] == r;
                assert(init[k] == r);
            }
            if init.contains(r) {
                let k = choose|k: int| 0 <= k < init.len() && init[k] == r;
                assert(ranks[k] == r);
            }
            if r == ranks.last() {
                assert(ranks[ranks.len() - 1] == r);
            }
        }
    }
}

/// In a group of `n` with no participant waiting, a round completes when
/// `n` distinct participants have arrived, and not before: while one of
/// them has yet to arrive no ticket of the round is released.
pub proof fn lemma_round_completes_only_when_all_arrive(b: BarrierModel, ranks: Seq<int>)
    requires
        b.wf(),
        b.idle(),
        distinct_ranks(ranks, b.arrived.len()),
        ranks.len() == b.arrived.len(),
    ensures
        forall|k: int|
            0 <= k < ranks.len() ==> !(#[trigger] issue_all(b, ranks.take(k))).released(
                b.generation,
            ),
        issue_all(b, ranks).released(b.generation),
        issue_all(b, ranks).idle(),
{
    assert forall|k: int| 0 <= k < ranks.len() implies !(#[trigger] issue_all(
        b,
        ranks.take(k),
    )).released(b.generation) by {
        lemma_partial_round(b, ranks.take(k));
    }
    let init = ranks.drop_last();
    assert(init == ranks.take(ranks.len() - 1));
    lemma_partial_round(b, init);
}

/// When one participant never arrives, the others' tickets are never
/// released; once they all give up, the group is exactly as it was before
/// the round, so the next round starts with no stale arrival.
pub proof fn lemma_missing_participant_leaves_no_trace(b: BarrierModel, ranks: Seq<int>)
    requires
        b.wf(),
        b.idle(),
        distinct_ranks(ranks, b.arrived.len()),
        ranks.len() < b.arrived.len(),
    ensures
        !issue_all(b, ranks).released(b.generation),
        cancel_all(issue_all(b, ranks), ranks, b.generation) == b,
{
    lemma_arrivals_idle(b.arrived);
    lemma_partial_round(b, ranks);
    lemma_cancel_partial(b, ranks, ranks.len() as int);
    assert(ranks.take(ranks.len() as int) == ranks);
    let e = cancel_all(issue_all(b, ranks), ranks, b.generation);
    assert forall|r: int| 0 <= r < b.arrived.len() implies e.arrived[r] == b.arrived[r] by {
        if ranks.contains(r) {
        }
    }
    assert(e.arrived =~= b.arrived);
}

proof fn lemma_cancel_partial(b: BarrierModel, ranks: Seq<int>, k: int)
    requires
        b.wf(),
        b.idle(),
        distinct_ranks(ranks, b.arrived.len()),
        ranks.len() < b.arrived.len(),
        0 <= k <= ranks.len(),
    ensures
        cancel_all(issue_all(b, ranks), ranks.take(k), b.generation).generation == b.generation,
        cancel_all(issue_all(b, ranks), ranks.take(k), b.generation).count == ranks.len() - k,
        cancel_all(issue_all(b, ranks), ranks.take(k), b.generation).arrived.len()
            == b.arrived.len(),
        forall|r: int|
            0 <= r < b.arrived.len() ==> cancel_all(
                issue_all(b, ranks),
                ranks.take(k),
                b.generation,
            ).arrived[r] == (ranks.contains(r) && !ranks.take(k).contains(r)),
    decreases k,
{
    lemma_partial_round(b, ranks);
    if k > 0 {
        lemma_cancel_partial(b, ranks, k - 1);
        assert(ranks.take(k).drop_last() == ranks.take(k - 1));
        let prev = cancel_all(issue_all(b, ranks), ranks.take(k - 1), b.generation);
        let rk = ranks[k - 1];
        assert(ranks.take(k).last() == rk);
        assert(!ranks.take(k - 1).contains(rk)) by {
            if ranks.take(k - 1).contains(rk) {
                let j = choose|j: int| 0 <= j < k - 1 && #[trigger] ranks.take(k - 1)[j] == rk;
                assert(ranks[j] == rk);
            }
        }
        assert(ranks.contains(rk)) by {
            assert(ranks[k - 1] == rk);
        }
        assert(prev.arrived[rk]);
        let cur = cancel_all(issue_all(b, ranks), ranks.take(k), b.generation);
        assert(cur == prev.cancel(rk, b.generation));
        assert(cur.arrived == prev.arrived.update(rk, false));
        assert forall|r: int| 0 <= r < b.arrived.len() implies cur.arrived[r] == (ranks.contains(r)
            && !ranks.take(k).contains(r)) by {
            if r != rk {
                assert(cur.arrived[r] == prev.arrived[r]);
                if ranks.take(k).contains(r) {
                    let j = choose|j: int| 0 <= j < k && #[trigger] ranks.take(k)[j] == r;
                    assert(j != k - 1);
                    assert(ranks.take(k - 1)[j] == r);
                }
                if ranks.take(k - 1).contains(r) {
                    let j = choose|j: int| 0 <= j < k - 1 && #[trigger] ranks.take(k - 1)[j] == r;
                    assert(ranks.take(k)[j] == r);
                }
            } else {
                assert(ranks.take(k)[k - 1] == r);
            }
        }
    } else {
        assert(ranks.take(0) =~= Seq::<int>::empty());
    }
}

} // verus!
