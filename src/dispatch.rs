//! The bounded dispatcher: a sliding window of at most `limit` probes in
//! flight over the candidates, admitted in input order and completed in any
//! order.
//!
//! The dispatcher makes every decision and performs none of the work. The
//! caller asks `next_action` what to do, starts a probe when told to launch
//! one, reports each finished probe with `complete`, and stops when told the
//! batch is finished.

use vstd::prelude::*;
use crate::probe::ProbeResult;

verus! {

/// What the caller must do next.
#[derive(Clone, Debug, PartialEq, Eq)]
pub enum Action {
    /// Start a probe of the candidate at this index.
    Launch(usize),
    /// Wait until one of the probes in flight finishes.
    Wait,
    /// Every candidate has been probed; carries the number found available.
    Finish(usize),
}

/// What a finished probe asks to be reported.
#[derive(Clone, Debug, PartialEq, Eq)]
pub enum Notice {
    /// Nothing to report.
    Quiet,
    /// The candidate at this index is available.
    Available(usize),
    /// The probe of the candidate at this index failed with this message.
    Failed(usize, String),
}

/// The abstract state of a dispatcher.
pub ghost struct DispatchState {
    /// Most probes allowed in flight at once.
    pub limit: nat,
    /// Number of candidates in the batch.
    pub total: nat,
    /// Candidates admitted so far: exactly the indices below this one.
    pub launched: nat,
    /// Indices of the probes in flight.
    pub in_flight: Set<nat>,
    /// Finished probes, in the order they were reported.
    pub arrivals: Seq<(nat, ProbeResult)>,
    /// Number of available outcomes reported so far.
    pub count: nat,
}

/// Number of available outcomes among `arr`.
pub open spec fn num_available(arr: Seq<(nat, ProbeResult)>) -> nat
    decreases arr.len(),
{
    if arr.len() == 0 {
        0
    } else {
        num_available(arr.drop_last()) + if arr.last().1 is Available {
            1nat
        } else {
            0nat
        }
    }
}

/// Whether a probe of candidate `i` has been reported as finished.
pub open spec fn arrived(arr: Seq<(nat, ProbeResult)>, i: nat) -> bool {
    exists|k: int| 0 <= k < arr.len() && #[trigger] arr[k].0 == i
}

impl DispatchState {
    /// The invariant that every reachable state keeps.
    pub open spec fn valid(self) -> bool {
        &&& self.limit >= 1
        &&& self.launched <= self.total
        &&& self.in_flight.finite()
        &&& self.in_flight.len() <= self.limit
        &&& self.in_flight.len() + self.arrivals.len() == self.launched
        &&& forall|i: nat| #[trigger] self.in_flight.contains(i) ==> i < self.launched
        &&& forall|k: int|
            0 <= k < self.arrivals.len() ==> #[trigger] self.arrivals[k].0 < self.launched
                && !self.in_flight.contains(self.arrivals[k].0)
        &&& forall|k: int, j: int|
            0 <= k < j < self.arrivals.len() ==> #[trigger] self.arrivals[k].0
                != #[trigger] self.arrivals[j].0
        &&& forall|i: nat|
            i < self.launched ==> #[trigger] self.in_flight.contains(i) || arrived(
                self.arrivals,
                i,
            )
        &&& self.count == num_available(self.arrivals)
        &&& self.limit == 1 ==> forall|k: int|
            0 <= k < self.arrivals.len() ==> #[trigger] self.arrivals[k].0 == k
    }

    /// Every candidate admitted and no probe left in flight.
    pub open spec fn finished(self) -> bool {
        self.launched == self.total && self.in_flight.len() == 0
    }

    /// Whether a further probe may start now.
    pub open spec fn can_launch(self) -> bool {
        self.in_flight.len() < self.limit && self.launched < self.total
    }
}

/// Drives a batch of `total` probes with at most `limit` in flight.
pub struct Dispatcher {
    limit: usize,
    total: usize,
    launched: usize,
    active: usize,
    available: usize,
    running: Vec<bool>,
    in_flight: Ghost<Set<nat>>,
    arrivals: Ghost<Seq<(nat, ProbeResult)>>,
}

impl View for Dispatcher {
    type V = DispatchState;

    closed spec fn view(&self) -> DispatchState {
        DispatchState {
            limit: self.limit as nat,
            total: self.total as nat,
            launched: self.launched as nat,
            in_flight: self.in_flight@,
            arrivals: self.arrivals@,
            count: self.available as nat,
        }
    }
}

impl Dispatcher {
    /// The executable fields agree with the abstract state, which is valid.
    pub closed spec fn wf(&self) -> bool {
        &&& self@.valid()
        &&& self.running@.len() == self.total
        &&& self.active == self.in_flight@.len()
        &&& forall|i: int|
            0 <= i < self.total ==> (#[trigger] self.running@[i] <==> self.in_flight@.contains(
                i as nat,
            ))
    }

    /// Prepares a batch of `total` candidates with at most `limit` probes in
    /// flight. A limit of zero is a configuration error and gives `None`.
    pub fn new(total: usize, limit: usize) -> (r: Option<Dispatcher>)
        ensures
            r is None <==> limit == 0,
            r matches Some(d) ==> {
                &&& d.wf()
                &&& d@.limit == limit
                &&& d@.total == total
                &&& d@.launched == 0
                &&& d@.in_flight == Set::<nat>::empty()
                &&& d@.arrivals.len() == 0
                &&& d@.count == 0
            },
    {
        if limit == 0 {
            return None;
        }
        let mut running: Vec<bool> = Vec::new();
        let mut i: usize = 0;
        while i < total
            invariant
                i <= total,
                running@.len() == i,
                forall|j: int| 0 <= j < i ==> !#[trigger] running@[j],
            decreases total - i,
        {
            running.push(false);
            i = i + 1;
        }
        Some(
            Dispatcher {
                limit,
                total,
                launched: 0,
                active: 0,
                available: 0,
                running,
                in_flight: Ghost(Set::empty()),
                arrivals: Ghost(Seq::empty()),
            },
        )
    }

    /// Number of candidates in the batch.
    pub fn total(&self) -> (r: usize)
        ensures
            r == self@.total,
    {
        self.total
    }

    /// Most probes allowed in flight at once.
    pub fn limit(&self) -> (r: usize)
        ensures
            r == self@.limit,
    {
        self.limit
    }

    /// Number of probes in flight.
    pub fn in_flight_count(&self) -> (r: usize)
        requires
            self.wf(),
        ensures
            r == self@.in_flight.len(),
    {
        self.active
    }

    /// Number of available outcomes reported so far.
    pub fn available_count(&self) -> (r: usize)
        ensures
            r == self@.count,
    {
        self.available
    }

    /// Whether the probe of candidate `idx` is in flight.
    pub fn is_in_flight(&self, idx: usize) -> (r: bool)
        requires
            self.wf(),
        ensures
            r == self@.in_flight.contains(idx as nat),
    {
        if idx < self.total {
            self.running[idx]
        } else {
            false
        }
    }

    /// The next step of the batch. While a slot is free and candidates remain,
    /// the next candidate in input order is admitted at once; otherwise the
    /// caller waits for a completion, or, once nothing is in flight, the batch
    /// is finished with its count of available candidates.
    pub fn next_action(&mut self) -> (a: Action)
        requires
            old(self).wf(),
        ensures
            final(self).wf(),
            old(self)@.can_launch() ==> {
                &&& a == Action::Launch(old(self)@.launched as usize)
                &&& final(self)@ == (DispatchState {
                    launched: old(self)@.launched + 1,
                    in_flight: old(self)@.in_flight.insert(old(self)@.launched),
                    ..old(self)@
                })
            },
            !old(self)@.can_launch() ==> final(self)@ == old(self)@,
            !old(self)@.can_launch() && old(self)@.in_flight.len() > 0 ==> a == Action::Wait,
            !old(self)@.can_launch() && old(self)@.in_flight.len() == 0 ==> {
                &&& a == Action::Finish(old(self)@.count as usize)
                &&& old(self)@.finished()
            },
    {
        if self.active < self.limit && self.launched < self.total {
            let idx = self.launched;
            let ghost old_in_flight = self.in_flight@;
            proof {
                assert(!old_in_flight.contains(idx as nat));
            }
            self.running.set(idx, true);
            self.launched = idx + 1;
            self.active = self.active + 1;
            self.in_flight = Ghost(old_in_flight.insert(idx as nat));
            proof {
                assert forall|i: nat| i < self.launched implies #[trigger] self.in_flight@.contains(i)
                    || arrived(self.arrivals@, i) by {
                    if i == idx as nat {
                        assert(self.in_flight@.contains(i));
                    }
                }
            }
            Action::Launch(idx)
        } else if self.active > 0 {
            Action::Wait
        } else {
            Action::Finish(self.available)
        }
    }

    /// Records that the probe of candidate `idx` finished with `result`. An
    /// available outcome raises the count and is announced; a failure is
    /// announced apart and counts nothing; either way the batch goes on.
    pub fn complete(&mut self, idx: usize, result: ProbeResult) -> (n: Notice)
        requires
            old(self).wf(),
            old(self)@.in_flight.contains(idx as nat),
        ensures
            final(self).wf(),
            final(self)@ == (DispatchState {
                in_flight: old(self)@.in_flight.remove(idx as nat),
                arrivals: old(self)@.arrivals.push((idx as nat, result)),
                count: old(self)@.count + if result is Available {
                    1nat
                } else {
                    0nat
                },
                ..old(self)@
            }),
            result is Available ==> n == Notice::Available(idx),
            result is Unavailable ==> n == Notice::Quiet,
            result matches ProbeResult::Failed(msg) ==> n == Notice::Failed(idx, msg),
    {
        let ghost old_state = self@;
        let ghost entry = (idx as nat, result);
        let ghost new_arrivals = old_state.arrivals.push(entry);
        proof {
            lemma_num_available_bounded(old_state.arrivals);
            assert(new_arrivals.drop_last() =~= old_state.arrivals);
            if old_state.limit == 1 && idx + 1 < old_state.launched {
                let k = idx as int;
                assert(old_state.arrivals[k].0 == idx as nat);
            }
        }
        self.running.set(idx, false);
        self.active = self.active - 1;
        self.in_flight = Ghost(old_state.in_flight.remove(idx as nat));
        self.arrivals = Ghost(new_arrivals);
        let n = match result {
            ProbeResult::Available => {
                self.available = self.available + 1;
                Notice::Available(idx)
            },
            ProbeResult::Unavailable => Notice::Quiet,
            ProbeResult::Failed(msg) => Notice::Failed(idx, msg),
        };
        proof {
            assert forall|i: nat| i < self.launched implies #[trigger] self.in_flight@.contains(i)
                || arrived(self.arrivals@, i) by {
                if i == idx as nat {
                    assert(self.arrivals@[new_arrivals.len() - 1].0 == i);
                } else if !old_state.in_flight.contains(i) {
                    let k = choose|k: int| 0 <= k < old_state.arrivals.len() && #[trigger] old_state.arrivals[k].0 == i;
                    assert(self.arrivals@[k].0 == i);
                }
            }
        }
        n
    }
}

/// The number of available outcomes never exceeds the number of outcomes.
proof fn lemma_num_available_bounded(arr: Seq<(nat, ProbeResult)>)
    ensures
        num_available(arr) <= arr.len(),
    decreases arr.len(),
{
    if arr.len() > 0 {
        lemma_num_available_bounded(arr.drop_last());
    }
}


/// A finished batch has admitted every candidate exactly once: each index
/// below `total` appears among the reported outcomes, no index appears twice,
/// and the final count is the number of available outcomes among them.
pub proof fn lemma_finished_batch_accounts_for_all(s: DispatchState)
    requires
        s.valid(),
        s.finished(),
    ensures
        s.launched == s.total,
        s.arrivals.len() == s.total,
        forall|i: nat| i < s.total ==> arrived(s.arrivals, i),
        forall|k: int, j: int|
            0 <= k < j < s.arrivals.len() ==> #[trigger] s.arrivals[k].0 != #[trigger] s.arrivals[j].0,
        forall|k: int| 0 <= k < s.arrivals.len() ==> #[trigger] s.arrivals[k].0 < s.total,
        s.count == num_available(s.arrivals),
{
    assert forall|i: nat| i < s.total implies arrived(s.arrivals, i) by {
        assert(!s.in_flight.contains(i));
    }
}

/// At every point no more than `min(limit, total)` probes are in flight.
pub proof fn lemma_in_flight_bounded(s: DispatchState)
    requires
        s.valid(),
    ensures
        s.in_flight.len() <= s.limit,
        s.in_flight.len() <= s.total,
{
}

/// An empty batch is finished from the start with a count of zero, so no
/// probe is ever launched.
pub proof fn lemma_empty_batch_launches_nothing(s: DispatchState)
    requires
        s.valid(),
        s.total == 0,
    ensures
        !s.can_launch(),
        s.finished(),
        s.count == 0,
{
}

/// With a limit of one the probes run strictly one after another: the
/// outcomes arrive in input order, and the probe in flight, if any, is the
/// last one admitted.
pub proof fn lemma_limit_one_is_sequential(s: DispatchState)
    requires
        s.valid(),
        s.limit == 1,
    ensures
        forall|k: int| 0 <= k < s.arrivals.len() ==> #[trigger] s.arrivals[k].0 == k,
        s.arrivals.len() + s.in_flight.len() == s.launched,
        forall|i: nat| #[trigger] s.in_flight.contains(i) ==> i + 1 == s.launched,
{
    assert forall|i: nat| #[trigger] s.in_flight.contains(i) implies i + 1 == s.launched by {
        if i + 1 < s.launched {
            assert(s.arrivals[i as int].0 == i);
        }
    }
}

/// Turning one outcome into a failure leaves every other outcome as it was
/// and changes the count only by what that one outcome contributed.
pub proof fn lemma_failure_is_isolated(arr: Seq<(nat, ProbeResult)>, k: int, msg: String)
    requires
        0 <= k < arr.len(),
    ensures
        ({
            let failed = arr.update(k, (arr[k].0, ProbeResult::Failed(msg)));
            &&& forall|j: int| 0 <= j < arr.len() && j != k ==> #[trigger] failed[j] == arr[j]
            &&& num_available(failed) + (if arr[k].1 is Available {
                1nat
            } else {
                0nat
            }) == num_available(arr)
        }),
    decreases arr.len(),
{
    let failed = arr.update(k, (arr[k].0, ProbeResult::Failed(msg)));
    if k == arr.len() - 1 {
        assert(failed.drop_last() =~= arr.drop_last());
    } else {
        lemma_failure_is_isolated(arr.drop_last(), k, msg);
        assert(failed.drop_last() =~= arr.drop_last().update(k, (arr[k].0, ProbeResult::Failed(msg))));
    }
}

} // verus!
