//! A fixed number of work rounds with a progress line every
//! `REPORT_INTERVAL` rounds: the loop of the clients and of the load tasks.
use vstd::prelude::*;
use crate::plan::REPORT_INTERVAL;

verus! {

/// What a process does next.
#[derive(Clone, Copy, Debug, PartialEq, Eq)]
pub enum RoundStep {
    /// Run round `index`; print a progress line first where `report` holds.
    Run { index: usize, report: bool },
    /// All rounds are done.
    Finished,
}

/// Counts the rounds that a process has started out of `limit`.
#[derive(Debug)]
pub struct Rounds {
    started: usize,
    limit: usize,
}

/// The state of a `Rounds`: rounds started and rounds to run.
pub struct RoundsView {
    pub started: nat,
    pub limit: nat,
}

impl View for Rounds {
    type V = RoundsView;

    closed spec fn view(&self) -> RoundsView {
        RoundsView { started: self.started as nat, limit: self.limit as nat }
    }
}

/// Whether the round with this index begins with a progress line.
pub open spec fn is_report_round(index: nat) -> bool {
    index % (REPORT_INTERVAL as nat) == 0
}

impl RoundsView {
    pub open spec fn wf(self) -> bool {
        &&& self.started <= self.limit
        &&& self.limit <= usize::MAX
    }

    /// The step that `next_round` returns in this state.
    pub open spec fn step(self) -> RoundStep {
        if self.started < self.limit {
            RoundStep::Run { index: self.started as usize, report: is_report_round(self.started) }
        } else {
            RoundStep::Finished
        }
    }

    /// The state after `next_round`.
    pub open spec fn advance(self) -> RoundsView {
        if self.started < self.limit {
            RoundsView { started: self.started + 1, limit: self.limit }
        } else {
            self
        }
    }

    /// The state after `k` calls of `next_round`.
    pub open spec fn after(self, k: nat) -> RoundsView
        decreases k,
    {
        if k == 0 {
            self
        } else {
            self.after((k - 1) as nat).advance()
        }
    }
}

impl Rounds {
    /// A process that has run none of its `limit` rounds.
    pub fn new(limit: usize) -> (rounds: Rounds)
        ensures
            rounds@ == (RoundsView { started: 0, limit: limit as nat }),
            rounds@.wf(),
    {
        Rounds { started: 0, limit }
    }

    /// Rounds started so far.
    pub fn started(&self) -> (n: usize)
        ensures
            n == self@.started,
    {
        self.started
    }

    /// Rounds to run in all.
    pub fn limit(&self) -> (n: usize)
        ensures
            n == self@.limit,
    {
        self.limit
    }

    /// Starts the next round: the next index and whether a progress line goes
    /// first, or `Finished` once all rounds have started.
    pub fn next_round(&mut self) -> (step: RoundStep)
        requires
            old(self)@.wf(),
        ensures
            step == old(self)@.step(),
            final(self)@ == old(self)@.advance(),
            final(self)@.wf(),
    {
        if self.started < self.limit {
            let index = self.started;
            self.started = self.started + 1;
            RoundStep::Run { index, report: index % REPORT_INTERVAL == 0 }
        } else {
            RoundStep::Finished
        }
    }
}

/// Driven from its start, a process runs rounds `0, 1, ..., limit - 1` in
/// this order, each once, with a progress line before exactly those whose
/// index is a multiple of `REPORT_INTERVAL`, and then reports `Finished`
/// for ever.
pub proof fn lemma_rounds_schedule(limit: nat, k: nat)
    requires
        limit <= usize::MAX,
    ensures
        (RoundsView { started: 0, limit }).after(k).started == if k < limit {
            k
        } else {
            limit
        },
        (RoundsView { started: 0, limit }).after(k).limit == limit,
        (RoundsView { started: 0, limit }).after(k).wf(),
        k < limit ==> (RoundsView { started: 0, limit }).after(k).step() == (RoundStep::Run {
            index: k as usize,
            report: k % (REPORT_INTERVAL as nat) == 0,
        }),
        k >= limit ==> (RoundsView { started: 0, limit }).after(k).step() == RoundStep::Finished,
    decreases k,
{
    if k > 0 {
        lemma_rounds_schedule(limit, (k - 1) as nat);
    }
}

} // verus!
