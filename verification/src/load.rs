//! Synthetic CPU load: a number of cycles of work, run straight through (the
//! plain load) or, in the cooperative variant, with a pause for the scheduler
//! before every cycle whose index is a multiple of `YIELD_INTERVAL`.
use vstd::prelude::*;
use crate::plan::YIELD_INTERVAL;

verus! {

/// Runs `burn` on the cycle indices below `number_of_cycles`, without
/// pausing, by driving the plain load (`SystemLoad::plain`) and calling
/// `burn` on each cycle it hands out. The contract states that `burn`'s
/// postcondition holds for every index below the count; which cycles the
/// plain load hands out, and in what order, `lemma_load_runs_every_cycle_once`
/// states.
pub fn sync_system_load<F: Fn(usize)>(number_of_cycles: usize, burn: &F)
    requires
        forall|n: usize| n < number_of_cycles ==> #[trigger] burn.requires((n,)),
    ensures
        forall|n: usize| n < number_of_cycles ==> #[trigger] burn.ensures((n,), ()),
{
    let mut load = SystemLoad::plain(number_of_cycles);
    loop
        invariant
            load@.wf(),
            load@.cycles == number_of_cycles,
            !load@.cooperative,
            forall|k: usize| k < number_of_cycles ==> #[trigger] burn.requires((k,)),
            forall|k: usize| k < load@.next ==> #[trigger] burn.ensures((k,), ()),
        ensures
            forall|n: usize| n < number_of_cycles ==> #[trigger] burn.ensures((n,), ()),
        decreases load@.steps_left(),
    {
        proof {
            lemma_load_progress(load@);
        }
        match load.step() {
            LoadStep::Burn(k) => burn(k),
            LoadStep::Pause => {},
            LoadStep::Finished => break,
        }
    }
}

/// What a load does next.
#[derive(Clone, Copy, Debug, PartialEq, Eq)]
pub enum LoadStep {
    /// Yield to the scheduler.
    Pause,
    /// Run the work of this cycle.
    Burn(usize),
    /// All cycles are done.
    Finished,
}

/// A load of `cycles` cycles, of which `next` are done; a cooperative one
/// pauses before some of them.
#[derive(Debug)]
pub struct SystemLoad {
    next: usize,
    cycles: usize,
    paused: bool,
    cooperative: bool,
}

/// The state of a `SystemLoad`: cycles done, cycles in all, whether the
/// pause before cycle `next` has been taken, and whether the load pauses.
pub struct LoadView {
    pub next: nat,
    pub cycles: nat,
    pub paused: bool,
    pub cooperative: bool,
}

impl View for SystemLoad {
    type V = LoadView;

    closed spec fn view(&self) -> LoadView {
        LoadView {
            next: self.next as nat,
            cycles: self.cycles as nat,
            paused: self.paused,
            cooperative: self.cooperative,
        }
    }
}

/// Whether a cooperative load pauses before the cycle with this index.
pub open spec fn pauses_before(index: nat) -> bool {
    index % (YIELD_INTERVAL as nat) == 0
}

impl LoadView {
    pub open spec fn wf(self) -> bool {
        &&& self.next <= self.cycles <= usize::MAX
        &&& self.paused ==> self.cooperative && self.next < self.cycles && pauses_before(
            self.next,
        )
    }

    /// Whether the load still has to pause before cycle `next`.
    pub open spec fn pause_due(self) -> bool {
        self.cooperative && pauses_before(self.next) && !self.paused
    }

    /// The step that `step` returns in this state.
    pub open spec fn action(self) -> LoadStep {
        if self.next >= self.cycles {
            LoadStep::Finished
        } else if self.pause_due() {
            LoadStep::Pause
        } else {
            LoadStep::Burn(self.next as usize)
        }
    }

    /// The state after `step`.
    pub open spec fn advance(self) -> LoadView {
        if self.next >= self.cycles {
            self
        } else if self.pause_due() {
            LoadView { paused: true, ..self }
        } else {
            LoadView { next: self.next + 1, paused: false, ..self }
        }
    }

    /// The state after `k` calls of `step`.
    pub open spec fn after(self, k: nat) -> LoadView
        decreases k,
    {
        if k == 0 {
            self
        } else {
            self.after((k - 1) as nat).advance()
        }
    }

    /// The cycle indices handed out by the first `k` calls of `step`, in order.
    pub open spec fn burned(self, k: nat) -> Seq<nat>
        decreases k,
    {
        if k == 0 {
            Seq::empty()
        } else {
            match self.after((k - 1) as nat).action() {
                LoadStep::Burn(n) => self.burned((k - 1) as nat).push(n as nat),
                _ => self.burned((k - 1) as nat),
            }
        }
    }

    /// Steps left before `Finished`: one per cycle still to run, and one per
    /// pause still to come.
    pub open spec fn steps_left(self) -> nat {
        let upcoming = self.cycles - self.next;
        if upcoming <= 0 {
            0
        } else {
            (upcoming + (if self.cooperative {
                pause_count(self.next, self.cycles) as int
            } else {
                0int
            }) - if self.paused {
                1int
            } else {
                0int
            }) as nat
        }
    }
}

/// The number of indices in `from..to` that a cooperative load pauses before.
pub open spec fn pause_count(from: nat, to: nat) -> nat
    decreases to - from,
{
    if from >= to {
        0
    } else {
        pause_count(from + 1, to) + if pauses_before(from) {
            1nat
        } else {
            0nat
        }
    }
}

/// A load of `cycles` cycles, none of them done.
pub open spec fn load_start(cycles: nat, cooperative: bool) -> LoadView {
    LoadView { next: 0, cycles, paused: false, cooperative }
}

/// The indices `0, 1, ..., count - 1`, in this order.
pub open spec fn indices(count: nat) -> Seq<nat> {
    Seq::new(count, |i: int| i as nat)
}

impl SystemLoad {
    /// A cooperative load of `cycles` cycles, none of them done.
    pub fn new(cycles: usize) -> (load: SystemLoad)
        ensures
            load@ == load_start(cycles as nat, true),
            load@.wf(),
    {
        SystemLoad { next: 0, cycles, paused: false, cooperative: true }
    }

    /// A plain load of `cycles` cycles, none of them done: it never pauses.
    pub fn plain(cycles: usize) -> (load: SystemLoad)
        ensures
            load@ == load_start(cycles as nat, false),
            load@.wf(),
    {
        SystemLoad { next: 0, cycles, paused: false, cooperative: false }
    }

    /// The next thing to do: for a cooperative load, pause before every
    /// cycle whose index is a multiple of `YIELD_INTERVAL`; run the cycles in
    /// order; then `Finished`.
    pub fn step(&mut self) -> (step: LoadStep)
        requires
            old(self)@.wf(),
        ensures
            step == old(self)@.action(),
            final(self)@ == old(self)@.advance(),
            final(self)@.wf(),
    {
        if self.next >= self.cycles {
            LoadStep::Finished
        } else if self.cooperative && self.next % YIELD_INTERVAL == 0 && !self.paused {
            self.paused = true;
            LoadStep::Pause
        } else {
            let n = self.next;
            self.next = self.next + 1;
            self.paused = false;
            LoadStep::Burn(n)
        }
    }
}

/// Every step but `Finished` brings a load one step closer to `Finished`,
/// which it reaches after exactly one step per cycle and one per pause:
/// `cycles` steps for a plain load, `cycles + pause_count(0, cycles)` for a
/// cooperative one.
pub proof fn lemma_load_progress(v: LoadView)
    requires
        v.wf(),
    ensures
        v.action() != LoadStep::Finished ==> v.advance().steps_left() + 1 == v.steps_left(),
        v.action() == LoadStep::Finished <==> v.steps_left() == 0,
        v.advance().wf(),
        v.advance().cycles == v.cycles,
        v.advance().cooperative == v.cooperative,
{
    if v.next < v.cycles {
        if pauses_before(v.next) {
            assert(pause_count(v.next, v.cycles) == pause_count(v.next + 1, v.cycles) + 1);
        } else {
            assert(pause_count(v.next, v.cycles) == pause_count(v.next + 1, v.cycles));
        }
    }
}

/// Driven from its start, a load, plain or cooperative, hands out the cycles
/// `0, 1, ..., cycles - 1`, in this order and each once; the only other steps
/// are a cooperative load's pauses. After `steps_left` steps it has handed out
/// all of them and reports `Finished`.
pub proof fn lemma_load_runs_every_cycle_once(cycles: nat, cooperative: bool, k: nat)
    requires
        cycles <= usize::MAX,
    ensures
        load_start(cycles, cooperative).after(k).wf(),
        load_start(cycles, cooperative).after(k).cycles == cycles,
        load_start(cycles, cooperative).after(k).cooperative == cooperative,
        load_start(cycles, cooperative).burned(k) == indices(
            load_start(cycles, cooperative).after(k).next,
        ),
        k <= load_start(cycles, cooperative).steps_left() ==> load_start(
            cycles,
            cooperative,
        ).after(k).steps_left() == load_start(cycles, cooperative).steps_left() - k,
        k >= load_start(cycles, cooperative).steps_left() ==> load_start(
            cycles,
            cooperative,
        ).after(k).action() == LoadStep::Finished && load_start(cycles, cooperative).burned(k)
            == indices(cycles),
    decreases k,
{
    let start = load_start(cycles, cooperative);
    if k == 0 {
        assert(start.burned(0) =~= indices(0));
        lemma_load_progress(start);
    } else {
        let k1 = (k - 1) as nat;
        lemma_load_runs_every_cycle_once(cycles, cooperative, k1);
        let prev = start.after(k1);
        lemma_load_progress(prev);
        match prev.action() {
            LoadStep::Burn(n) => {
                assert(start.burned(k) =~= indices(prev.next + 1));
            },
            _ => {},
        }
        let last = start.after(k);
        assert(last == prev.advance());
        if k >= start.steps_left() {
            lemma_load_progress(last);
            if prev.action() == LoadStep::Finished {
                assert(last == prev);
            } else {
                assert(last.steps_left() == 0);
            }
            assert(last.action() == LoadStep::Finished);
            assert(last.next == cycles);
        }
    }
}

/// The cooperative load runs exactly the cycles of the plain load, in the same
/// order: both hand out `0, 1, ..., cycles - 1` before they finish. They
/// differ only in the pauses, one per index that is a multiple of
/// `YIELD_INTERVAL`.
pub proof fn lemma_cooperative_load_runs_the_plain_cycles(cycles: nat)
    requires
        cycles <= usize::MAX,
    ensures
        load_start(cycles, true).burned(load_start(cycles, true).steps_left()) == load_start(
            cycles,
            false,
        ).burned(load_start(cycles, false).steps_left()),
        load_start(cycles, false).steps_left() == cycles,
        load_start(cycles, true).steps_left() == cycles + pause_count(0, cycles),
{
    lemma_load_runs_every_cycle_once(cycles, true, load_start(cycles, true).steps_left());
    lemma_load_runs_every_cycle_once(cycles, false, load_start(cycles, false).steps_left());
}

/// A cooperative load that has not yet paused before its next cycle pauses
/// exactly when that cycle's index is a multiple of `YIELD_INTERVAL`; after the
/// pause it runs that cycle. A plain load never pauses.
pub proof fn lemma_pause_exactly_before_multiples(v: LoadView)
    requires
        v.wf(),
        v.next < v.cycles,
    ensures
        v.cooperative && !v.paused ==> (v.action() == LoadStep::Pause <==> v.next % (
        YIELD_INTERVAL as nat) == 0),
        v.action() != LoadStep::Pause ==> v.action() == LoadStep::Burn(v.next as usize),
        v.paused ==> v.action() == LoadStep::Burn(v.next as usize),
        !v.cooperative ==> v.action() == LoadStep::Burn(v.next as usize),
{
}

proof fn lemma_pause_count_extend(from: nat, to: nat)
    requires
        from <= to,
    ensures
        pause_count(from, to + 1) == pause_count(from, to) + if to % (YIELD_INTERVAL as nat) == 0 {
            1nat
        } else {
            0nat
        },
    decreases to - from,
{
    if from < to {
        lemma_pause_count_extend(from + 1, to);
    } else {
        assert(pause_count(to + 1, to + 1) == 0);
        assert(pause_count(to, to) == 0);
    }
}

/// A cooperative load of `cycles` cycles pauses `ceil(cycles / YIELD_INTERVAL)`
/// times in all (before cycles `0, 100, 200, ...`), so it takes that many steps
/// more than the plain load before it finishes.
pub proof fn lemma_pause_total(cycles: nat)
    ensures
        pause_count(0, cycles) == (cycles + YIELD_INTERVAL - 1) / (YIELD_INTERVAL as int),
        load_start(cycles, true).steps_left() == cycles + (cycles + YIELD_INTERVAL - 1) / (
        YIELD_INTERVAL as int),
    decreases cycles,
{
    if cycles > 0 {
        let c = (cycles - 1) as nat;
        lemma_pause_total(c);
        lemma_pause_count_extend(0, c);
        assert((c + 100) / 100 == (c + 99) / 100 + if c % 100 == 0 {
            1int
        } else {
            0int
        }) by (nonlinear_arith);
    }
}

} // verus!
