//! Decisions of the worker thread's reporting loop. Each round counts itself,
//! reports the count and sleeps `ROUND_MS` milliseconds; after waking, the
//! loop says goodbye and stops once more than `LAST_ROUND` rounds have run.
//! The sleeping and logging are done by the caller, which hands the state back.

use vstd::prelude::*;

verus! {

/// Milliseconds the worker sleeps after reporting a round.
pub const ROUND_MS: u32 = 2000;

/// The worker stops once its round count exceeds this.
pub const LAST_ROUND: usize = 4;

/// State of the reporting loop: the number of rounds begun so far.
pub struct WorkerLoop {
    rounds: usize,
}

/// What the caller does for a round: log `count`, then sleep `sleep_ms`.
#[derive(Clone, Copy, Debug, PartialEq, Eq, Structural)]
pub struct RoundReport {
    pub count: usize,
    pub sleep_ms: u32,
}

/// Whether a loop that has begun `rounds` rounds stops after waking.
pub open spec fn spec_stops(rounds: nat) -> bool {
    rounds > LAST_ROUND
}

/// Number of rounds a loop that has begun `rounds` rounds still runs.
pub open spec fn spec_rounds_left(rounds: nat) -> nat
    decreases LAST_ROUND + 1 - rounds,
{
    if rounds > LAST_ROUND {
        0
    } else {
        1 + spec_rounds_left(rounds + 1)
    }
}

impl View for WorkerLoop {
    type V = nat;

    /// The number of rounds begun so far.
    closed spec fn view(&self) -> nat {
        self.rounds as nat
    }
}

impl WorkerLoop {
    /// A loop that has not begun any round.
    pub fn new() -> (w: WorkerLoop)
        ensures
            w@ == 0,
    {
        WorkerLoop { rounds: 0 }
    }

    /// The number of rounds begun so far.
    pub fn rounds(&self) -> (n: usize)
        ensures
            n == self@,
    {
        self.rounds
    }

    /// Begins a round: counts it and says what to report and how long to sleep.
    pub fn begin_round(&mut self) -> (report: RoundReport)
        requires
            old(self)@ < usize::MAX,
        ensures
            final(self)@ == old(self)@ + 1,
            report.count == final(self)@,
            report.sleep_ms == ROUND_MS,
    {
        self.rounds = self.rounds + 1;
        RoundReport { count: self.rounds, sleep_ms: ROUND_MS }
    }

    /// After waking: whether the loop says goodbye and stops.
    pub fn should_stop(&self) -> (stop: bool)
        ensures
            stop == spec_stops(self@),
            stop == (self@ > LAST_ROUND),
    {
        self.rounds > LAST_ROUND
    }
}

/// A fresh worker loop runs exactly `LAST_ROUND + 1` rounds: the rounds are
/// counted 1, 2, ..., and the loop stops after the round counted `LAST_ROUND + 1`.
pub proof fn lemma_worker_runs_five_rounds()
    ensures
        spec_rounds_left(0) == LAST_ROUND + 1,
        forall|k: nat| 1 <= k <= LAST_ROUND ==> !spec_stops(k),
        spec_stops((LAST_ROUND + 1) as nat),
{
    reveal_with_fuel(spec_rounds_left, 7);
}

} // verus!
