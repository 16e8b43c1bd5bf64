//! The decisions of a reusable counting barrier: how many workers a run waits
//! for, and when they may go on.
use vstd::prelude::*;

verus! {

/// What happens to a barrier: a new run sets how many workers it waits for, or a worker arrives.
pub enum BarrierEvent {
    Reset(usize),
    Arrive,
}

/// The arrivals since the last reset, out of the number expected.
#[derive(Clone, Copy, Debug, PartialEq, Eq, Structural)]
pub struct BarrierCount {
    pub expected: usize,
    pub arrived: usize,
}

/// The barrier after one event. Arrivals beyond the expected number change nothing.
pub open spec fn step(b: BarrierCount, e: BarrierEvent) -> BarrierCount {
    match e {
        BarrierEvent::Reset(n) => BarrierCount { expected: n, arrived: 0 },
        BarrierEvent::Arrive => if b.arrived < b.expected {
            BarrierCount { expected: b.expected, arrived: (b.arrived + 1) as usize }
        } else {
            b
        },
    }
}

/// The barrier after a history of events, the earliest first.
pub open spec fn replay(b: BarrierCount, es: Seq<BarrierEvent>) -> BarrierCount
    decreases es.len(),
{
    if es.len() == 0 {
        b
    } else {
        step(replay(b, es.drop_last()), es.last())
    }
}

/// Workers waiting on the barrier may go on.
pub open spec fn released(b: BarrierCount) -> bool {
    b.arrived >= b.expected
}

/// `k` arrivals in a row.
pub open spec fn arrivals(k: nat) -> Seq<BarrierEvent> {
    Seq::new(k, |i: int| BarrierEvent::Arrive)
}

impl BarrierCount {
    /// A barrier that waits for nobody.
    pub fn new() -> (r: BarrierCount)
        ensures
            r == (BarrierCount { expected: 0, arrived: 0 }),
    {
        BarrierCount { expected: 0, arrived: 0 }
    }

    /// Starts a run that waits for `n` workers; arrivals of earlier runs no longer count.
    pub fn reset(&mut self, n: usize)
        ensures
            *final(self) == step(*old(self), BarrierEvent::Reset(n)),
    {
        self.expected = n;
        self.arrived = 0;
    }

    /// Records one worker's arrival; true once every expected worker has arrived.
    pub fn arrive(&mut self) -> (r: bool)
        ensures
            *final(self) == step(*old(self), BarrierEvent::Arrive),
            r == released(*final(self)),
    {
        if self.arrived < self.expected {
            self.arrived = self.arrived + 1;
        }
        self.arrived >= self.expected
    }

    /// Whether waiting workers may go on.
    pub fn is_released(&self) -> (r: bool)
        ensures
            r == released(*self),
    {
        self.arrived >= self.expected
    }
}

/// Whatever came before, after a reset for `n` workers and `k` arrivals the
/// barrier has counted `min(k, n)` of them, and it lets workers go on exactly
/// when `k >= n`: nobody passes before the `n`-th worker has arrived.
pub proof fn lemma_barrier_waits_for_all(b: BarrierCount, history: Seq<BarrierEvent>, n: usize, k: nat)
    ensures
        replay(b, history.push(BarrierEvent::Reset(n)) + arrivals(k)).expected == n,
        replay(b, history.push(BarrierEvent::Reset(n)) + arrivals(k)).arrived == if k < n {
            k
        } else {
            n as nat
        },
        released(replay(b, history.push(BarrierEvent::Reset(n)) + arrivals(k))) <==> k >= n,
    decreases k,
{
    let h = history.push(BarrierEvent::Reset(n));
    if k == 0 {
        assert(h + arrivals(0) =~= h);
        assert(h.drop_last() =~= history);
    } else {
        lemma_barrier_waits_for_all(b, history, n, (k - 1) as nat);
        assert((h + arrivals(k)).drop_last() =~= h + arrivals((k - 1) as nat));
        assert((h + arrivals(k)).last() == BarrierEvent::Arrive);
    }
}

} // verus!
