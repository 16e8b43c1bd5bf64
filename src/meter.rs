//! The per-second operation counts of one worker during a timed run.
use vstd::prelude::*;

verus! {

/// The operations that each workload issues between two looks at the clock.
pub const BATCH: usize = 128;

/// The size of every read and write that a workload issues.
pub const PAGE_SIZE: usize = 1024;

/// A worker's throughput series while it is being measured: `series` holds the
/// counts of the seconds already closed, `current` the count of the open one.
pub struct WorkerMeter {
    pub duration: u64,
    pub current: usize,
    pub series: Vec<usize>,
}

impl WorkerMeter {
    /// No more seconds are closed than the run lasts.
    pub open spec fn wf(&self) -> bool {
        self.series@.len() <= self.duration
    }

    /// Every second of the run has been closed.
    pub open spec fn finished(&self) -> bool {
        self.series@.len() == self.duration
    }

    /// A meter for a run of `duration` seconds, with nothing counted yet.
    pub fn new(duration: u64) -> (r: WorkerMeter)
        ensures
            r.wf(),
            r.duration == duration,
            r.current == 0,
            r.series@ == Seq::<usize>::empty(),
    {
        WorkerMeter { duration, current: 0, series: Vec::new() }
    }

    /// Counts `n` more completed operations in the open second; the count
    /// stops at `usize::MAX` rather than wrapping.
    pub fn record(&mut self, n: usize)
        requires
            old(self).wf(),
        ensures
            final(self).wf(),
            final(self).duration == old(self).duration,
            final(self).series@ == old(self).series@,
            final(self).current == saturating(old(self).current + n),
    {
        self.current = self.current.saturating_add(n);
    }

    /// Closes the open second: its count joins the series and the next second starts at zero.
    pub fn end_second(&mut self)
        requires
            old(self).wf(),
            !old(self).finished(),
        ensures
            final(self).wf(),
            final(self).duration == old(self).duration,
            final(self).series@ == old(self).series@.push(old(self).current),
            final(self).current == 0,
    {
        self.series.push(self.current);
        self.current = 0;
    }

    /// Counts a finished batch of `ops` operations and, when the clock says the
    /// open second is over, closes it. Returns whether the run is now done, which
    /// is when the worker stops issuing operations.
    pub fn after_batch(&mut self, ops: usize, second_over: bool) -> (done: bool)
        requires
            old(self).wf(),
            !old(self).finished(),
        ensures
            final(self).wf(),
            final(self).duration == old(self).duration,
            second_over ==> final(self).series@ == old(self).series@.push(
                saturating(old(self).current + ops),
            ) && final(self).current == 0,
            !second_over ==> final(self).series@ == old(self).series@ && final(self).current
                == saturating(old(self).current + ops),
            final(self).series@.len() == seconds_closed(
                old(self).series@.len(),
                old(self).duration as nat,
                second_over,
            ),
            done == final(self).finished(),
    {
        self.record(ops);
        if second_over {
            self.end_second();
        }
        self.is_done()
    }

    /// Whether every second of the run has been closed.
    pub fn is_done(&self) -> (r: bool)
        requires
            self.wf(),
        ensures
            r == self.finished(),
    {
        (self.series.len() as u64) == self.duration
    }

    /// The finished series: one count per second of the run, the first second first.
    pub fn into_series(self) -> (r: Vec<usize>)
        requires
            self.wf(),
            self.finished(),
        ensures
            r@ == self.series@,
            r@.len() == self.duration,
    {
        self.series
    }
}

/// A count that stops at `usize::MAX`.
pub open spec fn saturating(n: int) -> usize {
    if n > usize::MAX {
        usize::MAX
    } else {
        n as usize
    }
}

/// The seconds closed after one batch of a run of `duration` seconds that had
/// closed `closed` of them.
pub open spec fn seconds_closed(closed: nat, duration: nat, second_over: bool) -> nat {
    if second_over && closed < duration {
        closed + 1
    } else {
        closed
    }
}

/// The seconds closed after the batches `ends` of a run, in order, where
/// `ends[i]` says whether the clock had passed a second after batch `i`.
pub open spec fn closed_after(duration: nat, ends: Seq<bool>) -> nat
    decreases ends.len(),
{
    if ends.len() == 0 {
        0
    } else {
        seconds_closed(closed_after(duration, ends.drop_last()), duration, ends.last())
    }
}

/// The number of batches after which the clock had passed a second.
pub open spec fn second_ends(ends: Seq<bool>) -> nat
    decreases ends.len(),
{
    if ends.len() == 0 {
        0
    } else {
        second_ends(ends.drop_last()) + if ends.last() {
            1nat
        } else {
            0nat
        }
    }
}

/// A worker driven by `after_batch` closes one second each time the clock
/// passes one, until `duration` are closed: its series then has exactly
/// `duration` counts, however many operations each second held.
pub proof fn lemma_series_length(duration: nat, ends: Seq<bool>)
    ensures
        closed_after(duration, ends) == if second_ends(ends) < duration {
            second_ends(ends)
        } else {
            duration
        },
    decreases ends.len(),
{
    if ends.len() > 0 {
        lemma_series_length(duration, ends.drop_last());
    }
}

} // verus!
