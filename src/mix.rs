//! The mixed read/write workload's choice of operation and file.
use vstd::prelude::*;

verus! {

/// A page-sized file operation.
#[derive(Clone, Copy, Debug, PartialEq, Eq, Structural)]
pub enum Op {
    Read,
    Write,
}

/// Operation `iteration` is a write when its position within each hundred
/// operations falls below the write ratio, a percentage.
pub open spec fn op_for(iteration: u64, write_ratio: usize) -> Op {
    if ((iteration % 100) as int) < write_ratio {
        Op::Write
    } else {
        Op::Read
    }
}

/// The operation that a worker issues as its `iteration`-th.
pub fn mix_op(iteration: u64, write_ratio: usize) -> (r: Op)
    ensures
        r == op_for(iteration, write_ratio),
{
    if ((iteration % 100) as usize) < write_ratio {
        Op::Write
    } else {
        Op::Read
    }
}

/// The worker's files are used in turn: operation `iteration` goes to file
/// `iteration % open_files`.
pub fn mix_file(iteration: u64, open_files: usize) -> (r: usize)
    requires
        open_files > 0,
    ensures
        r == iteration % (open_files as u64),
        r < open_files,
{
    (iteration % (open_files as u64)) as usize
}

/// A write ratio of 0 issues no write at all, and one of 100 or more issues no read.
pub proof fn lemma_write_ratio_extremes(iteration: u64, write_ratio: usize)
    ensures
        write_ratio == 0 ==> op_for(iteration, write_ratio) == Op::Read,
        write_ratio >= 100 ==> op_for(iteration, write_ratio) == Op::Write,
{
}

/// Of every hundred consecutive operations that start at a multiple of a
/// hundred, exactly `write_ratio` (at most 100) are writes.
pub proof fn lemma_writes_per_hundred(start: u64, write_ratio: usize, j: u64)
    requires
        start % 100 == 0,
        j < 100,
        start + j <= u64::MAX,
    ensures
        op_for((start + j) as u64, write_ratio) == Op::Write <==> j < write_ratio,
{
    assert(((start + j) as u64) % 100 == j);
}

} // verus!
