//! The cores of this machine, as the platform reports them, and the size of
//! an open-file table that has a slot for each of them.
use vstd::prelude::*;

verus! {

/// Core identifiers listed in strictly ascending order, so each appears once.
pub open spec fn ascending(ids: Seq<usize>) -> bool {
    forall|i: int, j: int| 0 <= i < j < ids.len() ==> ids[i] < ids[j]
}

/// Relies on core_affinity::get_core_ids: the identifiers of the cores that the
/// calling thread may run on, or nothing where the platform cannot tell. On
/// every platform the crate builds the list by scanning identifiers upwards,
/// so it is strictly ascending; which cores it holds depends on the machine.
#[verifier::external_body]
fn affinity_core_ids() -> (r: Option<Vec<usize>>)
    ensures
        r matches Some(ids) ==> ascending(ids@),
{
    core_affinity::get_core_ids().map(|ids| ids.into_iter().map(|c| c.id).collect())
}

/// The identifiers of the cores a run can be placed on, in ascending order;
/// none where the platform cannot tell.
pub fn machine_cores() -> (r: Vec<usize>)
    ensures
        ascending(r@),
{
    match affinity_core_ids() {
        Some(ids) => ids,
        None => Vec::new(),
    }
}

/// The number of slots that a table indexed by the identifiers `ids` needs:
/// one past the largest of them, or 0 for no identifiers.
pub open spec fn slots_for(ids: Seq<usize>) -> int
    decreases ids.len(),
{
    if ids.len() == 0 {
        0
    } else {
        let rest = slots_for(ids.drop_last());
        if ids.last() + 1 > rest {
            ids.last() + 1
        } else {
            rest
        }
    }
}

proof fn lemma_slots_bound(ids: Seq<usize>, i: int)
    requires
        0 <= i < ids.len(),
    ensures
        ids[i] < slots_for(ids),
    decreases ids.len(),
{
    if i < ids.len() - 1 {
        lemma_slots_bound(ids.drop_last(), i);
    }
}

proof fn lemma_slots_nonneg(ids: Seq<usize>)
    ensures
        0 <= slots_for(ids),
    decreases ids.len(),
{
    if ids.len() > 0 {
        lemma_slots_nonneg(ids.drop_last());
    }
}

/// The size of an open-file table with a slot for each of `cores`: one past
/// the largest identifier. No size exists when an identifier is `usize::MAX`.
pub fn table_size(cores: &Vec<usize>) -> (r: Option<usize>)
    ensures
        match r {
            Some(n) => n == slots_for(cores@) && forall|i: int|
                0 <= i < cores@.len() ==> cores@[i] < n,
            None => exists|i: int| 0 <= i < cores@.len() && cores@[i] == usize::MAX,
        },
{
    let mut n: usize = 0;
    let mut i: usize = 0;
    while i < cores.len()
        invariant
            i <= cores@.len(),
            n == slots_for(cores@.subrange(0, i as int)),
        decreases cores@.len() - i,
    {
        assert(cores@.subrange(0, i + 1).drop_last() =~= cores@.subrange(0, i as int));
        if cores[i] == usize::MAX {
            return None;
        }
        if cores[i] + 1 > n {
            n = cores[i] + 1;
        }
        i = i + 1;
    }
    assert(cores@.subrange(0, cores@.len() as int) =~= cores@);
    proof {
        assert forall|k: int| 0 <= k < cores@.len() implies cores@[k] < n by {
            lemma_slots_bound(cores@, k);
        }
    }
    Some(n)
}

/// The cores of this machine, in ascending order, and the number of slots an
/// open-file table needs to give each of them its own: one past the largest
/// identifier. There is no such number when an identifier is `usize::MAX`.
pub fn max_open_files() -> (r: (Vec<usize>, Option<usize>))
    ensures
        ascending(r.0@),
        match r.1 {
            Some(n) => n == slots_for(r.0@) && forall|i: int|
                0 <= i < r.0@.len() ==> r.0@[i] < n,
            None => exists|i: int| 0 <= i < r.0@.len() && r.0@[i] == usize::MAX,
        },
{
    let cores = machine_cores();
    let size = table_size(&cores);
    let r = (cores, size);
    proof {
        if r.1 is None {
            let k = choose|k: int| 0 <= k < r.0@.len() && r.0@[k] == usize::MAX;
            assert(r.0@[k] == usize::MAX);
        }
    }
    r
}

} // verus!
