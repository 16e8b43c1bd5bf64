//! The open-file table: one descriptor slot per core, sized to the cores of the machine.
use vstd::prelude::*;

verus! {

/// The descriptor of a slot that holds no open file.
pub const NO_FILE: i32 = -1;

/// Why a table operation was refused.
#[derive(Clone, Copy, Debug, PartialEq, Eq, Structural)]
pub enum TableError {
    /// The core identifier is not below the table's size.
    CoreOutOfRange,
    /// The core's slot holds no open file.
    NotOpen,
}

/// The descriptor of each core's file, by core identifier.
pub struct OpenFileTable {
    pub fds: Vec<i32>,
}

impl OpenFileTable {
    /// A table with `max_cores` slots, none of them open.
    pub fn new(max_cores: usize) -> (r: OpenFileTable)
        ensures
            r.fds@ == Seq::new(max_cores as nat, |i: int| NO_FILE),
    {
        let mut fds: Vec<i32> = Vec::new();
        let mut i: usize = 0;
        while i < max_cores
            invariant
                i <= max_cores,
                fds@ == Seq::new(i as nat, |k: int| NO_FILE),
            decreases max_cores - i,
        {
            fds.push(NO_FILE);
            i = i + 1;
            assert(fds@ =~= Seq::new(i as nat, |k: int| NO_FILE));
        }
        OpenFileTable { fds }
    }

    /// The number of slots.
    pub fn capacity(&self) -> (r: usize)
        ensures
            r == self.fds@.len(),
    {
        self.fds.len()
    }

    /// Stores `fd` in the slot of `core`. A core beyond the table is refused
    /// and leaves every slot as it was.
    pub fn set(&mut self, core: u64, fd: i32) -> (r: Result<(), TableError>)
        ensures
            (core as int) < old(self).fds@.len() ==> r is Ok && final(self).fds@ == old(
                self,
            ).fds@.update(core as int, fd),
            (core as int) >= old(self).fds@.len() ==> r == Err::<(), _>(
                TableError::CoreOutOfRange,
            ) && final(self).fds@ == old(self).fds@,
    {
        if core >= self.fds.len() as u64 {
            return Err(TableError::CoreOutOfRange);
        }
        self.fds.set(core as usize, fd);
        Ok(())
    }

    /// The open descriptor of `core`.
    pub fn lookup(&self, core: u64) -> (r: Result<i32, TableError>)
        ensures
            r == self.lookup_spec(core),
    {
        if core >= self.fds.len() as u64 {
            return Err(TableError::CoreOutOfRange);
        }
        let fd = self.fds[core as usize];
        if fd == NO_FILE {
            Err(TableError::NotOpen)
        } else {
            Ok(fd)
        }
    }

    /// Marks the slot of `core` as holding no file, giving back what it held.
    pub fn take(&mut self, core: u64) -> (r: Result<i32, TableError>)
        ensures
            r == old(self).lookup_spec(core),
            (core as int) < old(self).fds@.len() ==> final(self).fds@ == old(self).fds@.update(
                core as int,
                NO_FILE,
            ),
            (core as int) >= old(self).fds@.len() ==> final(self).fds@ == old(self).fds@,
    {
        let r = self.lookup(core);
        if core < self.fds.len() as u64 {
            self.fds.set(core as usize, NO_FILE);
        }
        r
    }

    /// Setup's check before it creates anything: every core of the run has a
    /// slot. On refusal no file is created and no slot is written.
    pub fn check_init_cores(&self, cores: &Vec<u64>) -> (r: Result<(), TableError>)
        ensures
            r is Ok <==> forall|i: int| 0 <= i < cores@.len() ==> (cores@[i] as int) < self.fds@.len(),
            r is Err ==> r == Err::<(), TableError>(TableError::CoreOutOfRange),
    {
        let mut i: usize = 0;
        while i < cores.len()
            invariant
                i <= cores@.len(),
                forall|k: int| 0 <= k < i ==> (cores@[k] as int) < self.fds@.len(),
            decreases cores@.len() - i,
        {
            if cores[i] >= self.fds.len() as u64 {
                return Err(TableError::CoreOutOfRange);
            }
            i = i + 1;
        }
        Ok(())
    }

    /// What `lookup` gives for `core`: out of range past the table's size, not
    /// open for an empty slot, else the slot's descriptor.
    pub open spec fn lookup_spec(&self, core: u64) -> Result<i32, TableError> {
        if (core as int) >= self.fds@.len() {
            Err(TableError::CoreOutOfRange)
        } else if self.fds@[core as int] == NO_FILE {
            Err(TableError::NotOpen)
        } else {
            Ok(self.fds@[core as int])
        }
    }
}

/// Storing a descriptor for a core inside the table (what `set` does when it
/// succeeds) makes that core's lookup give it back and leaves every other
/// core's lookup as it was; `set` refuses any core at or past the table's size.
pub proof fn lemma_set_is_confined(t: OpenFileTable, t2: OpenFileTable, core: u64, fd: i32, other: u64)
    requires
        (core as int) < t.fds@.len(),
        t2.fds@ == t.fds@.update(core as int, fd),
        other != core,
    ensures
        fd != NO_FILE ==> t2.lookup_spec(core) == Ok::<i32, TableError>(fd),
        fd == NO_FILE ==> t2.lookup_spec(core) == Err::<i32, TableError>(TableError::NotOpen),
        t2.lookup_spec(other) == t.lookup_spec(other),
{
}

} // verus!
