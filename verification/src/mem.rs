//! A memory that counts the commands it is given and keeps a record of
//! those it refused.

use crate::algos::{no_fit, AllocationMethod};
use crate::area::{AError, Area, Layout};
use crate::block::BError;
use crate::cmd::{Cmd, CmdType};
use crate::layout::{has_id, total_size};
use crate::simulation::{apply, outcome};
use vstd::prelude::*;

verus! {

/// Why the memory refused an operation.
#[derive(Debug, Clone, Copy, PartialEq, Eq, Structural)]
pub enum MError {
    /// No free block holds the request: requested size, id, and the sum of
    /// the sizes of all free blocks.
    Alloc(u64, u64, u64),
    /// No used block carries the id.
    Dealloc(u64),
    /// There is no free block, so nothing can be gained.
    Compact,
    /// A block refused its part of the operation.
    BlockError(BError),
    /// The id is that of a block in use.
    InUse(u64),
    /// A request for no address at all, under the id given.
    ZeroSize(u64),
}

/// What an operation on a memory hands back.
pub type MResult<T> = std::result::Result<T, MError>;

/// How a request for `n` addresses under `id`, served by first-fit, ends
/// in state `l`.
pub open spec fn alloc_result(l: Layout, id: u64, n: u64) -> MResult<()> {
    if n == 0 {
        Err(MError::ZeroSize(id))
    } else if has_id(l.used, id) {
        Err(MError::InUse(id))
    } else if no_fit(l.free, n) {
        Err(MError::Alloc(n, id, total_size(l.free) as u64))
    } else {
        Ok(())
    }
}

/// How giving back the block used under `id` ends in state `l`.
pub open spec fn dealloc_result(l: Layout, id: u64) -> MResult<()> {
    if has_id(l.used, id) {
        Ok(())
    } else {
        Err(MError::Dealloc(id))
    }
}

/// How compaction ends in state `l`.
pub open spec fn compact_result(l: Layout) -> MResult<()> {
    if l.free.len() == 0 {
        Err(MError::Compact)
    } else {
        Ok(())
    }
}

/// How a command ended: done, or refused. A refusal holds the number of the
/// command among the commands given, counted from 1.
#[derive(Debug, Clone, Copy, PartialEq, Eq, Structural)]
pub enum Result {
    /// The command was done.
    Done,
    /// The id asked for, the number of the command, and the sum of the
    /// sizes of the free blocks at that time.
    AllocErr(u64, u64, u64),
    /// The id asked for, the number of the command, and 1 if a request to
    /// allocate under that id was refused before, else 0.
    DeallocErr(u64, u64, u64),
    /// The number of the command.
    CompactErr(u64),
}

impl Result {
    /// The line records a refused request to allocate under `id`.
    pub open spec fn refused_alloc(self, id: u64) -> bool {
        match self {
            Result::AllocErr(x, _, _) => x == id,
            _ => false,
        }
    }
}

/// Whether the record holds a refused request to allocate under `id`.
pub open spec fn tried(errors: Seq<Result>, id: u64) -> bool {
    exists|i: int| 0 <= i < errors.len() && (#[trigger] errors[i]).refused_alloc(id)
}

/// The line that the record gets for command `c`, the `nr`-th command
/// given, where it is refused in state `l`.
pub open spec fn refusal(l: Layout, errors: Seq<Result>, c: Cmd, nr: u64) -> Result {
    match c.ty {
        CmdType::Alloc => Result::AllocErr(c.block_id.unwrap(), nr, total_size(l.free) as u64),
        CmdType::Dealloc => Result::DeallocErr(
            c.block_id.unwrap(),
            nr,
            if tried(errors, c.block_id.unwrap()) {
                1
            } else {
                0
            },
        ),
        CmdType::Compact => Result::CompactErr(nr),
    }
}

/// An address space, the number of commands it was given, and the record
/// of those it refused.
pub struct Memory {
    pub area: Area,
    pub errors: Vec<Result>,
    pub instr_cnt: u64,
}

impl Memory {
    /// The address space is well-formed.
    pub open spec fn wf(&self) -> bool {
        self.area.wf()
    }

    /// A memory of `size` addresses with nothing in use and nothing on
    /// record.
    pub fn new(size: u64) -> (m: Self)
        ensures
            m.wf(),
            m.area@ == Layout::fresh(size),
            m.errors@ == Seq::<Result>::empty(),
            m.instr_cnt == 0,
    {
        Memory { area: Area::new(size), errors: Vec::new(), instr_cnt: 0 }
    }

    /// Serves a request for `size` addresses under `block_id` by first-fit.
    /// Nothing is counted or put on record.
    pub fn allocate(&mut self, block_id: u64, size: u64) -> (r: MResult<()>)
        requires
            old(self).wf(),
        ensures
            final(self).wf(),
            final(self).errors == old(self).errors,
            final(self).instr_cnt == old(self).instr_cnt,
            final(self).area@ == old(self).area@.allocate(
                block_id,
                size,
                AllocationMethod::FirstFit,
            ),
            r == alloc_result(old(self).area@, block_id, size),
    {
        match self.area.alloc_first_fit(block_id, size) {
            Ok(_) => Ok(()),
            Err(AError::Alloc(size, id, available)) => Err(MError::Alloc(size, id, available)),
            Err(AError::InUse(id)) => Err(MError::InUse(id)),
            Err(AError::ZeroSize(id)) => Err(MError::ZeroSize(id)),
            Err(AError::BlockError(e)) => Err(MError::BlockError(e)),
            Err(_) => unreached(),
        }
    }

    /// Gives back the block used under `block_id`. Nothing is counted or
    /// put on record.
    pub fn dealloc(&mut self, block_id: u64) -> (r: MResult<()>)
        requires
            old(self).wf(),
        ensures
            final(self).wf(),
            final(self).errors == old(self).errors,
            final(self).instr_cnt == old(self).instr_cnt,
            final(self).area@ == old(self).area@.dealloc(block_id),
            r == dealloc_result(old(self).area@, block_id),
    {
        match self.area.dealloc(block_id) {
            Ok(_) => Ok(()),
            Err(_) => Err(MError::Dealloc(block_id)),
        }
    }

    /// Compacts the address space. Nothing is counted or put on record.
    pub fn compact(&mut self) -> (r: MResult<()>)
        requires
            old(self).wf(),
        ensures
            final(self).wf(),
            final(self).errors == old(self).errors,
            final(self).instr_cnt == old(self).instr_cnt,
            final(self).area@ == old(self).area@.compact(),
            r == compact_result(old(self).area@),
    {
        match self.area.compact() {
            Ok(_) => Ok(()),
            Err(_) => Err(MError::Compact),
        }
    }

    /// The sum of the sizes of the free blocks.
    pub fn free_memory(&self) -> (total: u64)
        requires
            self.wf(),
        ensures
            total == total_size(self.area.free_blocks@),
    {
        self.area.calc_free_memory()
    }

    /// 1 if the record holds a refused request to allocate under `id`,
    /// else 0.
    pub fn did_try_allocating(&self, id: u64) -> (r: u64)
        ensures
            r == (if tried(self.errors@, id) {
                1u64
            } else {
                0u64
            }),
    {
        let mut i: usize = 0;
        while i < self.errors.len()
            invariant
                i <= self.errors.len(),
                !tried(self.errors@.take(i as int), id),
            decreases self.errors.len() - i,
        {
            match self.errors[i] {
                Result::AllocErr(x, _, _) => {
                    if x == id {
                        return 1;
                    }
                },
                _ => {},
            }
            proof {
                let next = self.errors@.take(i + 1);
                if tried(next, id) {
                    let k = choose|k: int| 0 <= k < next.len() && (#[trigger] next[k]).refused_alloc(id);
                    if k < i {
                        assert(self.errors@.take(i as int)[k] == next[k]);
                    }
                }
            }
            i += 1;
        }
        assert(self.errors@.take(i as int) =~= self.errors@);
        0
    }

    /// Counts one more command.
    pub fn incr(&mut self)
        requires
            old(self).instr_cnt < u64::MAX,
        ensures
            final(self).instr_cnt == old(self).instr_cnt + 1,
            final(self).area == old(self).area,
            final(self).errors == old(self).errors,
    {
        self.instr_cnt = self.instr_cnt + 1;
    }

    /// Counts the command and runs it under the strategy `method`. Hands
    /// back how it ended, and puts a refusal on record.
    pub fn exec(&mut self, cmd: &Cmd, method: AllocationMethod) -> (r: Result)
        requires
            old(self).wf(),
            cmd.wf(),
            old(self).instr_cnt < u64::MAX,
        ensures
            final(self).wf(),
            final(self).instr_cnt == old(self).instr_cnt + 1,
            final(self).area@ == apply(old(self).area@, *cmd, method),
            outcome(old(self).area@, *cmd, method).is_ok() ==> r == Result::Done
                && final(self).errors@ == old(self).errors@,
            outcome(old(self).area@, *cmd, method).is_err() ==> r == refusal(
                old(self).area@,
                old(self).errors@,
                *cmd,
                final(self).instr_cnt,
            ) && final(self).errors@ == old(self).errors@.push(r),
    {
        self.incr();
        let line = match cmd.ty {
            CmdType::Alloc => Result::AllocErr(
                cmd.block_id.unwrap(),
                self.instr_cnt,
                self.free_memory(),
            ),
            CmdType::Dealloc => Result::DeallocErr(
                cmd.block_id.unwrap(),
                self.instr_cnt,
                self.did_try_allocating(cmd.block_id.unwrap()),
            ),
            CmdType::Compact => Result::CompactErr(self.instr_cnt),
        };
        match self.area.exec(cmd, method) {
            Ok(_) => Result::Done,
            Err(_) => {
                self.errors.push(line);
                line
            },
        }
    }
}

} // verus!
