//! The task state the syscalls read and update.
//!
//! The scheduler itself is an outside collaborator; what the syscalls need
//! from a task is carried here explicitly: its status, its per-syscall
//! invocation counters, the time it was first scheduled, and its address
//! space.

use vstd::prelude::*;
use crate::memory_set::MemorySet;

verus! {

/// How many syscall identifiers the per-task counters cover.
pub const MAX_SYSCALL_NUM: usize = 500;

/// Scheduling state of a task.
#[derive(Clone, Copy, PartialEq, Eq, Structural, Debug)]
pub enum TaskStatus {
    /// Created, never run.
    UnInit,
    /// Runnable, waiting for the processor.
    Ready,
    /// Currently executing.
    Running,
    /// Finished; its resources may be reclaimed.
    Exited,
}

/// One task: scheduling status, syscall accounting, and address space.
pub struct Task {
    /// Scheduling state.
    pub status: TaskStatus,
    /// Invocation count per syscall identifier; saturating.
    pub syscall_times: Vec<u32>,
    /// Timestamp, in microseconds, of the task's first scheduled run.
    pub first_run_time: usize,
    /// The task's address space.
    pub memory_set: MemorySet,
}

impl Task {
    /// The counters cover every syscall identifier and the address space
    /// is well-formed.
    pub open spec fn wf(&self) -> bool {
        &&& self.syscall_times@.len() == MAX_SYSCALL_NUM
        &&& self.memory_set.wf()
    }

    /// A fresh task: not yet run, zero counters, empty address space.
    pub fn new() -> (r: Task)
        ensures
            r.wf(),
            r.status == TaskStatus::UnInit,
            r.first_run_time == 0,
            forall|i: int| 0 <= i < MAX_SYSCALL_NUM ==> #[trigger] r.syscall_times@[i] == 0,
            r.memory_set.areas@.len() == 0,
            forall|vpn: usize| !r.memory_set.page_table.mapping().contains_key(vpn),
    {
        let mut syscall_times: Vec<u32> = Vec::new();
        let mut i: usize = 0;
        while i < MAX_SYSCALL_NUM
            invariant
                i <= MAX_SYSCALL_NUM,
                syscall_times@.len() == i,
                forall|k: int| 0 <= k < i ==> #[trigger] syscall_times@[k] == 0,
            decreases MAX_SYSCALL_NUM - i,
        {
            syscall_times.push(0);
            i = i + 1;
        }
        Task {
            status: TaskStatus::UnInit,
            syscall_times,
            first_run_time: 0,
            memory_set: MemorySet::new(),
        }
    }

    /// Counts one invocation of syscall `id`; the counter saturates
    /// instead of wrapping.
    pub fn record_syscall(&mut self, id: usize)
        requires
            old(self).wf(),
            id < MAX_SYSCALL_NUM,
        ensures
            final(self).wf(),
            final(self).syscall_times@.len() == old(self).syscall_times@.len(),
            final(self).syscall_times@[id as int] == if old(self).syscall_times@[id as int]
                == u32::MAX {
                u32::MAX
            } else {
                (old(self).syscall_times@[id as int] + 1) as u32
            },
            forall|k: int|
                0 <= k < old(self).syscall_times@.len() && k != id
                    ==> #[trigger] final(self).syscall_times@[k] == old(self).syscall_times@[k],
            final(self).status == old(self).status,
            final(self).first_run_time == old(self).first_run_time,
            final(self).memory_set == old(self).memory_set,
    {
        let current = self.syscall_times[id];
        if current < u32::MAX {
            self.syscall_times.set(id, current + 1);
        }
    }
}

} // verus!
