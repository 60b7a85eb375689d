//! Syscall adapters.
//!
//! Thin entry points over the address space, the translator and the task
//! state. Ambient kernel state is passed explicitly: the caller hands in
//! the task, the frame allocator, physical memory and the current time.
//! Raw user pointers arrive as plain addresses and are dereferenced only
//! through the translator; a translation failure is returned as the fatal
//! invalid-pointer signal, never as a user-visible error code.

use vstd::prelude::*;
use crate::codec::{le_bytes, usize_to_le_bytes};
use crate::frame::FrameAllocator;
use crate::memory_set::{MemorySet, consistent, map_region_err, map_region_post, unmap_region_err,
    unmap_region_post};
use crate::addr::{page_floor, page_ceil};
use crate::task::{MAX_SYSCALL_NUM, Task, TaskStatus};
use crate::translate::{PhysMemory, TranslateError, pt_frames_within, range_translatable,
    write_user_bytes, wrote_user_bytes};

verus! {

/// Seconds and microseconds, as the user program's `gettimeofday`-style
/// record expects them.
#[derive(Clone, Copy, PartialEq, Eq, Structural, Debug)]
pub struct TimeVal {
    /// Whole seconds.
    pub sec: usize,
    /// Microseconds below one second.
    pub usec: usize,
}

/// What `sys_task_info` reports about the calling task.
#[derive(Clone, Debug)]
pub struct TaskInfo {
    /// Scheduling state of the task.
    pub status: TaskStatus,
    /// Invocation count per syscall identifier.
    pub syscall_times: Vec<u32>,
    /// Milliseconds since the task first ran.
    pub time: usize,
}

/// Size in bytes of the record `sys_task_info` writes.
pub const TASK_INFO_BYTES: usize = 1 + 4 * MAX_SYSCALL_NUM + 8;

/// The byte layout of a `TimeVal`: two eight-byte little-endian fields.
pub open spec fn time_val_bytes(sec: usize, usec: usize) -> Seq<u8> {
    le_bytes(sec as nat, 8) + le_bytes(usec as nat, 8)
}

/// The one-byte code of a task status.
pub open spec fn status_code(s: TaskStatus) -> u8 {
    match s {
        TaskStatus::UnInit => 0,
        TaskStatus::Ready => 1,
        TaskStatus::Running => 2,
        TaskStatus::Exited => 3,
    }
}

/// The syscall counters laid out as consecutive four-byte little-endian
/// fields.
pub open spec fn times_bytes(times: Seq<u32>) -> Seq<u8>
    decreases times.len(),
{
    if times.len() == 0 {
        Seq::empty()
    } else {
        times_bytes(times.drop_last()) + le_bytes(times.last() as nat, 4)
    }
}

/// The counter block is four bytes per counter.
pub proof fn lemma_times_bytes_len(times: Seq<u32>)
    ensures
        times_bytes(times).len() == 4 * times.len(),
    decreases times.len(),
{
    if times.len() > 0 {
        lemma_times_bytes_len(times.drop_last());
    }
}

/// The byte layout of a `TaskInfo`: the status code, the counters, then
/// the elapsed milliseconds as eight little-endian bytes.
pub open spec fn task_info_bytes(status: TaskStatus, times: Seq<u32>, time_ms: usize) -> Seq<
    u8,
> {
    seq![status_code(status)] + times_bytes(times) + le_bytes(time_ms as nat, 8)
}

impl TaskStatus {
    /// The one-byte code of this status.
    pub fn code(self) -> (r: u8)
        ensures
            r == status_code(self),
    {
        match self {
            TaskStatus::UnInit => 0,
            TaskStatus::Ready => 1,
            TaskStatus::Running => 2,
            TaskStatus::Exited => 3,
        }
    }
}

impl TimeVal {
    /// This record's byte layout.
    pub fn to_bytes(&self) -> (r: Vec<u8>)
        ensures
            r@ == time_val_bytes(self.sec, self.usec),
    {
        let mut out = usize_to_le_bytes(self.sec, 8);
        let mut tail = usize_to_le_bytes(self.usec, 8);
        out.append(&mut tail);
        proof {
            assert(out@ =~= time_val_bytes(self.sec, self.usec));
        }
        out
    }
}

impl TaskInfo {
    /// This record's byte layout.
    #[verifier::loop_isolation(false)]
    pub fn to_bytes(&self) -> (r: Vec<u8>)
        ensures
            r@ == task_info_bytes(self.status, self.syscall_times@, self.time),
    {
        let mut out: Vec<u8> = Vec::new();
        out.push(self.status.code());
        proof {
            assert(self.syscall_times@.take(0) =~= Seq::<u32>::empty());
            assert(out@ =~= seq![status_code(self.status)] + times_bytes(
                self.syscall_times@.take(0),
            ));
        }
        let n = self.syscall_times.len();
        let mut j: usize = 0;
        while j < n
            invariant
                j <= n,
                n == self.syscall_times@.len(),
                out@ == seq![status_code(self.status)] + times_bytes(self.syscall_times@.take(
                    j as int,
                )),
            decreases n - j,
        {
            let mut cb = usize_to_le_bytes(self.syscall_times[j] as usize, 4);
            out.append(&mut cb);
            proof {
                let taken = self.syscall_times@.take(j + 1);
                assert(taken.drop_last() =~= self.syscall_times@.take(j as int));
                assert(taken.last() == self.syscall_times@[j as int]);
                assert((self.syscall_times@[j as int] as usize) as nat == self.syscall_times@[
                    j as int] as nat);
                assert(out@ =~= seq![status_code(self.status)] + times_bytes(taken));
            }
            j = j + 1;
        }
        let mut tb = usize_to_le_bytes(self.time, 8);
        out.append(&mut tb);
        proof {
            assert(self.syscall_times@.take(n as int) =~= self.syscall_times@);
            assert(out@ =~= task_info_bytes(self.status, self.syscall_times@, self.time));
        }
        out
    }
}

/// Marks the calling task exited. The scheduler collaborator then drops
/// it and runs another task; control never returns to the task itself.
pub fn sys_exit(task: &mut Task, _exit_code: i32)
    requires
        old(task).wf(),
    ensures
        final(task).wf(),
        final(task).status == TaskStatus::Exited,
        final(task).syscall_times == old(task).syscall_times,
        final(task).first_run_time == old(task).first_run_time,
        final(task).memory_set == old(task).memory_set,
{
    task.status = TaskStatus::Exited;
}

/// The calling task gives the processor up: it becomes ready again and
/// the scheduler collaborator picks the next task to run.
pub fn sys_yield(task: &mut Task) -> (r: isize)
    requires
        old(task).wf(),
    ensures
        r == 0,
        final(task).wf(),
        final(task).status == TaskStatus::Ready,
        final(task).syscall_times == old(task).syscall_times,
        final(task).first_run_time == old(task).first_run_time,
        final(task).memory_set == old(task).memory_set,
{
    task.status = TaskStatus::Ready;
    0
}

/// Scheduling priorities are not supported: every request is refused.
pub fn sys_set_priority(_prio: isize) -> (r: isize)
    ensures
        r == -1,
{
    -1
}

/// Maps `[start, start + len)` into the calling task's address space with
/// the access bits `port` asks, returning 0 on success and -1 on any
/// validation or resource failure, with no partial change.
pub fn sys_mmap(
    task: &mut Task,
    fa: &mut FrameAllocator,
    start: usize,
    len: usize,
    port: usize,
) -> (r: isize)
    requires
        old(task).wf(),
        consistent(old(task).memory_set, *old(fa)),
        len == 0 || start as int + len as int - 1 <= usize::MAX as int,
    ensures
        final(task).wf(),
        consistent(final(task).memory_set, *final(fa)),
        final(task).status == old(task).status,
        final(task).syscall_times == old(task).syscall_times,
        final(task).first_run_time == old(task).first_run_time,
        r == 0 || r == -1,
        r == 0 <==> map_region_err(old(task).memory_set, *old(fa), start, len, port) is None,
        r == 0 ==> if len == 0 {
            final(task).memory_set == old(task).memory_set && *final(fa) == *old(fa)
        } else {
            map_region_post(
                old(task).memory_set,
                *old(fa),
                final(task).memory_set,
                *final(fa),
                page_floor(start as int),
                page_ceil(start as int + len - 1),
                crate::perm::perm_of_bits(port as int),
            )
        },
        r == -1 ==> final(task).memory_set == old(task).memory_set && *final(fa) == *old(fa),
{
    match task.memory_set.map_region(fa, start, len, port) {
        Ok(()) => 0,
        Err(_) => -1,
    }
}

/// Unmaps `[start, start + len)` from the calling task's address space,
/// returning 0 on success and -1 when the range is not fully mapped or
/// would cut an area, with no partial change.
pub fn sys_munmap(task: &mut Task, fa: &mut FrameAllocator, start: usize, len: usize) -> (r:
    isize)
    requires
        old(task).wf(),
        consistent(old(task).memory_set, *old(fa)),
        len == 0 || start as int + len as int - 1 <= usize::MAX as int,
    ensures
        final(task).wf(),
        consistent(final(task).memory_set, *final(fa)),
        final(task).status == old(task).status,
        final(task).syscall_times == old(task).syscall_times,
        final(task).first_run_time == old(task).first_run_time,
        r == 0 || r == -1,
        r == 0 <==> unmap_region_err(old(task).memory_set, start, len) is None,
        r == 0 ==> if len == 0 {
            final(task).memory_set == old(task).memory_set && *final(fa) == *old(fa)
        } else {
            unmap_region_post(
                old(task).memory_set,
                *old(fa),
                final(task).memory_set,
                *final(fa),
                page_floor(start as int),
                page_ceil(start as int + len - 1),
            )
        },
        r == -1 ==> final(task).memory_set == old(task).memory_set && *final(fa) == *old(fa),
{
    match task.memory_set.unmap_region(fa, start, len) {
        Ok(()) => 0,
        Err(_) => -1,
    }
}

/// Writes the current time, split into seconds and microseconds, into the
/// user record at `ts`. The time source is an outside collaborator; the
/// caller hands the current microsecond count in. An untranslatable
/// record address is the fatal invalid-pointer condition, returned as the
/// error case, not as a code the user program sees.
pub fn sys_get_time(
    ms: &MemorySet,
    mem: &mut PhysMemory,
    ts: usize,
    _tz: usize,
    now_us: usize,
) -> (r: Result<isize, TranslateError>)
    requires
        ms.wf(),
        ms.page_table.frames_injective(),
        pt_frames_within(ms.page_table, old(mem).contents().len() as int),
        ts as int + 16 <= usize::MAX as int + 1,
    ensures
        r is Ok <==> range_translatable(ms.page_table, ts, 16, true),
        r == Ok::<isize, TranslateError>(0isize) <==> r is Ok,
        r is Ok ==> wrote_user_bytes(
            ms.page_table,
            old(mem).contents(),
            final(mem).contents(),
            ts,
            time_val_bytes((now_us / 1000000) as usize, (now_us % 1000000) as usize),
        ),
        r is Err ==> *final(mem) == *old(mem),
{
    let tv = TimeVal { sec: now_us / 1000000, usec: now_us % 1000000 };
    let bytes = tv.to_bytes();
    match write_user_bytes(&ms.page_table, mem, ts, &bytes) {
        Ok(()) => Ok(0),
        Err(e) => Err(e),
    }
}

/// Writes the calling task's status, syscall counters and elapsed
/// milliseconds into the user record at `ti`. Task accounting comes from
/// the task handle; the caller hands the current microsecond count in.
/// An untranslatable record address is the fatal invalid-pointer
/// condition, returned as the error case.
pub fn sys_task_info(task: &Task, mem: &mut PhysMemory, ti: usize, now_us: usize) -> (r:
    Result<isize, TranslateError>)
    requires
        task.wf(),
        task.memory_set.page_table.frames_injective(),
        pt_frames_within(task.memory_set.page_table, old(mem).contents().len() as int),
        now_us >= task.first_run_time,
        ti as int + TASK_INFO_BYTES <= usize::MAX as int + 1,
    ensures
        r is Ok <==> range_translatable(task.memory_set.page_table, ti, TASK_INFO_BYTES as int,
            true),
        r == Ok::<isize, TranslateError>(0isize) <==> r is Ok,
        r is Ok ==> wrote_user_bytes(
            task.memory_set.page_table,
            old(mem).contents(),
            final(mem).contents(),
            ti,
            task_info_bytes(
                task.status,
                task.syscall_times@,
                ((now_us - task.first_run_time) / 1000) as usize,
            ),
        ),
        r is Err ==> *final(mem) == *old(mem),
{
    let mut times: Vec<u32> = Vec::new();
    let mut j: usize = 0;
    let n = task.syscall_times.len();
    while j < n
        invariant
            j <= n,
            n == task.syscall_times@.len(),
            times@.len() == j,
            forall|k: int| 0 <= k < j ==> #[trigger] times@[k] == task.syscall_times@[k],
        decreases n - j,
    {
        times.push(task.syscall_times[j]);
        j = j + 1;
    }
    let info = TaskInfo {
        status: task.status,
        syscall_times: times,
        time: (now_us - task.first_run_time) / 1000,
    };
    let bytes = info.to_bytes();
    proof {
        assert(info.syscall_times@ =~= task.syscall_times@);
        lemma_times_bytes_len(task.syscall_times@);
        assert(bytes@.len() == TASK_INFO_BYTES);
    }
    match write_user_bytes(&task.memory_set.page_table, mem, ti, &bytes) {
        Ok(()) => Ok(0),
        Err(e) => Err(e),
    }
}

} // verus!
