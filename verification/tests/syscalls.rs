use os4::codec::le_bytes_to_u64;
use os4::frame::FrameAllocator;
use os4::syscall::{TASK_INFO_BYTES, sys_exit, sys_get_time, sys_mmap, sys_munmap,
    sys_set_priority, sys_task_info, sys_yield};
use os4::task::{MAX_SYSCALL_NUM, Task, TaskStatus};
use os4::translate::{PhysMemory, TranslateError, read_user_bytes};

fn decode_le(bytes: &[u8]) -> u64 {
    le_bytes_to_u64(&bytes.to_vec())
}

#[test]
fn yield_marks_task_ready_and_returns_zero() {
    let mut task = Task::new();
    task.status = TaskStatus::Running;
    assert_eq!(sys_yield(&mut task), 0);
    assert_eq!(task.status, TaskStatus::Ready);
}

#[test]
fn exit_marks_task_exited() {
    let mut task = Task::new();
    task.status = TaskStatus::Running;
    sys_exit(&mut task, 7);
    assert_eq!(task.status, TaskStatus::Exited);
}

#[test]
fn set_priority_is_refused() {
    assert_eq!(sys_set_priority(10), -1);
    assert_eq!(sys_set_priority(-3), -1);
}

#[test]
fn mmap_and_munmap_return_integer_statuses() {
    let mut task = Task::new();
    let mut fa = FrameAllocator::new(8);
    assert_eq!(sys_mmap(&mut task, &mut fa, 0x1000, 0x2000, 0b011), 0);
    assert_eq!(sys_mmap(&mut task, &mut fa, 0x1000, 0x2000, 0b011), -1);
    assert_eq!(sys_mmap(&mut task, &mut fa, 0x1001, 0x1000, 0b011), -1);
    assert_eq!(sys_mmap(&mut task, &mut fa, 0x8000, 0x1000, 0b1000), -1);
    assert_eq!(sys_munmap(&mut task, &mut fa, 0x1000, 0x2000), 0);
    assert_eq!(sys_munmap(&mut task, &mut fa, 0x1000, 0x2000), -1);
}

#[test]
fn get_time_writes_seconds_and_microseconds() {
    let mut task = Task::new();
    let mut fa = FrameAllocator::new(8);
    let mut mem = PhysMemory::new(8);
    assert_eq!(sys_mmap(&mut task, &mut fa, 0x1000, 0x1000, 0b011), 0);
    let now: usize = 3_250_999;
    let r = sys_get_time(&task.memory_set, &mut mem, 0x1000, 0, now);
    assert_eq!(r, Ok(0));
    let bytes = read_user_bytes(&task.memory_set.page_table, &mem, 0x1000, 16).unwrap();
    assert_eq!(decode_le(&bytes[0..8]), 3);
    assert_eq!(decode_le(&bytes[8..16]), 250_999);
}

#[test]
fn get_time_twice_reconstructs_the_elapsed_interval() {
    let mut task = Task::new();
    let mut fa = FrameAllocator::new(8);
    let mut mem = PhysMemory::new(8);
    assert_eq!(sys_mmap(&mut task, &mut fa, 0x1000, 0x1000, 0b011), 0);
    let t1: usize = 7_800_000;
    assert_eq!(sys_get_time(&task.memory_set, &mut mem, 0x1000, 0, t1), Ok(0));
    let b1 = read_user_bytes(&task.memory_set.page_table, &mem, 0x1000, 16).unwrap();
    let first = decode_le(&b1[0..8]) * 1_000_000 + decode_le(&b1[8..16]);
    let t2 = t1 + 1_500_000;
    assert_eq!(sys_get_time(&task.memory_set, &mut mem, 0x1000, 0, t2), Ok(0));
    let b2 = read_user_bytes(&task.memory_set.page_table, &mem, 0x1000, 16).unwrap();
    let second = decode_le(&b2[0..8]) * 1_000_000 + decode_le(&b2[8..16]);
    assert_eq!(second, first + 1_500_000);
}

#[test]
fn get_time_write_may_span_a_page_boundary() {
    let mut task = Task::new();
    let mut fa = FrameAllocator::new(8);
    let mut mem = PhysMemory::new(8);
    assert_eq!(sys_mmap(&mut task, &mut fa, 0x1000, 0x2000, 0b011), 0);
    // The sixteen bytes start eight bytes before the page boundary.
    let ts = 0x2000 - 8;
    let now: usize = 42_000_123;
    assert_eq!(sys_get_time(&task.memory_set, &mut mem, ts, 0, now), Ok(0));
    let bytes = read_user_bytes(&task.memory_set.page_table, &mem, ts, 16).unwrap();
    assert_eq!(decode_le(&bytes[0..8]), 42);
    assert_eq!(decode_le(&bytes[8..16]), 123);
}

#[test]
fn get_time_to_unmapped_pointer_is_fatal() {
    let task = Task::new();
    let mut mem = PhysMemory::new(8);
    let r = sys_get_time(&task.memory_set, &mut mem, 0x1000, 0, 5);
    assert_eq!(r, Err(TranslateError::NotMapped));
}

#[test]
fn get_time_to_read_only_pointer_is_fatal() {
    let mut task = Task::new();
    let mut fa = FrameAllocator::new(8);
    let mut mem = PhysMemory::new(8);
    assert_eq!(sys_mmap(&mut task, &mut fa, 0x1000, 0x1000, 0b001), 0);
    let r = sys_get_time(&task.memory_set, &mut mem, 0x1000, 0, 5);
    assert_eq!(r, Err(TranslateError::NotWritable));
}

#[test]
fn task_info_reports_counters_status_and_elapsed_time() {
    let mut task = Task::new();
    let mut fa = FrameAllocator::new(8);
    let mut mem = PhysMemory::new(8);
    task.status = TaskStatus::Running;
    task.first_run_time = 1_000_000;
    let sys_a = 64;
    let sys_b = 169;
    task.record_syscall(sys_a);
    task.record_syscall(sys_a);
    task.record_syscall(sys_a);
    task.record_syscall(sys_b);
    assert_eq!(sys_mmap(&mut task, &mut fa, 0x1000, 0x1000, 0b011), 0);
    let now = 3_500_000;
    assert_eq!(sys_task_info(&task, &mut mem, 0x1000, now), Ok(0));
    let bytes = read_user_bytes(&task.memory_set.page_table, &mem, 0x1000, TASK_INFO_BYTES)
        .unwrap();
    // Status code: Running.
    assert_eq!(bytes[0], 2);
    // Counters, four bytes each.
    for id in 0..MAX_SYSCALL_NUM {
        let at = 1 + 4 * id;
        let count = decode_le(&bytes[at..at + 4]);
        if id == sys_a {
            assert_eq!(count, 3);
        } else if id == sys_b {
            assert_eq!(count, 1);
        } else {
            assert_eq!(count, 0);
        }
    }
    // Elapsed milliseconds since the first run.
    let at = 1 + 4 * MAX_SYSCALL_NUM;
    assert_eq!(decode_le(&bytes[at..at + 8]), 2_500);
}

#[test]
fn record_syscall_saturates_at_the_counter_maximum() {
    let mut task = Task::new();
    task.syscall_times[3] = u32::MAX - 1;
    task.record_syscall(3);
    assert_eq!(task.syscall_times[3], u32::MAX);
    task.record_syscall(3);
    assert_eq!(task.syscall_times[3], u32::MAX);
}
