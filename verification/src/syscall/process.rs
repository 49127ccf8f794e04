//! The system calls on processes and on their memory.
//!
//! Each call acts on the running task and answers with the integer that the
//! task sees: a result that is not negative, or a negative error. What the
//! caller reads from user memory, from the loader or from the timer comes
//! in as a plain value, and what goes to user memory goes out through a
//! reference that the caller has translated.

use crate::config::RETURN_REGISTER;
use crate::mm::address::VirtAddr;
use crate::mm::memory_set::{spec_map_result, spec_unmap_result};
use crate::task::kernel::Kernel;
use crate::task::model::spec_elapsed_ms;
use crate::task::processor::{get_current_task_info, mmap, munmap, set_current_task_prio};
use crate::task::task::{ProgramImage, TaskInfo, TaskStatus, WaitResult};
use crate::task::wellformed::lemma_running;
use crate::task::{exit_current_and_run_next, suspend_current_and_run_next};
use vstd::prelude::*;

verus! {

/// A time of day: whole seconds, and the microseconds beyond them.
#[derive(Debug)]
pub struct TimeVal {
    pub sec: usize,
    pub usec: usize,
}

/// Whether `port` is a permission set that a task may ask for: at least one
/// of the bits read (1), write (2) and execute (4), and no other bit.
pub open spec fn valid_port(port: usize) -> bool {
    1 <= port <= 7
}

/// The integer that a task sees for what a wait came back with: the
/// identifier of the child, -1 where it has no such child, -2 where none of
/// them has ended.
pub open spec fn wait_code(result: WaitResult) -> int {
    match result {
        WaitResult::Reaped { pid, .. } => pid as int,
        WaitResult::NoSuchChild => -1,
        WaitResult::NotYetZombie => -2,
    }
}

/// Ends the running task with `exit_code`. The task never runs again; the
/// caller swaps into the dispatch loop.
pub fn sys_exit(kernel: &mut Kernel, exit_code: i32)
    requires
        old(kernel)@.current is Some,
    ensures
        final(kernel)@ == old(kernel)@.spec_exit(exit_code),
        final(kernel)@.current is None,
        final(kernel)@.tasks[old(kernel)@.current->0].status == TaskStatus::Zombie,
        final(kernel)@.tasks[old(kernel)@.current->0].exit_code == exit_code,
        final(kernel)@.wf(),
{
    exit_current_and_run_next(kernel, exit_code);
}

/// The running task gives up the processor for other tasks. Returns 0.
pub fn sys_yield(kernel: &mut Kernel) -> (r: isize)
    requires
        old(kernel)@.current is Some,
    ensures
        r == 0,
        final(kernel)@ == old(kernel)@.spec_suspend(),
        final(kernel)@.current is None,
        final(kernel)@.wf(),
{
    suspend_current_and_run_next(kernel);
    0
}

/// The identifier of the running task.
pub fn sys_getpid(kernel: &Kernel) -> (r: isize)
    requires
        kernel@.current is Some,
    ensures
        r == kernel@.current->0,
{
    kernel.current_pid().unwrap() as isize
}

/// Forks the running task. Returns the identifier of the child; the child,
/// once it runs, sees 0 as the result of the same call, and owns a copy of
/// the address space that the parent has now.
pub fn sys_fork(kernel: &mut Kernel) -> (r: isize)
    requires
        old(kernel)@.current is Some,
        old(kernel)@.pid_available(),
    ensures
        r == old(kernel)@.next_free_pid(),
        final(kernel)@ == old(kernel)@.spec_fork(),
        final(kernel)@.tasks.contains_key(r as usize),
        final(kernel)@.tasks[r as usize].trap_cx.x[RETURN_REGISTER as int] == 0,
        final(kernel)@.tasks[r as usize].memory == old(kernel)@.running().memory,
        final(kernel)@.tasks[r as usize].parent == old(kernel)@.current,
        final(kernel)@.current == old(kernel)@.current,
        final(kernel)@.running().memory == old(kernel)@.running().memory,
        final(kernel)@.wf(),
{
    kernel.well_formed();
    proof {
        lemma_running(kernel@);
    }
    let new_pid = kernel.fork();
    new_pid as isize
}

/// Replaces the program of the running task by `program`, which is what the
/// loader found under the name that the task gave. Returns 0, or -1 where
/// the loader found nothing; then nothing changes.
pub fn sys_exec(kernel: &mut Kernel, program: Option<ProgramImage>) -> (r: isize)
    requires
        old(kernel)@.current is Some,
    ensures
        program matches Some(image) ==> r == 0 && final(kernel)@ == old(kernel)@.spec_exec(image@),
        program is None ==> r == -1 && final(kernel)@ == old(kernel)@,
        final(kernel)@.wf(),
{
    match program {
        Some(image) => {
            kernel.exec(image);
            0
        },
        None => {
            kernel.well_formed();
            -1
        },
    }
}

/// Waits for a child of the running task: for the child `pid`, or for any
/// child where `pid` is -1.
///
/// Returns -1 where the task has no child that the wait is for, and -2
/// where it has one and none of them has ended; then nothing changes and
/// `exit_code` is left alone. Else the first zombie among those children is
/// collected: its exit code goes to `exit_code`, its identifier is
/// returned, and it is gone from the kernel.
pub fn sys_waitpid(kernel: &mut Kernel, pid: isize, exit_code: &mut i32) -> (r: isize)
    requires
        old(kernel)@.current is Some,
    ensures
        r == wait_code(old(kernel)@.wait_result(pid)),
        final(kernel)@ == old(kernel)@.spec_waitpid(pid),
        *final(exit_code) == match old(kernel)@.wait_result(pid) {
            WaitResult::Reaped { exit_code: code, .. } => code,
            _ => *old(exit_code),
        },
        r >= 0 ==> {
            &&& old(kernel)@.running().children.contains(r as usize)
            &&& old(kernel)@.tasks[r as usize].status == TaskStatus::Zombie
            &&& !final(kernel)@.tasks.contains_key(r as usize)
            &&& !final(kernel)@.references(r as usize)
        },
        r < 0 ==> final(kernel)@ == old(kernel)@,
        final(kernel)@.wf(),
{
    match kernel.waitpid(pid) {
        WaitResult::Reaped { pid: found_pid, exit_code: code } => {
            *exit_code = code;
            found_pid as isize
        },
        WaitResult::NoSuchChild => -1,
        WaitResult::NotYetZombie => -2,
    }
}

/// Writes the time `now_us`, in microseconds, to `ts` as seconds and
/// microseconds. Returns 0.
pub fn sys_get_time(ts: &mut TimeVal, _tz: usize, now_us: usize) -> (r: isize)
    ensures
        r == 0,
        final(ts).sec == now_us / 1_000_000,
        final(ts).usec == now_us % 1_000_000,
{
    ts.sec = now_us / 1_000_000;
    ts.usec = now_us % 1_000_000;
    0
}

/// Writes to `ti` what the running task learns about itself at the time
/// `now_us`, in microseconds: its state, how often it made each system
/// call, and the milliseconds since its first dispatch. Returns 0.
pub fn sys_task_info(kernel: &Kernel, ti: &mut TaskInfo, now_us: usize) -> (r: isize)
    requires
        kernel@.current is Some,
    ensures
        r == 0,
        final(ti).status == kernel@.running().status,
        final(ti).syscall_times@ == kernel@.running().syscall_times,
        final(ti).time == spec_elapsed_ms(now_us, kernel@.running().start_time),
{
    *ti = get_current_task_info(kernel, now_us);
    0
}

/// Gives the running task the priority `prio` and returns it. A priority
/// of 1 or less is refused: the answer is -1 and nothing changes.
pub fn sys_set_priority(kernel: &mut Kernel, prio: isize) -> (r: isize)
    requires
        old(kernel)@.current is Some,
    ensures
        prio <= 1 ==> r == -1 && final(kernel)@ == old(kernel)@,
        prio >= 2 ==> r == prio && final(kernel)@ == old(kernel)@.spec_set_prio(prio as u64),
        final(kernel)@.wf(),
{
    if prio <= 1 {
        kernel.well_formed();
        return -1;
    }
    set_current_task_prio(kernel, prio as u64);
    prio
}

/// Maps `len` bytes from the address `start` into the address space of the
/// running task, with the permission bits `port`.
///
/// The answer is -1, and nothing changes, where `start` is not
/// page-aligned, where `port` is not a valid permission set, where the end
/// of the range is not page-aligned, or where a page of the range is mapped
/// already. Else the pages of the range are mapped and the answer is 0.
pub fn sys_mmap(kernel: &mut Kernel, start: usize, len: usize, port: usize) -> (r: isize)
    requires
        old(kernel)@.current is Some,
        start + len <= usize::MAX,
    ensures
        r == if VirtAddr(start).spec_aligned() && valid_port(port) && spec_map_result(
            old(kernel)@.running().memory,
            VirtAddr(start),
            VirtAddr((start + len) as usize),
            port as u8,
        ) is Ok {
            0isize
        } else {
            -1isize
        },
        r == 0 ==> final(kernel)@ == old(kernel)@.spec_mmap(
            VirtAddr(start),
            VirtAddr((start + len) as usize),
            port as u8,
        ),
        r != 0 ==> final(kernel)@ == old(kernel)@,
        final(kernel)@.wf(),
{
    let start_va = VirtAddr::from(start);
    if start_va.page_offset() != 0 {
        kernel.well_formed();
        return -1;
    }
    let bits = port & 7;
    assert((port & 7 == port) == (port <= 7)) by (bit_vector);
    if bits == 0 || bits != port {
        kernel.well_formed();
        return -1;
    }
    let end_va = VirtAddr::from(start + len);
    mmap(kernel, start_va, end_va, port as u8)
}

/// Unmaps `len` bytes from the address `start` from the address space of
/// the running task.
///
/// The answer is -1, and nothing changes, where `start` or the end of the
/// range is not page-aligned, or where a page of the range is not mapped.
/// Else the pages of the range are unmapped and the answer is 0.
pub fn sys_munmap(kernel: &mut Kernel, start: usize, len: usize) -> (r: isize)
    requires
        old(kernel)@.current is Some,
        start + len <= usize::MAX,
    ensures
        r == if spec_unmap_result(
            old(kernel)@.running().memory,
            VirtAddr(start),
            VirtAddr((start + len) as usize),
        ) is Ok {
            0isize
        } else {
            -1isize
        },
        r == 0 ==> final(kernel)@ == old(kernel)@.spec_munmap(VirtAddr(start), VirtAddr((start + len) as usize)),
        r != 0 ==> final(kernel)@ == old(kernel)@,
        final(kernel)@.wf(),
{
    let start_va = VirtAddr::from(start);
    if start_va.page_offset() != 0 {
        kernel.well_formed();
        return -1;
    }
    let end_va = VirtAddr::from(start + len);
    munmap(kernel, start_va, end_va)
}

/// Makes a child of the running task from `program`, which is what the
/// loader found under the name that the task gave; nothing of the parent is
/// copied. Returns the identifier of the child, or -1 where the loader
/// found nothing; then nothing changes.
pub fn sys_spawn(kernel: &mut Kernel, program: Option<ProgramImage>) -> (r: isize)
    requires
        old(kernel)@.current is Some,
        old(kernel)@.pid_available(),
    ensures
        program matches Some(image) ==> r == old(kernel)@.next_free_pid() && final(kernel)@ == old(
            kernel,
        )@.spec_spawn(image@),
        program is None ==> r == -1 && final(kernel)@ == old(kernel)@,
        final(kernel)@.wf(),
{
    match program {
        Some(image) => {
            let new_pid = kernel.spawn(image);
            new_pid as isize
        },
        None => {
            kernel.well_formed();
            -1
        },
    }
}

} // verus!
