//! What holds of the operations on the kernel state, one with another.

use crate::config::{MAX_SYSCALL_NUM, RETURN_REGISTER};
use crate::mm::address::VirtAddr;
use crate::task::model::{lemma_first_zombie, lemma_first_zombie_is, spec_count_up, wait_matches, KernelView};
use crate::task::task::{ProgramView, TaskStatus, TaskView, WaitResult};
use crate::task::wellformed::{lemma_local_update_wf, lemma_new_task_wf, lemma_next_free_pid, lemma_running};
use vstd::prelude::*;

verus! {

/// A fork gives the child the identifier that the parent is told, a saved
/// context in which the call returns 0, and the mappings of the parent; the
/// parent stays the running task and keeps its mappings.
pub proof fn lemma_fork_child(v: KernelView)
    requires
        v.wf(),
        v.current is Some,
        v.pid_available(),
    ensures
        ({
            let child = v.next_free_pid();
            let after = v.spec_fork();
            &&& !v.tasks.contains_key(child)
            &&& after.wf()
            &&& after.current == v.current
            &&& after.tasks.contains_key(child)
            &&& after.tasks[child].trap_cx.x[RETURN_REGISTER as int] == 0
            &&& after.tasks[child].memory == v.running().memory
            &&& after.tasks[child].parent == v.current
            &&& after.tasks[child].status == TaskStatus::Ready
            &&& after.running().memory == v.running().memory
            &&& after.running().children == v.running().children.push(child)
        }),
{
    lemma_running(v);
    lemma_next_free_pid(v);
    lemma_new_task_wf(v, v.current, v.running().forked(v.next_free_pid()));
}

/// A task that maps or unmaps pages changes its own address space and no
/// other: every other task is as it was.
pub proof fn lemma_mappings_are_private(v: KernelView, start: VirtAddr, end: VirtAddr, perm: u8, other: usize)
    requires
        v.current is Some,
        v.tasks.contains_key(other),
        v.current != Some(other),
    ensures
        v.spec_mmap(start, end, perm).tasks.contains_key(other),
        v.spec_mmap(start, end, perm).tasks[other] == v.tasks[other],
        v.spec_munmap(start, end).tasks.contains_key(other),
        v.spec_munmap(start, end).tasks[other] == v.tasks[other],
{
}

/// The address spaces of parent and child are apart from the fork on: what
/// the parent maps or unmaps after the fork leaves the child with the
/// mappings that the parent had at the fork.
pub proof fn lemma_fork_copy_is_independent(v: KernelView, start: VirtAddr, end: VirtAddr, perm: u8)
    requires
        v.wf(),
        v.current is Some,
        v.pid_available(),
    ensures
        ({
            let child = v.next_free_pid();
            &&& v.spec_fork().spec_mmap(start, end, perm).tasks[child].memory == v.running().memory
            &&& v.spec_fork().spec_munmap(start, end).tasks[child].memory == v.running().memory
        }),
{
    lemma_fork_child(v);
    lemma_running(v);
    lemma_mappings_are_private(v.spec_fork(), start, end, perm, v.next_free_pid());
}

/// A wait of a task without children finds no child, whatever it waits
/// for, and changes nothing.
pub proof fn lemma_wait_without_children(v: KernelView, pid: isize)
    requires
        v.current is Some,
        v.running().children.len() == 0,
    ensures
        v.wait_result(pid) == WaitResult::NoSuchChild,
        v.spec_waitpid(pid) == v,
{
    lemma_first_zombie(v, v.running().children, pid, 0);
}

/// A wait of a task that has children of which none is a zombie, for any
/// child or for one that it has, says that none has ended yet, and changes
/// nothing.
pub proof fn lemma_wait_without_zombies(v: KernelView, pid: isize)
    requires
        v.current is Some,
        v.running().children.len() > 0,
        pid == -1 || v.has_child(pid),
        forall|k: int|
            0 <= k < v.running().children.len() ==> v.tasks[#[trigger] v.running().children[k]].status
                != TaskStatus::Zombie,
    ensures
        v.wait_result(pid) == WaitResult::NotYetZombie,
        v.spec_waitpid(pid) == v,
{
    let children = v.running().children;
    lemma_first_zombie(v, children, pid, children.len() as int);
    if pid == -1 {
        assert(wait_matches(pid, children[0]));
    }
}

/// A wait collects no task but a zombie child of the running task that the
/// wait is for, and that child is the first such child.
pub proof fn lemma_wait_collects_a_child(v: KernelView, pid: isize)
    requires
        v.current is Some,
    ensures
        v.wait_result(pid) matches WaitResult::Reaped { pid: child, exit_code } ==> {
            &&& v.running().children.contains(child)
            &&& wait_matches(pid, child)
            &&& v.tasks[child].status == TaskStatus::Zombie
            &&& v.tasks[child].exit_code == exit_code
        },
        !(v.wait_result(pid) is Reaped) ==> v.spec_waitpid(pid) == v,
{
    lemma_first_zombie_is(v, v.running().children, pid);
}

/// The state after the running task made the system call `syscall_id`
/// `times` times.
pub open spec fn spec_count_syscalls(v: KernelView, syscall_id: usize, times: nat) -> KernelView
    decreases times,
{
    if times == 0 {
        v
    } else {
        spec_count_syscalls(v, syscall_id, (times - 1) as nat).spec_count_syscall(syscall_id)
    }
}

/// After a task made one system call `times` times, the counter of that
/// call is `times` larger, or as large as its type allows, and every other
/// counter is as it was. For a task whose counters were all zero, as they
/// are when it is created, the counter of that call is `times` and the
/// others are zero.
pub proof fn lemma_syscall_counts(v: KernelView, syscall_id: usize, times: nat)
    requires
        v.wf(),
        v.current is Some,
        syscall_id < MAX_SYSCALL_NUM,
    ensures
        ({
            let after = spec_count_syscalls(v, syscall_id, times);
            let before = v.running().syscall_times;
            &&& after.wf()
            &&& after.current == v.current
            &&& after.running().syscall_times.len() == MAX_SYSCALL_NUM
            &&& after.running().syscall_times[syscall_id as int] == if before[syscall_id as int] + times
                > u32::MAX {
                u32::MAX as int
            } else {
                before[syscall_id as int] + times
            }
            &&& forall|i: int|
                0 <= i < MAX_SYSCALL_NUM && i != syscall_id ==> after.running().syscall_times[i] == before[i]
            &&& after.running().status == v.running().status
        }),
    decreases times,
{
    lemma_running(v);
    if times > 0 {
        lemma_syscall_counts(v, syscall_id, (times - 1) as nat);
        let mid = spec_count_syscalls(v, syscall_id, (times - 1) as nat);
        lemma_running(mid);
        let t = mid.running();
        lemma_local_update_wf(
            mid,
            TaskView {
                syscall_times: t.syscall_times.update(
                    syscall_id as int,
                    spec_count_up(t.syscall_times[syscall_id as int]),
                ),
                ..t
            },
        );
    }
}

/// A task that was just created has every counter at zero.
pub proof fn lemma_new_task_counts(parent: TaskView, pid: usize, image: ProgramView, i: int)
    requires
        0 <= i < MAX_SYSCALL_NUM,
    ensures
        parent.forked(pid).syscall_times[i] == 0,
        TaskView::fresh(pid, Some(parent.pid), image).syscall_times[i] == 0,
{
}

} // verus!
