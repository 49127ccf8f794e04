//! The dispatch slot of the one processor, the dispatch itself, and what the
//! kernel does for the task that runs.

use crate::config::MAX_SYSCALL_NUM;
use crate::mm::address::VirtAddr;
use crate::mm::memory_set::{spec_map, spec_map_result, spec_unmap, spec_unmap_result};
use crate::task::kernel::Kernel;
use crate::task::model::{spec_count_up, spec_elapsed_ms};
use crate::task::task::{TaskInfo, TaskView};
use crate::task::wellformed::{lemma_local_update_wf, lemma_run_tasks_wf, lemma_running, lemma_with_running_same};
use crate::trap::TrapContext;
use vstd::prelude::*;

verus! {

/// The state of the processor: the task it runs, if it runs one.
pub struct Processor {
    current: Option<usize>,
}

impl View for Processor {
    type V = Option<usize>;

    /// The identifier of the task that the processor runs.
    closed spec fn view(&self) -> Option<usize> {
        self.current
    }
}

impl Processor {
    /// A processor that runs no task.
    pub fn new() -> (r: Self)
        ensures
            r@ is None,
    {
        Processor { current: None }
    }

    /// Takes the running task off the processor and returns it.
    pub fn take_current(&mut self) -> (r: Option<usize>)
        ensures
            r == old(self)@,
            final(self)@ is None,
    {
        self.current.take()
    }

    /// The running task, which stays on the processor.
    pub fn current(&self) -> (r: Option<usize>)
        ensures
            r == self@,
    {
        self.current
    }

    /// Puts the task `pid` on the processor.
    pub fn install(&mut self, pid: usize)
        ensures
            final(self)@ == Some(pid),
    {
        self.current = Some(pid);
    }
}

/// Takes the running task off the processor and returns it.
pub fn take_current_task(processor: &mut Processor) -> (r: Option<usize>)
    ensures
        r == old(processor)@,
        final(processor)@ is None,
{
    processor.take_current()
}

/// The running task, which stays on the processor.
pub fn current_task(processor: &Processor) -> (r: Option<usize>)
    ensures
        r == processor@,
{
    processor.current()
}

/// One turn of the dispatch loop, at the time `now` in microseconds.
///
/// Where no task waits, nothing changes and the answer is `None`: the
/// caller polls again. Else the task at the head of the ready queue, a task
/// of the smallest pass, leaves the queue and is put on the processor: it
/// is `Running`, its first dispatch is stamped with `now`, and its pass has
/// advanced by its stride. The answer is its identifier, and the caller
/// swaps into its context.
///
/// The processor must be free: the task that ran before has given it up or
/// has ended.
pub fn run_tasks(kernel: &mut Kernel, now: usize) -> (r: Option<usize>)
    requires
        old(kernel)@.current is None,
    ensures
        final(kernel)@ == old(kernel)@.spec_run_tasks(now),
        r == final(kernel)@.current,
        r is Some == (old(kernel)@.ready.len() > 0),
        final(kernel)@.wf(),
{
    let mut st = kernel.take();
    let r = st.run_tasks(now);
    proof {
        lemma_run_tasks_wf(old(kernel)@, now);
    }
    kernel.put(st);
    r
}

/// The saved context of the running task.
pub fn current_trap_cx(kernel: &Kernel) -> (r: TrapContext)
    requires
        kernel@.current is Some,
    ensures
        r@ == kernel@.running().trap_cx,
{
    let st = kernel.state();
    let p = st.current_pid();
    st.tasks[p].as_ref().unwrap().trap_cx
}

/// Sets the saved context of the running task.
pub fn set_current_trap_cx(kernel: &mut Kernel, trap_cx: TrapContext)
    requires
        old(kernel)@.current is Some,
    ensures
        final(kernel)@ == old(kernel)@.spec_set_trap_cx(trap_cx@),
        final(kernel)@.wf(),
{
    let mut st = kernel.take();
    st.set_trap_cx(trap_cx);
    proof {
        lemma_running(old(kernel)@);
        lemma_local_update_wf(
            old(kernel)@,
            TaskView { trap_cx: trap_cx@, ..old(kernel)@.running() },
        );
    }
    kernel.put(st);
}

/// Counts one more call of the system call `syscall_id` by the running
/// task. A counter that has reached the largest value of its type stays
/// there.
pub fn inc_task_syscall_times(kernel: &mut Kernel, syscall_id: usize)
    requires
        old(kernel)@.current is Some,
        syscall_id < MAX_SYSCALL_NUM,
    ensures
        final(kernel)@ == old(kernel)@.spec_count_syscall(syscall_id),
        final(kernel)@.running().syscall_times[syscall_id as int] == spec_count_up(
            old(kernel)@.running().syscall_times[syscall_id as int],
        ),
        forall|i: int|
            0 <= i < MAX_SYSCALL_NUM && i != syscall_id ==> final(kernel)@.running().syscall_times[i] == old(
                kernel,
            )@.running().syscall_times[i],
        final(kernel)@.wf(),
{
    let mut st = kernel.take();
    st.count_syscall(syscall_id);
    proof {
        let v = old(kernel)@;
        lemma_running(v);
        let t = v.running();
        lemma_local_update_wf(
            v,
            TaskView {
                syscall_times: t.syscall_times.update(
                    syscall_id as int,
                    spec_count_up(t.syscall_times[syscall_id as int]),
                ),
                ..t
            },
        );
    }
    kernel.put(st);
}

/// What the running task learns about itself at the time `now`, in
/// microseconds: its state, its counters, and the milliseconds since its
/// first dispatch.
pub fn get_current_task_info(kernel: &Kernel, now: usize) -> (r: TaskInfo)
    requires
        kernel@.current is Some,
    ensures
        r.status == kernel@.running().status,
        r.syscall_times@ == kernel@.running().syscall_times,
        r.time == spec_elapsed_ms(now, kernel@.running().start_time),
{
    kernel.state().task_info(now)
}

/// Maps the pages from `start_va` up to `end_va` into the address space of
/// the running task, with the permission bits `port`. Returns 0, or -1
/// where the request is refused; a refused request changes nothing.
pub fn mmap(kernel: &mut Kernel, start_va: VirtAddr, end_va: VirtAddr, port: u8) -> (r: isize)
    requires
        old(kernel)@.current is Some,
    ensures
        r == if spec_map_result(old(kernel)@.running().memory, start_va, end_va, port) is Ok {
            0isize
        } else {
            -1isize
        },
        final(kernel)@ == old(kernel)@.spec_mmap(start_va, end_va, port),
        r != 0 ==> final(kernel)@ == old(kernel)@,
        final(kernel)@.wf(),
{
    let mut st = kernel.take();
    let r = st.mmap(start_va, end_va, port);
    proof {
        let v = old(kernel)@;
        lemma_running(v);
        let t = v.running();
        lemma_local_update_wf(v, TaskView { memory: spec_map(t.memory, start_va, end_va, port), ..t });
        lemma_with_running_same(v);
    }
    kernel.put(st);
    match r {
        Ok(_) => 0,
        Err(_) => -1,
    }
}

/// Unmaps the pages from `start_va` up to `end_va` from the address space
/// of the running task. Returns 0, or -1 where the request is refused; a
/// refused request changes nothing.
pub fn munmap(kernel: &mut Kernel, start_va: VirtAddr, end_va: VirtAddr) -> (r: isize)
    requires
        old(kernel)@.current is Some,
    ensures
        r == if spec_unmap_result(old(kernel)@.running().memory, start_va, end_va) is Ok {
            0isize
        } else {
            -1isize
        },
        final(kernel)@ == old(kernel)@.spec_munmap(start_va, end_va),
        r != 0 ==> final(kernel)@ == old(kernel)@,
        final(kernel)@.wf(),
{
    let mut st = kernel.take();
    let r = st.munmap(start_va, end_va);
    proof {
        let v = old(kernel)@;
        lemma_running(v);
        let t = v.running();
        lemma_local_update_wf(v, TaskView { memory: spec_unmap(t.memory, start_va, end_va), ..t });
        lemma_with_running_same(v);
    }
    kernel.put(st);
    match r {
        Ok(_) => 0,
        Err(_) => -1,
    }
}

/// Gives the running task the priority `prio`, which is at least 2.
pub fn set_current_task_prio(kernel: &mut Kernel, prio: u64)
    requires
        old(kernel)@.current is Some,
        prio >= 2,
    ensures
        final(kernel)@ == old(kernel)@.spec_set_prio(prio),
        final(kernel)@.wf(),
{
    let mut st = kernel.take();
    st.set_prio(prio);
    proof {
        lemma_running(old(kernel)@);
        lemma_local_update_wf(old(kernel)@, TaskView { prio, ..old(kernel)@.running() });
    }
    kernel.put(st);
}

} // verus!
