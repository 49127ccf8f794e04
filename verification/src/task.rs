//! Tasks, the scheduler and the dispatch slot.

pub mod fairness;
pub mod kernel;
pub mod laws;
pub mod manager;
pub mod model;
pub mod processor;
mod state;
pub mod task;
pub mod wellformed;

pub use kernel::Kernel;
pub use manager::{add_task, fetch_task, ReadyTask, TaskManager};
pub use model::KernelView;
pub use processor::{
    current_task, current_trap_cx, get_current_task_info, inc_task_syscall_times, mmap, munmap, run_tasks,
    set_current_task_prio, set_current_trap_cx, take_current_task, Processor,
};
pub use task::{Pass, ProgramImage, TaskControlBlock, TaskInfo, TaskStatus, WaitResult};

use vstd::prelude::*;
use wellformed::{lemma_exit_wf, lemma_suspend_wf};

verus! {

/// Takes the running task off the processor and puts it back into the ready
/// queue, behind the tasks that may run before it. After this the caller
/// swaps into the dispatch loop.
pub fn suspend_current_and_run_next(kernel: &mut Kernel)
    requires
        old(kernel)@.current is Some,
    ensures
        final(kernel)@ == old(kernel)@.spec_suspend(),
        final(kernel)@.current is None,
        final(kernel)@.wf(),
{
    let mut st = kernel.take();
    st.suspend_current();
    proof {
        lemma_suspend_wf(old(kernel)@);
    }
    kernel.put(st);
}

/// Ends the running task with `exit_code`: it leaves the processor and is a
/// zombie until its parent collects it. Its children stay its children.
/// After this the caller swaps into the dispatch loop, for good.
pub fn exit_current_and_run_next(kernel: &mut Kernel, exit_code: i32)
    requires
        old(kernel)@.current is Some,
    ensures
        final(kernel)@ == old(kernel)@.spec_exit(exit_code),
        final(kernel)@.current is None,
        final(kernel)@.wf(),
{
    let mut st = kernel.take();
    st.exit_current(exit_code);
    proof {
        lemma_exit_wf(old(kernel)@, exit_code);
    }
    kernel.put(st);
}

} // verus!
