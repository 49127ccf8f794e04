use proc_core::config::{DEFAULT_PRIORITY, MAX_SYSCALL_NUM};
use proc_core::mm::{MemorySet, VirtAddr};
use proc_core::task::{
    current_trap_cx, exit_current_and_run_next, get_current_task_info, inc_task_syscall_times, mmap, munmap,
    run_tasks, set_current_task_prio, set_current_trap_cx, suspend_current_and_run_next, Kernel, ProgramImage,
    TaskStatus, WaitResult,
};
use proc_core::trap::TrapContext;

fn image(first_page: usize, pages: usize, entry_point: usize, user_sp: usize) -> ProgramImage {
    let mut memory_set = MemorySet::new_bare();
    assert_eq!(
        memory_set.map(VirtAddr(first_page * 0x1000), VirtAddr((first_page + pages) * 0x1000), 5),
        Ok(())
    );
    ProgramImage { memory_set, user_sp, entry_point }
}

fn booted() -> Kernel {
    let mut kernel = Kernel::new();
    assert_eq!(kernel.add_initproc(image(0x10, 2, 0x10000, 0x80000)), 0);
    assert_eq!(run_tasks(&mut kernel, 1000), Some(0));
    kernel
}

#[test]
fn nothing_to_dispatch_in_a_new_kernel() {
    let mut kernel = Kernel::new();
    assert_eq!(kernel.current_pid(), None);
    assert_eq!(kernel.ready_len(), 0);
    assert!(kernel.pid_available());
    assert!(kernel.task(0).is_none());
    assert_eq!(run_tasks(&mut kernel, 5), None);
    assert_eq!(kernel.current_pid(), None);
    kernel.well_formed();
}

#[test]
fn the_first_task_is_made_ready() {
    let mut kernel = Kernel::new();
    assert_eq!(kernel.add_initproc(image(0x10, 2, 0x10000, 0x80000)), 0);
    assert_eq!(kernel.ready_len(), 1);
    assert_eq!(kernel.current_pid(), None);
    let task = kernel.task(0).unwrap();
    assert_eq!(task.getpid(), 0);
    assert_eq!(task.task_status, TaskStatus::Ready);
    assert!(!task.is_zombie());
    assert_eq!(task.parent, None);
    assert!(task.children.is_empty());
    assert_eq!(task.prio, DEFAULT_PRIORITY);
    assert_eq!(task.prio, 16);
    assert_eq!(task.pass.0, 0);
    assert_eq!(task.exit_code, 0);
    assert!(!task.started);
    assert_eq!(task.syscall_times.len(), MAX_SYSCALL_NUM);
    assert!(task.syscall_times.iter().all(|&count| count == 0));
    assert_eq!(task.trap_cx.sepc, 0x10000);
    assert_eq!(task.trap_cx.x[2], 0x80000);
    for register in 0..32 {
        if register != 2 {
            assert_eq!(task.trap_cx.x[register], 0);
        }
    }
    assert_eq!(task.memory_set.permission(0x10), Some(5));
    assert_eq!(task.memory_set.permission(0x11), Some(5));
    assert_eq!(task.memory_set.permission(0x12), None);
    assert!(kernel.task(1).is_none());
}

#[test]
fn a_dispatch_runs_the_task_and_moves_its_pass() {
    let mut kernel = Kernel::new();
    kernel.add_initproc(image(0x10, 2, 0x10000, 0x80000));
    assert_eq!(run_tasks(&mut kernel, 1234), Some(0));
    assert_eq!(kernel.current_pid(), Some(0));
    assert_eq!(kernel.ready_len(), 0);
    let task = kernel.task(0).unwrap();
    assert_eq!(task.task_status, TaskStatus::Running);
    assert!(task.started);
    assert_eq!(task.start_time, 1234);
    assert_eq!(task.pass.0, 0x1000_0000);
}

#[test]
fn the_first_dispatch_is_stamped_once() {
    let mut kernel = booted();
    suspend_current_and_run_next(&mut kernel);
    assert_eq!(kernel.current_pid(), None);
    assert_eq!(kernel.ready_len(), 1);
    assert_eq!(kernel.task(0).unwrap().task_status, TaskStatus::Ready);
    assert_eq!(run_tasks(&mut kernel, 99_000), Some(0));
    let task = kernel.task(0).unwrap();
    assert_eq!(task.start_time, 1000);
    assert!(task.started);
    assert_eq!(task.pass.0, 0x2000_0000);
    assert_eq!(task.task_status, TaskStatus::Running);
}

#[test]
fn fork_makes_a_ready_child_that_sees_zero() {
    let mut kernel = booted();
    let mut frame = current_trap_cx(&kernel);
    frame.x[10] = 57;
    frame.x[11] = 0xabc;
    frame.sepc = 0x10444;
    set_current_trap_cx(&mut kernel, frame);
    set_current_task_prio(&mut kernel, 7);
    inc_task_syscall_times(&mut kernel, 220);
    let child = kernel.fork();
    assert_eq!(child, 1);
    assert_eq!(kernel.current_pid(), Some(0));
    assert_eq!(kernel.ready_len(), 1);
    let parent = kernel.task(0).unwrap();
    assert_eq!(parent.children, vec![1]);
    assert_eq!(parent.trap_cx.x[10], 57);
    assert_eq!(parent.task_status, TaskStatus::Running);
    let task = kernel.task(1).unwrap();
    assert_eq!(task.pid, 1);
    assert_eq!(task.parent, Some(0));
    assert!(task.children.is_empty());
    assert_eq!(task.task_status, TaskStatus::Ready);
    assert_eq!(task.trap_cx.x[10], 0);
    assert_eq!(task.trap_cx.x[11], 0xabc);
    assert_eq!(task.trap_cx.x[2], 0x80000);
    assert_eq!(task.trap_cx.sepc, 0x10444);
    assert_eq!(task.prio, 7);
    assert_eq!(task.pass.0, 0x1000_0000);
    assert!(!task.started);
    assert_eq!(task.start_time, 0);
    assert_eq!(task.exit_code, 0);
    assert!(task.syscall_times.iter().all(|&count| count == 0));
    assert_eq!(task.memory_set.permission(0x10), Some(5));
    assert_eq!(task.memory_set.permission(0x11), Some(5));
    assert_eq!(task.memory_set.permission(0x12), None);
}

#[test]
fn parent_and_child_map_apart_after_a_fork() {
    let mut kernel = booted();
    assert_eq!(mmap(&mut kernel, VirtAddr(0x20000), VirtAddr(0x21000), 3), 0);
    let child = kernel.fork();
    assert_eq!(kernel.task(child).unwrap().memory_set.permission(0x20), Some(3));
    // the parent changes its mappings
    assert_eq!(mmap(&mut kernel, VirtAddr(0x30000), VirtAddr(0x31000), 1), 0);
    assert_eq!(munmap(&mut kernel, VirtAddr(0x20000), VirtAddr(0x21000)), 0);
    assert_eq!(kernel.task(0).unwrap().memory_set.permission(0x30), Some(1));
    assert_eq!(kernel.task(0).unwrap().memory_set.permission(0x20), None);
    assert_eq!(kernel.task(child).unwrap().memory_set.permission(0x30), None);
    assert_eq!(kernel.task(child).unwrap().memory_set.permission(0x20), Some(3));
    // the child runs and changes its own
    suspend_current_and_run_next(&mut kernel);
    assert_eq!(run_tasks(&mut kernel, 2000), Some(child));
    assert_eq!(mmap(&mut kernel, VirtAddr(0x40000), VirtAddr(0x42000), 7), 0);
    assert_eq!(munmap(&mut kernel, VirtAddr(0x10000), VirtAddr(0x11000)), 0);
    assert_eq!(kernel.task(child).unwrap().memory_set.permission(0x40), Some(7));
    assert_eq!(kernel.task(child).unwrap().memory_set.permission(0x10), None);
    assert_eq!(kernel.task(0).unwrap().memory_set.permission(0x40), None);
    assert_eq!(kernel.task(0).unwrap().memory_set.permission(0x10), Some(5));
}

#[test]
fn spawn_makes_a_fresh_child() {
    let mut kernel = booted();
    set_current_task_prio(&mut kernel, 3);
    assert_eq!(mmap(&mut kernel, VirtAddr(0x20000), VirtAddr(0x21000), 3), 0);
    let child = kernel.spawn(image(0x50, 1, 0x50000, 0x90000));
    assert_eq!(child, 1);
    assert_eq!(kernel.task(0).unwrap().children, vec![1]);
    let task = kernel.task(1).unwrap();
    assert_eq!(task.parent, Some(0));
    assert_eq!(task.task_status, TaskStatus::Ready);
    assert_eq!(task.prio, 16);
    assert_eq!(task.pass.0, 0);
    assert_eq!(task.trap_cx.sepc, 0x50000);
    assert_eq!(task.trap_cx.x[2], 0x90000);
    assert_eq!(task.trap_cx.x[10], 0);
    assert_eq!(task.memory_set.permission(0x50), Some(5));
    assert_eq!(task.memory_set.permission(0x10), None);
    assert_eq!(task.memory_set.permission(0x20), None);
    assert_eq!(kernel.ready_len(), 1);
}

#[test]
fn exec_replaces_program_and_keeps_the_family() {
    let mut kernel = booted();
    let child = kernel.fork();
    set_current_task_prio(&mut kernel, 9);
    inc_task_syscall_times(&mut kernel, 3);
    kernel.exec(image(0x70, 3, 0x70100, 0xa0000));
    let task = kernel.task(0).unwrap();
    assert_eq!(task.pid, 0);
    assert_eq!(task.children, vec![child]);
    assert_eq!(task.parent, None);
    assert_eq!(task.task_status, TaskStatus::Running);
    assert_eq!(task.prio, 9);
    assert_eq!(task.pass.0, 0x1000_0000);
    assert_eq!(task.syscall_times[3], 1);
    assert_eq!(task.start_time, 1000);
    assert_eq!(task.trap_cx.sepc, 0x70100);
    assert_eq!(task.trap_cx.x[2], 0xa0000);
    assert_eq!(task.memory_set.permission(0x70), Some(5));
    assert_eq!(task.memory_set.permission(0x72), Some(5));
    assert_eq!(task.memory_set.permission(0x10), None);
    assert_eq!(kernel.task(child).unwrap().parent, Some(0));
    assert_eq!(kernel.task(child).unwrap().memory_set.permission(0x10), Some(5));
    assert_eq!(kernel.current_pid(), Some(0));
}

#[test]
fn exit_leaves_a_zombie_with_its_code() {
    let mut kernel = booted();
    let child = kernel.fork();
    exit_current_and_run_next(&mut kernel, -7);
    assert_eq!(kernel.current_pid(), None);
    let task = kernel.task(0).unwrap();
    assert_eq!(task.task_status, TaskStatus::Zombie);
    assert!(task.is_zombie());
    assert_eq!(task.exit_code, -7);
    assert_eq!(task.children, vec![child]);
    assert_eq!(kernel.task(child).unwrap().parent, Some(0));
    assert_eq!(kernel.ready_len(), 1);
    // the zombie is never dispatched
    assert_eq!(run_tasks(&mut kernel, 2000), Some(child));
    suspend_current_and_run_next(&mut kernel);
    assert_eq!(run_tasks(&mut kernel, 3000), Some(child));
}

#[test]
fn a_wait_without_children_finds_none() {
    let mut kernel = booted();
    assert_eq!(kernel.waitpid(-1), WaitResult::NoSuchChild);
    assert_eq!(kernel.waitpid(0), WaitResult::NoSuchChild);
    assert_eq!(kernel.waitpid(5), WaitResult::NoSuchChild);
    assert_eq!(kernel.waitpid(-2), WaitResult::NoSuchChild);
    assert_eq!(kernel.waitpid(isize::MIN), WaitResult::NoSuchChild);
    assert_eq!(kernel.waitpid(isize::MAX), WaitResult::NoSuchChild);
}

#[test]
fn a_wait_for_living_children_says_not_yet() {
    let mut kernel = booted();
    let first = kernel.fork();
    let second = kernel.fork();
    assert_eq!((first, second), (1, 2));
    assert_eq!(kernel.waitpid(-1), WaitResult::NotYetZombie);
    assert_eq!(kernel.waitpid(1), WaitResult::NotYetZombie);
    assert_eq!(kernel.waitpid(2), WaitResult::NotYetZombie);
    assert_eq!(kernel.waitpid(3), WaitResult::NoSuchChild);
    assert_eq!(kernel.waitpid(0), WaitResult::NoSuchChild);
    assert_eq!(kernel.waitpid(-3), WaitResult::NoSuchChild);
    assert_eq!(kernel.task(0).unwrap().children, vec![1, 2]);
    assert!(kernel.task(1).is_some());
    assert!(kernel.task(2).is_some());
}

/// The first task forks `count` children; each runs once and ends with its
/// identifier times ten, then the first task runs again.
fn with_ended_children(count: usize) -> Kernel {
    let mut kernel = booted();
    for _ in 0..count {
        kernel.fork();
    }
    set_current_task_prio(&mut kernel, 2);
    suspend_current_and_run_next(&mut kernel);
    for _ in 0..count {
        let pid = run_tasks(&mut kernel, 5000).unwrap();
        assert!(pid >= 1);
        exit_current_and_run_next(&mut kernel, pid as i32 * 10);
    }
    assert_eq!(run_tasks(&mut kernel, 9000), Some(0));
    kernel
}

#[test]
fn a_wait_collects_the_first_zombie() {
    let mut kernel = with_ended_children(3);
    assert_eq!(kernel.task(0).unwrap().children, vec![1, 2, 3]);
    assert_eq!(kernel.waitpid(-1), WaitResult::Reaped { pid: 1, exit_code: 10 });
    assert!(kernel.task(1).is_none());
    assert_eq!(kernel.task(0).unwrap().children, vec![2, 3]);
    assert_eq!(kernel.waitpid(3), WaitResult::Reaped { pid: 3, exit_code: 30 });
    assert!(kernel.task(3).is_none());
    assert_eq!(kernel.task(0).unwrap().children, vec![2]);
    assert_eq!(kernel.waitpid(1), WaitResult::NoSuchChild);
    assert_eq!(kernel.waitpid(3), WaitResult::NoSuchChild);
    assert_eq!(kernel.waitpid(2), WaitResult::Reaped { pid: 2, exit_code: 20 });
    assert!(kernel.task(0).unwrap().children.is_empty());
    assert_eq!(kernel.waitpid(-1), WaitResult::NoSuchChild);
    assert_eq!(kernel.current_pid(), Some(0));
    assert_eq!(kernel.ready_len(), 0);
}

#[test]
fn a_wait_passes_over_children_that_live() {
    let mut kernel = booted();
    let first = kernel.fork();
    let second = kernel.fork();
    // only the second child runs and ends
    set_current_task_prio(&mut kernel, 2);
    suspend_current_and_run_next(&mut kernel);
    assert_eq!(run_tasks(&mut kernel, 1), Some(first));
    suspend_current_and_run_next(&mut kernel);
    assert_eq!(run_tasks(&mut kernel, 2), Some(second));
    exit_current_and_run_next(&mut kernel, 42);
    assert_eq!(run_tasks(&mut kernel, 3), Some(0));
    assert_eq!(kernel.waitpid(first as isize), WaitResult::NotYetZombie);
    assert_eq!(kernel.waitpid(-1), WaitResult::Reaped { pid: second, exit_code: 42 });
    assert_eq!(kernel.waitpid(-1), WaitResult::NotYetZombie);
    assert_eq!(kernel.task(0).unwrap().children, vec![first]);
    assert_eq!(kernel.task(first).unwrap().task_status, TaskStatus::Ready);
}

#[test]
fn a_collected_child_is_named_nowhere() {
    let mut kernel = with_ended_children(2);
    assert_eq!(kernel.waitpid(2), WaitResult::Reaped { pid: 2, exit_code: 20 });
    assert!(kernel.task(2).is_none());
    assert_ne!(kernel.current_pid(), Some(2));
    for pid in 0..4 {
        if let Some(task) = kernel.task(pid) {
            assert!(!task.children.contains(&2));
            assert_ne!(task.parent, Some(2));
        }
    }
    // it is not in the ready queue: every dispatch from now on finds another
    suspend_current_and_run_next(&mut kernel);
    while let Some(pid) = run_tasks(&mut kernel, 10_000) {
        assert_ne!(pid, 2);
        exit_current_and_run_next(&mut kernel, 0);
    }
}

#[test]
fn an_identifier_given_back_is_given_out_again() {
    let mut kernel = with_ended_children(3);
    assert_eq!(kernel.waitpid(2), WaitResult::Reaped { pid: 2, exit_code: 20 });
    assert_eq!(kernel.waitpid(1), WaitResult::Reaped { pid: 1, exit_code: 10 });
    // the one given back last goes out first
    assert_eq!(kernel.fork(), 1);
    assert_eq!(kernel.fork(), 2);
    assert_eq!(kernel.fork(), 4);
    assert_eq!(kernel.task(0).unwrap().children, vec![3, 1, 2, 4]);
    assert_eq!(kernel.task(1).unwrap().task_status, TaskStatus::Ready);
    assert_eq!(kernel.task(1).unwrap().exit_code, 0);
    assert!(kernel.pid_available());
}

#[test]
fn the_children_of_a_collected_task_lose_their_parent() {
    let mut kernel = booted();
    let child = kernel.fork();
    set_current_task_prio(&mut kernel, 2);
    suspend_current_and_run_next(&mut kernel);
    assert_eq!(run_tasks(&mut kernel, 1), Some(child));
    let grandchild = kernel.fork();
    let other = kernel.spawn(image(0x50, 1, 0x50000, 0x90000));
    assert_eq!((grandchild, other), (2, 3));
    exit_current_and_run_next(&mut kernel, 5);
    // the children of a zombie stay its children
    assert_eq!(kernel.task(child).unwrap().children, vec![2, 3]);
    assert_eq!(kernel.task(grandchild).unwrap().parent, Some(child));
    // the spawned task, of pass 0, runs before the first task, which waits
    // at 0x1000_0000, and that one before the grandchild at 0x2000_0000
    assert_eq!(run_tasks(&mut kernel, 2), Some(other));
    exit_current_and_run_next(&mut kernel, 6);
    assert_eq!(run_tasks(&mut kernel, 4), Some(0));
    assert_eq!(kernel.waitpid(-1), WaitResult::Reaped { pid: child, exit_code: 5 });
    assert!(kernel.task(child).is_none());
    assert_eq!(kernel.task(grandchild).unwrap().parent, None);
    assert_eq!(kernel.task(other).unwrap().parent, None);
    assert_eq!(kernel.task(other).unwrap().task_status, TaskStatus::Zombie);
    assert_eq!(kernel.task(grandchild).unwrap().task_status, TaskStatus::Ready);
    // they are no children of the first task
    assert_eq!(kernel.waitpid(other as isize), WaitResult::NoSuchChild);
    assert_eq!(kernel.waitpid(-1), WaitResult::NoSuchChild);
    // and the identifier of the collected task goes to the next task
    assert_eq!(kernel.fork(), child);
    assert_eq!(kernel.task(child).unwrap().parent, Some(0));
    assert!(kernel.task(child).unwrap().children.is_empty());
}

#[test]
fn the_dispatch_order_follows_the_passes() {
    let mut kernel = booted();
    // first task: pass 0x1000_0000 after its dispatch; the children take it over
    set_current_task_prio(&mut kernel, 2);
    let a = kernel.fork();
    set_current_task_prio(&mut kernel, 4);
    let b = kernel.fork();
    exit_current_and_run_next(&mut kernel, 0);
    assert_eq!(kernel.task(a).unwrap().prio, 2);
    assert_eq!(kernel.task(b).unwrap().prio, 4);
    let mut order = Vec::new();
    for now in 0..12 {
        let pid = run_tasks(&mut kernel, now).unwrap();
        order.push(pid);
        suspend_current_and_run_next(&mut kernel);
    }
    assert_eq!(order, vec![a, b, b, a, b, b, a, b, b, a, b, b]);
    assert_eq!(kernel.task(a).unwrap().pass.0, 0x1000_0000 + 4 * 0x8000_0000);
    assert_eq!(kernel.task(b).unwrap().pass.0, 0x1000_0000 + 8 * 0x4000_0000);
}

#[test]
fn at_most_one_task_runs() {
    let mut kernel = booted();
    for _ in 0..4 {
        kernel.fork();
    }
    for now in 0..20 {
        suspend_current_and_run_next(&mut kernel);
        let running_now = run_tasks(&mut kernel, now).unwrap();
        let mut running = 0;
        let mut ready = 0;
        for pid in 0..5 {
            match kernel.task(pid).unwrap().task_status {
                TaskStatus::Running => {
                    assert_eq!(pid, running_now);
                    running += 1;
                }
                TaskStatus::Ready => ready += 1,
                _ => {}
            }
        }
        assert_eq!(running, 1);
        assert_eq!(ready, 4);
        assert_eq!(kernel.ready_len(), 4);
        assert_eq!(kernel.current_pid(), Some(running_now));
    }
}

#[test]
fn the_counters_count_each_call() {
    let mut kernel = booted();
    for _ in 0..5 {
        inc_task_syscall_times(&mut kernel, 64);
    }
    inc_task_syscall_times(&mut kernel, 0);
    inc_task_syscall_times(&mut kernel, MAX_SYSCALL_NUM - 1);
    let info = get_current_task_info(&kernel, 4000);
    assert_eq!(info.status, TaskStatus::Running);
    assert_eq!(info.time, 3);
    for id in 0..MAX_SYSCALL_NUM {
        let expected = match id {
            64 => 5,
            0 | 499 => 1,
            _ => 0,
        };
        assert_eq!(info.syscall_times[id], expected);
    }
}

#[test]
fn the_elapsed_time_is_in_whole_milliseconds() {
    let kernel = booted();
    assert_eq!(get_current_task_info(&kernel, 1000).time, 0);
    assert_eq!(get_current_task_info(&kernel, 1999).time, 0);
    assert_eq!(get_current_task_info(&kernel, 2000).time, 1);
    assert_eq!(get_current_task_info(&kernel, 1_001_000).time, 1000);
    assert_eq!(get_current_task_info(&kernel, usize::MAX).time, (usize::MAX - 1000) / 1000);
    // a clock that ran backwards counts as no time
    assert_eq!(get_current_task_info(&kernel, 999).time, 0);
    assert_eq!(get_current_task_info(&kernel, 0).time, 0);
}

#[test]
fn the_saved_context_is_kept_and_handed_back() {
    let mut kernel = booted();
    let mut frame = TrapContext { x: [0; 32], sepc: 0x1234 };
    for register in 0..32 {
        frame.x[register] = 100 + register;
    }
    set_current_trap_cx(&mut kernel, frame);
    let read = current_trap_cx(&kernel);
    assert_eq!(read.x, frame.x);
    assert_eq!(read.sepc, 0x1234);
    assert_eq!(read.return_value(), 110);
    let mut changed = read;
    changed.set_return(7);
    changed.set_sp(0x9000);
    assert_eq!(changed.x[10], 7);
    assert_eq!(changed.x[2], 0x9000);
    assert_eq!(changed.x[11], 111);
    assert_eq!(current_trap_cx(&kernel).x[10], 110);
    let fresh = TrapContext::app_init_context(0x4000, 0x8000);
    assert_eq!(fresh.sepc, 0x4000);
    assert_eq!(fresh.x[2], 0x8000);
    assert_eq!(fresh.x.iter().filter(|&&value| value != 0).count(), 1);
}
