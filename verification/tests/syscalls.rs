use proc_core::config::MAX_SYSCALL_NUM;
use proc_core::mm::{MemorySet, VirtAddr};
use proc_core::syscall::{
    sys_exec, sys_exit, sys_fork, sys_get_time, sys_getpid, sys_mmap, sys_munmap, sys_set_priority, sys_spawn,
    sys_task_info, sys_waitpid, sys_yield, TimeVal,
};
use proc_core::task::{inc_task_syscall_times, run_tasks, Kernel, ProgramImage, TaskInfo, TaskStatus};

fn program(first_page: usize) -> ProgramImage {
    let mut memory_set = MemorySet::new_bare();
    assert_eq!(memory_set.map(VirtAddr(first_page * 0x1000), VirtAddr((first_page + 1) * 0x1000), 5), Ok(()));
    ProgramImage { memory_set, user_sp: 0x80000, entry_point: first_page * 0x1000 }
}

fn started_kernel() -> Kernel {
    let mut kernel = Kernel::new();
    assert_eq!(kernel.add_initproc(program(0x10)), 0);
    assert_eq!(run_tasks(&mut kernel, 1000), Some(0));
    kernel
}

fn mapped(kernel: &Kernel, pid: usize, vpn: usize) -> Option<u8> {
    kernel.task(pid).unwrap().memory_set.permission(vpn)
}

#[test]
fn getpid_names_the_running_task() {
    let mut kernel = started_kernel();
    assert_eq!(sys_getpid(&kernel), 0);
    assert_eq!(sys_fork(&mut kernel), 1);
    assert_eq!(sys_getpid(&kernel), 0);
    assert_eq!(sys_yield(&mut kernel), 0);
    assert_eq!(run_tasks(&mut kernel, 2000), Some(1));
    assert_eq!(sys_getpid(&kernel), 1);
}

#[test]
fn yield_returns_zero_and_queues_the_task() {
    let mut kernel = started_kernel();
    assert_eq!(sys_yield(&mut kernel), 0);
    assert_eq!(kernel.current_pid(), None);
    assert_eq!(kernel.ready_len(), 1);
    assert_eq!(kernel.task(0).unwrap().task_status, TaskStatus::Ready);
    assert_eq!(run_tasks(&mut kernel, 2000), Some(0));
}

#[test]
fn exit_ends_the_running_task() {
    let mut kernel = started_kernel();
    sys_exit(&mut kernel, 3);
    assert_eq!(kernel.current_pid(), None);
    assert_eq!(kernel.ready_len(), 0);
    assert_eq!(kernel.task(0).unwrap().task_status, TaskStatus::Zombie);
    assert_eq!(kernel.task(0).unwrap().exit_code, 3);
    assert_eq!(run_tasks(&mut kernel, 2000), None);
}

#[test]
fn fork_returns_the_child_to_the_parent_and_zero_to_the_child() {
    let mut kernel = started_kernel();
    let pid = sys_fork(&mut kernel);
    assert_eq!(pid, 1);
    assert_eq!(kernel.task(1).unwrap().trap_cx.x[10], 0);
    assert_eq!(kernel.task(1).unwrap().parent, Some(0));
    assert_eq!(mapped(&kernel, 1, 0x10), Some(5));
    let pid = sys_fork(&mut kernel);
    assert_eq!(pid, 2);
    assert_eq!(kernel.task(0).unwrap().children, vec![1, 2]);
    assert_eq!(kernel.ready_len(), 2);
}

#[test]
fn exec_of_a_program_that_is_not_there_fails() {
    let mut kernel = started_kernel();
    assert_eq!(sys_exec(&mut kernel, None), -1);
    assert_eq!(mapped(&kernel, 0, 0x10), Some(5));
    assert_eq!(kernel.task(0).unwrap().trap_cx.sepc, 0x10000);
    assert_eq!(kernel.current_pid(), Some(0));
}

#[test]
fn exec_of_a_program_replaces_the_address_space() {
    let mut kernel = started_kernel();
    assert_eq!(sys_exec(&mut kernel, Some(program(0x33))), 0);
    assert_eq!(mapped(&kernel, 0, 0x10), None);
    assert_eq!(mapped(&kernel, 0, 0x33), Some(5));
    assert_eq!(kernel.task(0).unwrap().trap_cx.sepc, 0x33000);
    assert_eq!(kernel.task(0).unwrap().trap_cx.x[2], 0x80000);
    assert_eq!(sys_getpid(&kernel), 0);
}

#[test]
fn spawn_of_a_program_that_is_not_there_fails() {
    let mut kernel = started_kernel();
    assert_eq!(sys_spawn(&mut kernel, None), -1);
    assert!(kernel.task(1).is_none());
    assert!(kernel.task(0).unwrap().children.is_empty());
    assert_eq!(kernel.ready_len(), 0);
}

#[test]
fn spawn_returns_the_new_task() {
    let mut kernel = started_kernel();
    assert_eq!(sys_spawn(&mut kernel, Some(program(0x44))), 1);
    assert_eq!(sys_spawn(&mut kernel, Some(program(0x55))), 2);
    assert_eq!(kernel.task(0).unwrap().children, vec![1, 2]);
    assert_eq!(mapped(&kernel, 1, 0x44), Some(5));
    assert_eq!(mapped(&kernel, 1, 0x10), None);
    assert_eq!(mapped(&kernel, 2, 0x55), Some(5));
    assert_eq!(kernel.task(2).unwrap().parent, Some(0));
    assert_eq!(kernel.ready_len(), 2);
}

#[test]
fn waitpid_answers_minus_one_without_children() {
    let mut kernel = started_kernel();
    let mut code = 1234;
    assert_eq!(sys_waitpid(&mut kernel, -1, &mut code), -1);
    assert_eq!(sys_waitpid(&mut kernel, 0, &mut code), -1);
    assert_eq!(sys_waitpid(&mut kernel, 7, &mut code), -1);
    assert_eq!(code, 1234);
}

#[test]
fn waitpid_answers_minus_two_while_the_children_live() {
    let mut kernel = started_kernel();
    assert_eq!(sys_fork(&mut kernel), 1);
    let mut code = 1234;
    assert_eq!(sys_waitpid(&mut kernel, -1, &mut code), -2);
    assert_eq!(sys_waitpid(&mut kernel, 1, &mut code), -2);
    assert_eq!(sys_waitpid(&mut kernel, 2, &mut code), -1);
    assert_eq!(code, 1234);
    assert!(kernel.task(1).is_some());
}

#[test]
fn waitpid_hands_over_pid_and_exit_code() {
    let mut kernel = started_kernel();
    assert_eq!(sys_fork(&mut kernel), 1);
    assert_eq!(sys_set_priority(&mut kernel, 2), 2);
    assert_eq!(sys_yield(&mut kernel), 0);
    assert_eq!(run_tasks(&mut kernel, 2000), Some(1));
    sys_exit(&mut kernel, -33);
    assert_eq!(run_tasks(&mut kernel, 3000), Some(0));
    let mut code = 0;
    assert_eq!(sys_waitpid(&mut kernel, -1, &mut code), 1);
    assert_eq!(code, -33);
    assert!(kernel.task(1).is_none());
    assert_eq!(sys_waitpid(&mut kernel, -1, &mut code), -1);
    assert_eq!(code, -33);
}

#[test]
fn get_time_splits_seconds_and_microseconds() {
    let mut ts = TimeVal { sec: 9, usec: 9 };
    assert_eq!(sys_get_time(&mut ts, 0, 0), 0);
    assert_eq!((ts.sec, ts.usec), (0, 0));
    assert_eq!(sys_get_time(&mut ts, 0, 999_999), 0);
    assert_eq!((ts.sec, ts.usec), (0, 999_999));
    assert_eq!(sys_get_time(&mut ts, 5, 1_000_000), 0);
    assert_eq!((ts.sec, ts.usec), (1, 0));
    assert_eq!(sys_get_time(&mut ts, 0, 12_345_678_901), 0);
    assert_eq!((ts.sec, ts.usec), (12_345, 678_901));
}

#[test]
fn task_info_reports_k_after_k_calls() {
    let mut kernel = started_kernel();
    for k in 0..=20u32 {
        let mut ti = TaskInfo { status: TaskStatus::UnInit, syscall_times: [9; MAX_SYSCALL_NUM], time: 77 };
        assert_eq!(sys_task_info(&kernel, &mut ti, 6_500), 0);
        assert_eq!(ti.status, TaskStatus::Running);
        assert_eq!(ti.time, 5);
        for id in 0..MAX_SYSCALL_NUM {
            assert_eq!(ti.syscall_times[id], if id == 410 { k } else { 0 });
        }
        inc_task_syscall_times(&mut kernel, 410);
    }
}

#[test]
fn the_counters_of_a_child_start_at_zero() {
    let mut kernel = started_kernel();
    inc_task_syscall_times(&mut kernel, 169);
    inc_task_syscall_times(&mut kernel, 169);
    assert_eq!(sys_fork(&mut kernel), 1);
    assert_eq!(sys_spawn(&mut kernel, Some(program(0x44))), 2);
    assert_eq!(kernel.task(0).unwrap().syscall_times[169], 2);
    assert!(kernel.task(1).unwrap().syscall_times.iter().all(|&count| count == 0));
    assert!(kernel.task(2).unwrap().syscall_times.iter().all(|&count| count == 0));
}

#[test]
fn set_priority_refuses_one_and_less() {
    let mut kernel = started_kernel();
    assert_eq!(sys_set_priority(&mut kernel, 5), 5);
    assert_eq!(sys_set_priority(&mut kernel, 1), -1);
    assert_eq!(kernel.task(0).unwrap().prio, 5);
    assert_eq!(sys_set_priority(&mut kernel, 0), -1);
    assert_eq!(kernel.task(0).unwrap().prio, 5);
    assert_eq!(sys_set_priority(&mut kernel, -1), -1);
    assert_eq!(sys_set_priority(&mut kernel, isize::MIN), -1);
    assert_eq!(kernel.task(0).unwrap().prio, 5);
}

#[test]
fn set_priority_takes_two_and_more() {
    let mut kernel = started_kernel();
    assert_eq!(kernel.task(0).unwrap().prio, 16);
    assert_eq!(sys_set_priority(&mut kernel, 2), 2);
    assert_eq!(kernel.task(0).unwrap().prio, 2);
    assert_eq!(sys_set_priority(&mut kernel, isize::MAX), isize::MAX);
    assert_eq!(kernel.task(0).unwrap().prio, isize::MAX as u64);
    // a priority above the big stride makes the task stand still
    assert_eq!(sys_yield(&mut kernel), 0);
    assert_eq!(run_tasks(&mut kernel, 2000), Some(0));
    assert_eq!(kernel.task(0).unwrap().pass.0, 0x1000_0000);
}

#[test]
fn mmap_refuses_a_misaligned_start() {
    let mut kernel = started_kernel();
    assert_eq!(sys_mmap(&mut kernel, 0x2000_0001, 0x1000, 3), -1);
    assert_eq!(sys_mmap(&mut kernel, 0x2000_0fff, 0x1, 3), -1);
    assert_eq!(sys_mmap(&mut kernel, 0x2000_0800, 0x800, 3), -1);
    assert_eq!(mapped(&kernel, 0, 0x20000), None);
    assert_eq!(mapped(&kernel, 0, 0x20001), None);
}

#[test]
fn mmap_refuses_bad_permission_bits() {
    let mut kernel = started_kernel();
    assert_eq!(sys_mmap(&mut kernel, 0x2000_0000, 0x1000, 0), -1);
    assert_eq!(sys_mmap(&mut kernel, 0x2000_0000, 0x1000, 8), -1);
    assert_eq!(sys_mmap(&mut kernel, 0x2000_0000, 0x1000, 0x101), -1);
    assert_eq!(sys_mmap(&mut kernel, 0x2000_0000, 0x1000, 0x100), -1);
    assert_eq!(sys_mmap(&mut kernel, 0x2000_0000, 0x1000, usize::MAX), -1);
    assert_eq!(mapped(&kernel, 0, 0x20000), None);
}

#[test]
fn mmap_maps_the_pages_of_the_range() {
    let mut kernel = started_kernel();
    for port in 1..=7usize {
        let start = 0x2000_0000 + port * 0x10_0000;
        assert_eq!(sys_mmap(&mut kernel, start, 0x3000, port), 0);
        assert_eq!(mapped(&kernel, 0, start / 0x1000 - 1), None);
        assert_eq!(mapped(&kernel, 0, start / 0x1000), Some(port as u8));
        assert_eq!(mapped(&kernel, 0, start / 0x1000 + 2), Some(port as u8));
        assert_eq!(mapped(&kernel, 0, start / 0x1000 + 3), None);
    }
    assert_eq!(sys_mmap(&mut kernel, 0x5000_0000, 0, 1), 0);
    assert_eq!(mapped(&kernel, 0, 0x50000), None);
}

#[test]
fn mmap_refuses_a_length_that_ends_inside_a_page() {
    let mut kernel = started_kernel();
    assert_eq!(sys_mmap(&mut kernel, 0x2000_0000, 0x1800, 3), -1);
    assert_eq!(sys_mmap(&mut kernel, 0x2000_0000, 1, 3), -1);
    assert_eq!(mapped(&kernel, 0, 0x20000), None);
    assert_eq!(mapped(&kernel, 0, 0x20001), None);
}

#[test]
fn mmap_refuses_an_overlap_and_keeps_what_was_mapped() {
    let mut kernel = started_kernel();
    assert_eq!(sys_mmap(&mut kernel, 0x2000_0000, 0x2000, 3), 0);
    assert_eq!(sys_mmap(&mut kernel, 0x3000_0000, 0x1000, 1), 0);
    assert_eq!(sys_mmap(&mut kernel, 0x2000_1000, 0x2000, 7), -1);
    assert_eq!(sys_mmap(&mut kernel, 0x2fff_f000, 0x2000, 7), -1);
    assert_eq!(sys_mmap(&mut kernel, 0x10000, 0x1000, 7), -1);
    assert_eq!(mapped(&kernel, 0, 0x20000), Some(3));
    assert_eq!(mapped(&kernel, 0, 0x20001), Some(3));
    assert_eq!(mapped(&kernel, 0, 0x20002), None);
    assert_eq!(mapped(&kernel, 0, 0x2ffff), None);
    assert_eq!(mapped(&kernel, 0, 0x30000), Some(1));
    assert_eq!(mapped(&kernel, 0, 0x10), Some(5));
}

#[test]
fn munmap_is_all_or_nothing() {
    let mut kernel = started_kernel();
    assert_eq!(sys_mmap(&mut kernel, 0x2000_0000, 0x2000, 3), 0);
    assert_eq!(sys_mmap(&mut kernel, 0x2000_3000, 0x1000, 3), 0);
    // page 0x20002 was never mapped
    assert_eq!(sys_munmap(&mut kernel, 0x2000_0000, 0x4000), -1);
    assert_eq!(sys_munmap(&mut kernel, 0x2000_1000, 0x2000), -1);
    assert_eq!(sys_munmap(&mut kernel, 0x2000_2000, 0x1000), -1);
    assert_eq!(mapped(&kernel, 0, 0x20000), Some(3));
    assert_eq!(mapped(&kernel, 0, 0x20001), Some(3));
    assert_eq!(mapped(&kernel, 0, 0x20003), Some(3));
    assert_eq!(sys_munmap(&mut kernel, 0x2000_0000, 0x2000), 0);
    assert_eq!(mapped(&kernel, 0, 0x20000), None);
    assert_eq!(mapped(&kernel, 0, 0x20001), None);
    assert_eq!(mapped(&kernel, 0, 0x20003), Some(3));
    assert_eq!(sys_munmap(&mut kernel, 0x2000_0000, 0x1000), -1);
}

#[test]
fn munmap_refuses_a_misaligned_range() {
    let mut kernel = started_kernel();
    assert_eq!(sys_mmap(&mut kernel, 0x2000_0000, 0x2000, 3), 0);
    assert_eq!(sys_munmap(&mut kernel, 0x2000_0001, 0x1000), -1);
    assert_eq!(sys_munmap(&mut kernel, 0x2000_0000, 0x1001), -1);
    assert_eq!(mapped(&kernel, 0, 0x20000), Some(3));
    assert_eq!(mapped(&kernel, 0, 0x20001), Some(3));
    assert_eq!(sys_munmap(&mut kernel, 0x2000_1000, 0x1000), 0);
    assert_eq!(mapped(&kernel, 0, 0x20000), Some(3));
    assert_eq!(mapped(&kernel, 0, 0x20001), None);
}

#[test]
fn memory_calls_act_on_the_running_task_alone() {
    let mut kernel = started_kernel();
    assert_eq!(sys_fork(&mut kernel), 1);
    assert_eq!(sys_mmap(&mut kernel, 0x2000_0000, 0x1000, 3), 0);
    assert_eq!(mapped(&kernel, 1, 0x20000), None);
    assert_eq!(sys_yield(&mut kernel), 0);
    assert_eq!(run_tasks(&mut kernel, 2000), Some(1));
    assert_eq!(sys_munmap(&mut kernel, 0x2000_0000, 0x1000), -1);
    assert_eq!(sys_mmap(&mut kernel, 0x2000_0000, 0x1000, 4), 0);
    assert_eq!(mapped(&kernel, 0, 0x20000), Some(3));
    assert_eq!(mapped(&kernel, 1, 0x20000), Some(4));
}
