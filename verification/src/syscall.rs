//! The system calls of the kernel core.

pub mod process;

pub use process::{
    sys_exec, sys_exit, sys_fork, sys_get_time, sys_getpid, sys_mmap, sys_munmap, sys_set_priority, sys_spawn,
    sys_task_info, sys_waitpid, sys_yield, TimeVal,
};
