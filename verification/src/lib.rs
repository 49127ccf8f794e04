//! The process and scheduling core of a small teaching kernel.
//!
//! The crate holds the bookkeeping of a single-core kernel: task control
//! blocks and the process tree, the stride scheduler's ready queue, the
//! per-core dispatch slot, the region table of every address space, and the
//! process-lifecycle system calls built on them. All of it is one explicit
//! state object, [`task::Kernel`]; there are no globals.
//!
//! What only the machine can do stays with the caller: the context swap, the
//! timer, the program loader and the translation of user pointers. The caller
//! hands their results in as plain values and performs the switch that a
//! function of this crate decides on.

pub mod config;
pub mod mm;
pub mod syscall;
pub mod task;
pub mod trap;
