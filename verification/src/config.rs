//! Constants of the kernel core.

use vstd::prelude::*;

verus! {

/// Width of the offset inside a page, in bits.
pub const PAGE_SIZE_BITS: usize = 12;

/// Size of one page of virtual memory, in bytes.
pub const PAGE_SIZE: usize = 0x1000;

/// Number of system-call identifiers that a task keeps a counter for.
pub const MAX_SYSCALL_NUM: usize = 500;

/// The distance that a task of priority 1 would travel in one dispatch. A
/// task of priority `p` travels `BIG_STRIDE / p`.
pub const BIG_STRIDE: u64 = 0x1_0000_0000;

/// Priority of a task that never asked for another one.
pub const DEFAULT_PRIORITY: u64 = 16;

/// Index of the register that carries the result of a system call (`a0`).
pub const RETURN_REGISTER: usize = 10;

/// Index of the stack-pointer register (`sp`).
pub const STACK_REGISTER: usize = 2;

} // verus!
