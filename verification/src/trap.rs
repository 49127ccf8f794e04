//! The saved user context of a task.

use crate::config::{RETURN_REGISTER, STACK_REGISTER};
use vstd::prelude::*;

verus! {

/// The registers of a task as they were when it last left user mode, and the
/// address at which it resumes. The kernel core only stores the frame, hands
/// it back, and edits two registers of it: the stack pointer of a fresh
/// program and the value that a system call returns.
#[derive(Clone, Copy, Debug)]
pub struct TrapContext {
    /// The general registers `x0` to `x31`.
    pub x: [usize; 32],
    /// The address of the next user instruction.
    pub sepc: usize,
}

/// What a [`TrapContext`] holds.
#[verifier::ext_equal]
pub struct TrapFrame {
    /// The 32 general registers.
    pub x: Seq<usize>,
    /// The address of the next user instruction.
    pub sepc: usize,
}

impl TrapFrame {
    /// The frame with `value` in the return-value register.
    pub open spec fn with_return(self, value: usize) -> TrapFrame {
        TrapFrame { x: self.x.update(RETURN_REGISTER as int, value), sepc: self.sepc }
    }

    /// The frame of a program that has not run yet: every register zero but
    /// the stack pointer, resuming at `entry`.
    pub open spec fn app_init(entry: usize, sp: usize) -> TrapFrame {
        TrapFrame {
            x: Seq::new(
                32,
                |i: int|
                    if i == STACK_REGISTER {
                        sp
                    } else {
                        0usize
                    },
            ),
            sepc: entry,
        }
    }
}

impl View for TrapContext {
    type V = TrapFrame;

    open spec fn view(&self) -> TrapFrame {
        TrapFrame { x: self.x@, sepc: self.sepc }
    }
}

impl TrapContext {
    /// Sets the stack pointer.
    pub fn set_sp(&mut self, sp: usize)
        ensures
            final(self)@.x == old(self)@.x.update(STACK_REGISTER as int, sp),
            final(self)@.sepc == old(self)@.sepc,
    {
        self.x[STACK_REGISTER] = sp;
    }

    /// Sets the value that the task sees as the result of its system call.
    pub fn set_return(&mut self, value: usize)
        ensures
            final(self)@ == old(self)@.with_return(value),
    {
        self.x[RETURN_REGISTER] = value;
    }

    /// The value in the return-value register.
    pub fn return_value(&self) -> (r: usize)
        ensures
            r == self@.x[RETURN_REGISTER as int],
    {
        self.x[RETURN_REGISTER]
    }

    /// The frame of a program that has not run yet.
    pub fn app_init_context(entry: usize, sp: usize) -> (r: Self)
        ensures
            r@ == TrapFrame::app_init(entry, sp),
    {
        let mut cx = TrapContext { x: [0; 32], sepc: entry };
        cx.set_sp(sp);
        assert(cx@.x =~= TrapFrame::app_init(entry, sp).x);
        cx
    }
}

} // verus!
