//! The task control block and the values it is made of.

use crate::config::{BIG_STRIDE, DEFAULT_PRIORITY, MAX_SYSCALL_NUM};
use crate::mm::memory_set::MemorySet;
use crate::trap::{TrapContext, TrapFrame};
use vstd::prelude::*;

verus! {

/// Where a task stands in its life. A task is created `Ready`, alternates
/// between `Ready` and `Running`, and ends as a `Zombie` until its parent
/// collects it. `UnInit` is the state of a block that was never scheduled.
#[derive(Clone, Copy, Debug, PartialEq, Eq, Structural)]
pub enum TaskStatus {
    UnInit,
    Ready,
    Running,
    Zombie,
}

/// What a wait for a child comes back with.
#[derive(Clone, Copy, Debug, PartialEq, Eq, Structural)]
pub enum WaitResult {
    /// A zombie child was collected: its identifier and the code it ended
    /// with.
    Reaped { pid: usize, exit_code: i32 },
    /// The task has no child that the wait is for.
    NoSuchChild,
    /// The task has a child that the wait is for, and none of them has ended.
    NotYetZombie,
}

/// What a task learns about itself: its state, how often it made each system
/// call, and the milliseconds since it was first dispatched.
pub struct TaskInfo {
    pub status: TaskStatus,
    pub syscall_times: [u32; MAX_SYSCALL_NUM],
    pub time: usize,
}

/// The distance a task has travelled: the sum of its strides.
#[derive(Clone, Copy, Debug, PartialEq, Eq, Structural)]
pub struct Pass(pub u64);

impl Pass {
    /// The pass after one more dispatch at priority `prio`: `BIG_STRIDE /
    /// prio` further, and never beyond the largest value of the type, where
    /// it stays. A task that has come that far keeps its turn among the
    /// tasks that have, in the order in which they queue.
    pub open spec fn spec_stride(pass: u64, prio: u64) -> u64 {
        if pass + BIG_STRIDE / prio > u64::MAX {
            u64::MAX
        } else {
            (pass + BIG_STRIDE / prio) as u64
        }
    }

    /// Advances the pass by the stride of priority `prio`.
    pub fn stride(&mut self, prio: u64)
        requires
            prio >= 2,
        ensures
            final(self).0 == Self::spec_stride(old(self).0, prio),
            final(self).0 >= old(self).0,
    {
        self.0 = self.0.saturating_add(BIG_STRIDE / prio);
    }
}

/// A program as the loader hands it over: the address space it was loaded
/// into, the top of its user stack, and its entry point.
pub struct ProgramImage {
    pub memory_set: MemorySet,
    pub user_sp: usize,
    pub entry_point: usize,
}

/// What a [`ProgramImage`] holds.
#[verifier::ext_equal]
pub struct ProgramView {
    pub memory: Map<int, u8>,
    pub user_sp: usize,
    pub entry_point: usize,
}

impl View for ProgramImage {
    type V = ProgramView;

    open spec fn view(&self) -> ProgramView {
        ProgramView { memory: self.memory_set@, user_sp: self.user_sp, entry_point: self.entry_point }
    }
}

/// The descriptor of one task.
pub struct TaskControlBlock {
    /// The identifier of the task, unique among the tasks that exist.
    pub pid: usize,
    pub task_status: TaskStatus,
    /// The saved user context. It is current only while the task does not
    /// run.
    pub trap_cx: TrapContext,
    /// The address space, which no other task shares.
    pub memory_set: MemorySet,
    /// The task that created this one. It does not keep this one alive, and
    /// is `None` for the first task and once the parent is gone.
    pub parent: Option<usize>,
    /// The tasks that this one created and has not collected yet, in the
    /// order of their creation.
    pub children: Vec<usize>,
    /// The code the task ended with; it means something once the task is a
    /// zombie.
    pub exit_code: i32,
    /// The priority, at least 2.
    pub prio: u64,
    pub pass: Pass,
    /// How often the task made each system call.
    pub syscall_times: [u32; MAX_SYSCALL_NUM],
    /// The time of the first dispatch, in microseconds; it means something
    /// once `started` is set.
    pub start_time: usize,
    pub started: bool,
}

/// What a [`TaskControlBlock`] holds.
#[verifier::ext_equal]
pub struct TaskView {
    pub pid: usize,
    pub status: TaskStatus,
    pub trap_cx: TrapFrame,
    pub memory: Map<int, u8>,
    pub parent: Option<usize>,
    pub children: Seq<usize>,
    pub exit_code: i32,
    pub prio: u64,
    pub pass: u64,
    pub syscall_times: Seq<u32>,
    pub start_time: usize,
    pub started: bool,
}

impl TaskView {
    /// What holds of every task by itself.
    pub open spec fn wf(self) -> bool {
        &&& self.prio >= 2
        &&& self.syscall_times.len() == MAX_SYSCALL_NUM
        &&& self.trap_cx.x.len() == 32
        &&& self.status != TaskStatus::UnInit
        &&& (self.status == TaskStatus::Running ==> self.started)
        &&& self.children.no_duplicates()
    }

    /// A task made from the program `image`: ready, never dispatched, with
    /// the default priority, at the start of the track, with every counter
    /// at zero and no children.
    pub open spec fn fresh(pid: usize, parent: Option<usize>, image: ProgramView) -> TaskView {
        TaskView {
            pid,
            status: TaskStatus::Ready,
            trap_cx: TrapFrame::app_init(image.entry_point, image.user_sp),
            memory: image.memory,
            parent,
            children: Seq::empty(),
            exit_code: 0,
            prio: DEFAULT_PRIORITY,
            pass: 0,
            syscall_times: Seq::new(MAX_SYSCALL_NUM as nat, |i: int| 0u32),
            start_time: 0,
            started: false,
        }
    }

    /// The child that a fork of `self` makes: ready, never dispatched, with
    /// the parent's mappings, priority and pass, with the parent's saved
    /// context but for a zero in the return-value register, with every
    /// counter at zero and no children.
    pub open spec fn forked(self, pid: usize) -> TaskView {
        TaskView {
            pid,
            status: TaskStatus::Ready,
            trap_cx: self.trap_cx.with_return(0),
            memory: self.memory,
            parent: Some(self.pid),
            children: Seq::empty(),
            exit_code: 0,
            prio: self.prio,
            pass: self.pass,
            syscall_times: Seq::new(MAX_SYSCALL_NUM as nat, |i: int| 0u32),
            start_time: 0,
            started: false,
        }
    }

    /// The task after it replaced its program by `image`: a new address
    /// space and a new saved context, everything else as it was.
    pub open spec fn replaced(self, image: ProgramView) -> TaskView {
        TaskView {
            trap_cx: TrapFrame::app_init(image.entry_point, image.user_sp),
            memory: image.memory,
            ..self
        }
    }
}

impl View for TaskControlBlock {
    type V = TaskView;

    open spec fn view(&self) -> TaskView {
        TaskView {
            pid: self.pid,
            status: self.task_status,
            trap_cx: self.trap_cx@,
            memory: self.memory_set@,
            parent: self.parent,
            children: self.children@,
            exit_code: self.exit_code,
            prio: self.prio,
            pass: self.pass.0,
            syscall_times: self.syscall_times@,
            start_time: self.start_time,
            started: self.started,
        }
    }
}

impl TaskControlBlock {
    /// A task made from the program `image`.
    pub fn new(pid: usize, parent: Option<usize>, image: ProgramImage) -> (r: Self)
        ensures
            r@ == TaskView::fresh(pid, parent, image@),
    {
        let r = TaskControlBlock {
            pid,
            task_status: TaskStatus::Ready,
            trap_cx: TrapContext::app_init_context(image.entry_point, image.user_sp),
            memory_set: image.memory_set,
            parent,
            children: Vec::new(),
            exit_code: 0,
            prio: DEFAULT_PRIORITY,
            pass: Pass(0),
            syscall_times: [0; MAX_SYSCALL_NUM],
            start_time: 0,
            started: false,
        };
        assert(r@.syscall_times =~= TaskView::fresh(pid, parent, image@).syscall_times);
        r
    }

    /// The child that a fork of `self` makes, under the identifier `pid`.
    /// Its address space is a copy: a later change to one of the two does
    /// not reach the other.
    pub fn fork(&self, pid: usize) -> (r: Self)
        ensures
            r@ == self@.forked(pid),
    {
        let mut trap_cx = self.trap_cx;
        trap_cx.set_return(0);
        let r = TaskControlBlock {
            pid,
            task_status: TaskStatus::Ready,
            trap_cx,
            memory_set: MemorySet::from_existed_user(&self.memory_set),
            parent: Some(self.pid),
            children: Vec::new(),
            exit_code: 0,
            prio: self.prio,
            pass: self.pass,
            syscall_times: [0; MAX_SYSCALL_NUM],
            start_time: 0,
            started: false,
        };
        assert(r@.syscall_times =~= self@.forked(pid).syscall_times);
        r
    }

    /// Replaces the program of `self` by `image`.
    pub fn exec(&mut self, image: ProgramImage)
        ensures
            final(self)@ == old(self)@.replaced(image@),
    {
        self.trap_cx = TrapContext::app_init_context(image.entry_point, image.user_sp);
        self.memory_set = image.memory_set;
    }

    /// A child of `self` made from the program `image`, under the
    /// identifier `pid`. Nothing of the parent is copied.
    pub fn spawn(&self, pid: usize, image: ProgramImage) -> (r: Self)
        ensures
            r@ == TaskView::fresh(pid, Some(self.pid), image@),
    {
        TaskControlBlock::new(pid, Some(self.pid), image)
    }

    /// Whether the task has ended and waits to be collected.
    pub fn is_zombie(&self) -> (r: bool)
        ensures
            r == (self@.status == TaskStatus::Zombie),
    {
        self.task_status == TaskStatus::Zombie
    }

    /// The identifier of the task.
    pub fn getpid(&self) -> (r: usize)
        ensures
            r == self@.pid,
    {
        self.pid
    }
}

} // verus!
