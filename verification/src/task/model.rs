//! The kernel core as a mathematical state, and what each operation makes
//! of it.
//!
//! [`KernelView`] is the state that the contracts of the crate speak of:
//! the tasks by identifier, the ready queue, the running task and the pool
//! of identifiers. Each operation is a function from state to state; that
//! each keeps the state well formed is shown in [`crate::task::wellformed`].

use crate::mm::address::VirtAddr;
use crate::mm::memory_set::{spec_map, spec_unmap};
use crate::task::manager::{queued, sorted_by_pass, spec_add, ReadyTask};
use crate::task::task::{Pass, ProgramView, TaskStatus, TaskView, WaitResult};
use crate::trap::TrapFrame;
use vstd::prelude::*;

verus! {

/// The state of the kernel core.
#[verifier::ext_equal]
pub struct KernelView {
    /// The tasks that exist, by identifier.
    pub tasks: Map<usize, TaskView>,
    /// The ready queue, from the task to run next.
    pub ready: Seq<ReadyTask>,
    /// The task that runs.
    pub current: Option<usize>,
    /// The smallest identifier that was never given out.
    pub next_pid: usize,
    /// The identifiers that were given back, the one to give out next last.
    pub recycled: Seq<usize>,
}

/// The count of a system call after one more call: one larger, and never
/// beyond the largest value of the type, where it stays.
pub open spec fn spec_count_up(count: u32) -> u32 {
    if count == u32::MAX {
        count
    } else {
        (count + 1) as u32
    }
}

/// Whether a wait for `pid` is a wait for the child `child`: `-1` waits for
/// any child, another value for the child of that identifier.
pub open spec fn wait_matches(pid: isize, child: usize) -> bool {
    pid == -1 || pid == child
}

impl KernelView {
    /// Every task carries its own identifier, which was given out and not
    /// given back; the identifiers given back are distinct.
    #[verifier::opaque]
    pub open spec fn pids_wf(self) -> bool {
        &&& self.next_pid <= isize::MAX
        &&& forall|p: usize| (#[trigger] self.tasks.contains_key(p)) ==> p < self.next_pid && self.tasks[p].pid == p
        &&& forall|i: int|
            0 <= i < self.recycled.len() ==> (#[trigger] self.recycled[i]) < self.next_pid
                && !self.tasks.contains_key(self.recycled[i])
        &&& self.recycled.no_duplicates()
    }

    /// Every task is well formed by itself.
    #[verifier::opaque]
    pub open spec fn tasks_wf(self) -> bool {
        forall|p: usize| (#[trigger] self.tasks.contains_key(p)) ==> self.tasks[p].wf()
    }

    /// The running task is the one task whose state is `Running`.
    #[verifier::opaque]
    pub open spec fn current_wf(self) -> bool {
        &&& self.current matches Some(p) ==> self.tasks.contains_key(p) && self.tasks[p].status
            == TaskStatus::Running
        &&& forall|p: usize|
            (#[trigger] self.tasks.contains_key(p)) && self.tasks[p].status == TaskStatus::Running
                ==> self.current == Some(p)
    }

    /// The queue is sorted by pass and holds ready tasks only, each once and
    /// with the pass it has.
    #[verifier::opaque]
    pub open spec fn ready_sound(self) -> bool {
        &&& sorted_by_pass(self.ready)
        &&& forall|i: int|
            0 <= i < self.ready.len() ==> {
                let e = #[trigger] self.ready[i];
                &&& self.tasks.contains_key(e.pid)
                &&& self.tasks[e.pid].status == TaskStatus::Ready
                &&& self.tasks[e.pid].pass == e.pass
            }
        &&& forall|i: int, j: int|
            0 <= i < j < self.ready.len() ==> (#[trigger] self.ready[i]).pid != (#[trigger] self.ready[j]).pid
    }

    /// Every ready task waits in the queue.
    #[verifier::opaque]
    pub open spec fn ready_complete(self) -> bool {
        forall|p: usize|
            (#[trigger] self.tasks.contains_key(p)) && self.tasks[p].status == TaskStatus::Ready ==> queued(
                self.ready,
                p,
            )
    }

    /// The children of a task exist and name it as their parent; the parent
    /// that a task names exists and lists it among its children.
    #[verifier::opaque]
    pub open spec fn tree_wf(self) -> bool {
        &&& forall|p: usize, k: int|
            self.tasks.contains_key(p) && 0 <= k < self.tasks[p].children.len() ==> {
                let c = #[trigger] self.tasks[p].children[k];
                self.tasks.contains_key(c) && self.tasks[c].parent == Some(p)
            }
        &&& forall|c: usize|
            (#[trigger] self.tasks.contains_key(c)) && self.tasks[c].parent is Some ==> {
                let p = self.tasks[c].parent->0;
                self.tasks.contains_key(p) && self.tasks[p].children.contains(c)
            }
    }

    /// What holds of the state between any two operations.
    pub open spec fn wf(self) -> bool {
        &&& self.pids_wf()
        &&& self.tasks_wf()
        &&& self.current_wf()
        &&& self.ready_sound()
        &&& self.ready_complete()
        &&& self.tree_wf()
    }

    /// The state before the first task: nothing exists.
    pub open spec fn empty() -> KernelView {
        KernelView { tasks: Map::empty(), ready: Seq::empty(), current: None, next_pid: 0, recycled: Seq::empty() }
    }

    /// The running task. It means something where a task runs.
    pub open spec fn running(self) -> TaskView {
        self.tasks[self.current->0]
    }

    /// The state with `task` in the place of the running task.
    pub open spec fn with_running(self, task: TaskView) -> KernelView {
        KernelView { tasks: self.tasks.insert(self.current->0, task), ..self }
    }

    /// Whether an identifier is left for one more task.
    pub open spec fn pid_available(self) -> bool {
        self.recycled.len() > 0 || self.next_pid < isize::MAX
    }

    /// The identifier that the next task gets: the one given back last, or
    /// where none waits, the smallest that was never given out.
    pub open spec fn next_free_pid(self) -> usize {
        if self.recycled.len() > 0 {
            self.recycled.last()
        } else {
            self.next_pid
        }
    }

    /// Whether the task `pid` is named anywhere: as the running task, in the
    /// ready queue, among the children of a task, or as the parent of one.
    pub open spec fn references(self, pid: usize) -> bool {
        ||| self.current == Some(pid)
        ||| queued(self.ready, pid)
        ||| exists|p: usize| #[trigger] self.tasks.contains_key(p) && self.tasks[p].children.contains(pid)
        ||| exists|c: usize| #[trigger] self.tasks.contains_key(c) && self.tasks[c].parent == Some(pid)
    }

    /// The state after the task `child` was created under the identifier
    /// [`Self::next_free_pid`]: it exists, waits in the ready queue, and is
    /// the last child of `parent`, where it has one.
    pub open spec fn with_new_task(self, parent: Option<usize>, child: TaskView) -> KernelView {
        let c = self.next_free_pid();
        let tasks = match parent {
            Some(p) => self.tasks.insert(
                p,
                TaskView { children: self.tasks[p].children.push(c), ..self.tasks[p] },
            ),
            None => self.tasks,
        };
        KernelView {
            tasks: tasks.insert(c, child),
            ready: spec_add(self.ready, ReadyTask { pid: c, pass: child.pass }),
            current: self.current,
            next_pid: if self.recycled.len() > 0 {
                self.next_pid
            } else {
                (self.next_pid + 1) as usize
            },
            recycled: if self.recycled.len() > 0 {
                self.recycled.drop_last()
            } else {
                self.recycled
            },
        }
    }

    /// The state after the first task was made from the program `image`.
    pub open spec fn spec_add_initproc(self, image: ProgramView) -> KernelView {
        self.with_new_task(None, TaskView::fresh(self.next_free_pid(), None, image))
    }

    /// The state after the running task forked.
    pub open spec fn spec_fork(self) -> KernelView {
        self.with_new_task(self.current, self.running().forked(self.next_free_pid()))
    }

    /// The state after the running task spawned the program `image`.
    pub open spec fn spec_spawn(self, image: ProgramView) -> KernelView {
        self.with_new_task(self.current, TaskView::fresh(self.next_free_pid(), self.current, image))
    }

    /// The state after the running task replaced its program by `image`.
    pub open spec fn spec_exec(self, image: ProgramView) -> KernelView {
        self.with_running(self.running().replaced(image))
    }

    /// The state after one turn of the dispatch loop at the time `now`.
    /// Where no task waits, nothing changes. Else the task at the head of
    /// the queue leaves it and runs: its first dispatch is stamped with
    /// `now`, and its pass advances by its stride.
    pub open spec fn spec_run_tasks(self, now: usize) -> KernelView {
        if self.ready.len() == 0 {
            self
        } else {
            let p = self.ready[0].pid;
            let t = self.tasks[p];
            KernelView {
                tasks: self.tasks.insert(
                    p,
                    TaskView {
                        status: TaskStatus::Running,
                        started: true,
                        start_time: if t.started {
                            t.start_time
                        } else {
                            now
                        },
                        pass: Pass::spec_stride(t.pass, t.prio),
                        ..t
                    },
                ),
                ready: self.ready.drop_first(),
                current: Some(p),
                ..self
            }
        }
    }

    /// The state after the running task gave up the processor: it is ready
    /// and waits in the queue.
    pub open spec fn spec_suspend(self) -> KernelView {
        let t = self.running();
        KernelView {
            tasks: self.tasks.insert(self.current->0, TaskView { status: TaskStatus::Ready, ..t }),
            ready: spec_add(self.ready, ReadyTask { pid: self.current->0, pass: t.pass }),
            current: None,
            ..self
        }
    }

    /// The state after the running task ended with `exit_code`: it is a
    /// zombie, and its children stay its children.
    pub open spec fn spec_exit(self, exit_code: i32) -> KernelView {
        let t = self.running();
        KernelView {
            tasks: self.tasks.insert(self.current->0, TaskView { status: TaskStatus::Zombie, exit_code, ..t }),
            current: None,
            ..self
        }
    }

    /// The place, among `children`, of the first zombie that a wait for
    /// `pid` is a wait for.
    pub open spec fn first_zombie(self, children: Seq<usize>, pid: isize) -> Option<int>
        decreases children.len(),
    {
        if children.len() == 0 {
            None
        } else if wait_matches(pid, children[0]) && self.tasks[children[0]].status == TaskStatus::Zombie {
            Some(0)
        } else {
            match self.first_zombie(children.drop_first(), pid) {
                Some(k) => Some(k + 1),
                None => None,
            }
        }
    }

    /// Whether the running task has a child that a wait for `pid` is a wait
    /// for.
    pub open spec fn has_child(self, pid: isize) -> bool {
        exists|k: int| 0 <= k < self.running().children.len() && wait_matches(pid, #[trigger] self.running().children[k])
    }

    /// What a wait of the running task for `pid` comes back with.
    pub open spec fn wait_result(self, pid: isize) -> WaitResult {
        let children = self.running().children;
        if !self.has_child(pid) {
            WaitResult::NoSuchChild
        } else {
            match self.first_zombie(children, pid) {
                Some(k) => WaitResult::Reaped {
                    pid: children[k],
                    exit_code: self.tasks[children[k]].exit_code,
                },
                None => WaitResult::NotYetZombie,
            }
        }
    }

    /// The state after the running task collected its child at place `k`:
    /// the child is gone, its identifier is given back, the parent no longer
    /// lists it, and the tasks that were its children have no parent.
    pub open spec fn spec_reap(self, k: int) -> KernelView {
        let p = self.current->0;
        let c = self.tasks[p].children[k];
        KernelView {
            tasks: Map::new(
                |q: usize| self.tasks.contains_key(q) && q != c,
                |q: usize|
                    {
                        let t = self.tasks[q];
                        TaskView {
                            children: if q == p {
                                t.children.remove(k)
                            } else {
                                t.children
                            },
                            parent: if t.parent == Some(c) {
                                None
                            } else {
                                t.parent
                            },
                            ..t
                        }
                    },
            ),
            recycled: self.recycled.push(c),
            ..self
        }
    }

    /// The state after the running task waited for `pid`: where one of its
    /// children that the wait is for is a zombie, the first such child is
    /// collected; else nothing changes.
    pub open spec fn spec_waitpid(self, pid: isize) -> KernelView {
        match self.first_zombie(self.running().children, pid) {
            Some(k) => self.spec_reap(k),
            None => self,
        }
    }

    /// The state after the running task asked to map a range.
    pub open spec fn spec_mmap(self, start: VirtAddr, end: VirtAddr, perm: u8) -> KernelView {
        let t = self.running();
        self.with_running(TaskView { memory: spec_map(t.memory, start, end, perm), ..t })
    }

    /// The state after the running task asked to unmap a range.
    pub open spec fn spec_munmap(self, start: VirtAddr, end: VirtAddr) -> KernelView {
        let t = self.running();
        self.with_running(TaskView { memory: spec_unmap(t.memory, start, end), ..t })
    }

    /// The state after the running task took the priority `prio`.
    pub open spec fn spec_set_prio(self, prio: u64) -> KernelView {
        self.with_running(TaskView { prio, ..self.running() })
    }

    /// The state after the running task made the system call `syscall_id`
    /// once more.
    pub open spec fn spec_count_syscall(self, syscall_id: usize) -> KernelView {
        let t = self.running();
        self.with_running(
            TaskView {
                syscall_times: t.syscall_times.update(
                    syscall_id as int,
                    spec_count_up(t.syscall_times[syscall_id as int]),
                ),
                ..t
            },
        )
    }

    /// The state after the saved context of the running task was set to
    /// `frame`.
    pub open spec fn spec_set_trap_cx(self, frame: TrapFrame) -> KernelView {
        self.with_running(TaskView { trap_cx: frame, ..self.running() })
    }
}

/// The milliseconds from `start`, in microseconds, to `now`; none where
/// `now` is the earlier.
pub open spec fn spec_elapsed_ms(now: usize, start: usize) -> usize {
    if now >= start {
        ((now - start) / 1000) as usize
    } else {
        0
    }
}

/// The place found by walking the children from the first is the place of
/// the first zombie that the wait is for.
pub proof fn lemma_first_zombie(v: KernelView, children: Seq<usize>, pid: isize, k: int)
    requires
        0 <= k <= children.len(),
        forall|j: int|
            0 <= j < k ==> !(wait_matches(pid, children[j]) && v.tasks[children[j]].status
                == TaskStatus::Zombie),
        k < children.len() ==> wait_matches(pid, children[k]) && v.tasks[children[k]].status
            == TaskStatus::Zombie,
    ensures
        v.first_zombie(children, pid) == if k < children.len() {
            Some(k)
        } else {
            None::<int>
        },
    decreases k,
{
    if k > 0 {
        let rest = children.drop_first();
        assert forall|j: int| 0 <= j < k - 1 implies !(wait_matches(pid, rest[j]) && v.tasks[rest[j]].status
            == TaskStatus::Zombie) by {
            assert(rest[j] == children[j + 1]);
        }
        assert(k < children.len() ==> rest[k - 1] == children[k]);
        lemma_first_zombie(v, rest, pid, k - 1);
    }
}

/// The first zombie that a wait is for is a child, is a zombie, and is what
/// the wait is for; where there is none, no child is both.
pub proof fn lemma_first_zombie_is(v: KernelView, children: Seq<usize>, pid: isize)
    ensures
        v.first_zombie(children, pid) matches Some(k) ==> 0 <= k < children.len() && wait_matches(
            pid,
            children[k],
        ) && v.tasks[children[k]].status == TaskStatus::Zombie,
        v.first_zombie(children, pid) is None ==> forall|j: int|
            0 <= j < children.len() ==> !(wait_matches(pid, #[trigger] children[j])
                && v.tasks[children[j]].status == TaskStatus::Zombie),
    decreases children.len(),
{
    if children.len() > 0 {
        let rest = children.drop_first();
        lemma_first_zombie_is(v, rest, pid);
        if !(wait_matches(pid, children[0]) && v.tasks[children[0]].status == TaskStatus::Zombie) {
            match v.first_zombie(rest, pid) {
                Some(k) => {
                    assert(rest[k] == children[k + 1]);
                },
                None => {
                    assert forall|j: int| 0 <= j < children.len() implies !(wait_matches(
                        pid,
                        #[trigger] children[j],
                    ) && v.tasks[children[j]].status == TaskStatus::Zombie) by {
                        if j > 0 {
                            assert(rest[j - 1] == children[j]);
                        }
                    }
                },
            }
        }
    }
}

} // verus!
