//! The kernel state as it is held in memory, and the operations on it.

use crate::config::MAX_SYSCALL_NUM;
use crate::mm::address::VirtAddr;
use crate::mm::memory_set::{spec_map_result, spec_unmap_result, MapError};
use crate::task::manager::{add_task, fetch_task, spec_add, ReadyTask, TaskManager};
use crate::task::model::{spec_elapsed_ms, wait_matches, KernelView};
use crate::task::model::{lemma_first_zombie, lemma_first_zombie_is};
use crate::task::processor::{current_task, take_current_task, Processor};
use crate::task::task::{ProgramImage, TaskControlBlock, TaskInfo, TaskStatus, TaskView, WaitResult};
use crate::task::wellformed::{lemma_children, lemma_empty_wf, lemma_head, lemma_next_free_pid, lemma_running};
use crate::trap::TrapContext;
use vstd::prelude::*;

verus! {

/// The table of tasks, the pool of identifiers, the ready queue and the
/// dispatch slot.
pub(crate) struct KernelState {
    /// The task of identifier `i` stands at index `i`; `None` stands where
    /// no task has that identifier.
    pub(crate) tasks: Vec<Option<TaskControlBlock>>,
    /// The identifiers that were given back.
    pub(crate) recycled: Vec<usize>,
    pub(crate) manager: TaskManager,
    pub(crate) processor: Processor,
}

impl KernelState {
    /// The state that the table stands for.
    pub(crate) open spec fn view(&self) -> KernelView {
        KernelView {
            tasks: Map::new(
                |p: usize| p < self.tasks.len() && self.tasks[p as int] is Some,
                |p: usize| (self.tasks[p as int]->0)@,
            ),
            ready: self.manager@,
            current: self.processor@,
            next_pid: self.tasks.len(),
            recycled: self.recycled@,
        }
    }
}

/// A table that differs from another in one slot, which holds a task, shows
/// the tasks of the other with that one task put in.
proof fn lemma_slot_updated(before: Seq<Option<TaskControlBlock>>, after: KernelState, p: usize)
    requires
        p < before.len(),
        after.tasks[p as int] is Some,
        after.tasks@ == before.update(p as int, after.tasks[p as int]),
    ensures
        after@.tasks == Map::new(
            |q: usize| q < before.len() && before[q as int] is Some,
            |q: usize| (before[q as int]->0)@,
        ).insert(p, (after.tasks[p as int]->0)@),
{
    assert(after@.tasks =~= Map::new(
        |q: usize| q < before.len() && before[q as int] is Some,
        |q: usize| (before[q as int]->0)@,
    ).insert(p, (after.tasks[p as int]->0)@));
}

/// A table that got a new task in an empty slot, listed as the last child of
/// its parent and put into the ready queue, shows the state after the
/// creation of that task.
proof fn lemma_task_created(
    v: KernelView,
    before: Seq<Option<TaskControlBlock>>,
    after: KernelState,
    parent: Option<usize>,
    c: usize,
)
    requires
        c == v.next_free_pid(),
        c < before.len(),
        before[c as int] is None,
        v.tasks == Map::new(
            |q: usize| q < before.len() && before[q as int] is Some,
            |q: usize| (before[q as int]->0)@,
        ),
        before.len() == if v.recycled.len() > 0 {
            v.next_pid as int
        } else {
            v.next_pid + 1
        },
        after.tasks.len() == before.len(),
        after.tasks[c as int] is Some,
        parent matches Some(p) ==> p < before.len() && before[p as int] is Some && after.tasks[p as int] is Some
            && (after.tasks[p as int]->0)@ == (TaskView {
            children: (before[p as int]->0)@.children.push(c),
            ..(before[p as int]->0)@
        }),
        forall|q: int|
            0 <= q < before.len() && q != c && parent != Some(q as usize) ==> after.tasks[q] == before[q],
        after.manager@ == spec_add(
            v.ready,
            ReadyTask { pid: c, pass: (after.tasks[c as int]->0)@.pass },
        ),
        after.processor@ == v.current,
        after.recycled@ == if v.recycled.len() > 0 {
            v.recycled.drop_last()
        } else {
            v.recycled
        },
    ensures
        after@ == v.with_new_task(parent, (after.tasks[c as int]->0)@),
{
    let v2 = v.with_new_task(parent, (after.tasks[c as int]->0)@);
    assert forall|q: usize| after@.tasks.contains_key(q) == v2.tasks.contains_key(q) by {}
    assert forall|q: usize| after@.tasks.contains_key(q) implies after@.tasks[q] == v2.tasks[q] by {
        if q != c && parent != Some(q) {
            assert(after.tasks[q as int] == before[q as int]);
        }
    }
    assert(after@.tasks =~= v2.tasks);
    assert(after@ =~= v2);
}

/// A table from which a zombie child of the running task was taken, with
/// the child struck from its parent's list and its own children left
/// without a parent, shows the state after the child was collected.
proof fn lemma_task_reaped(
    v: KernelView,
    before: Seq<Option<TaskControlBlock>>,
    after: KernelState,
    p: usize,
    k: int,
)
    requires
        v.tasks == Map::new(
            |q: usize| q < before.len() && before[q as int] is Some,
            |q: usize| (before[q as int]->0)@,
        ),
        v.current == Some(p),
        v.tasks.contains_key(p),
        0 <= k < v.tasks[p].children.len(),
        v.tasks.contains_key(v.tasks[p].children[k]),
        forall|q: usize|
            (#[trigger] v.tasks.contains_key(q)) ==> (v.tasks[q].parent == Some(v.tasks[p].children[k]))
                == v.tasks[v.tasks[p].children[k]].children.contains(q),
        after.tasks.len() == before.len(),
        forall|q: int|
            0 <= q < before.len() ==> ((#[trigger] after.tasks[q]) is Some) == (before[q] is Some && q
                != v.tasks[p].children[k]),
        forall|q: int|
            0 <= q < before.len() && (#[trigger] after.tasks[q]) is Some ==> (after.tasks[q]->0)@ == (TaskView {
                children: if q == p {
                    (before[q]->0)@.children.remove(k)
                } else {
                    (before[q]->0)@.children
                },
                parent: if v.tasks[v.tasks[p].children[k]].children.contains(q as usize) {
                    None
                } else {
                    (before[q]->0)@.parent
                },
                ..(before[q]->0)@
            }),
        after.manager@ == v.ready,
        after.processor@ == v.current,
        after.recycled@ == v.recycled.push(v.tasks[p].children[k]),
        v.next_pid == before.len(),
    ensures
        after@ == v.spec_reap(k),
{
    let v2 = v.spec_reap(k);
    assert forall|q: usize| after@.tasks.contains_key(q) == v2.tasks.contains_key(q) by {
        if q < before.len() {
            assert((after.tasks[q as int] is Some) == (before[q as int] is Some && q != v.tasks[p].children[k]));
        }
    }
    assert forall|q: usize| after@.tasks.contains_key(q) implies after@.tasks[q] == v2.tasks[q] by {
        assert(after.tasks[q as int] is Some);
        assert(v.tasks.contains_key(q));
    }
    assert(after@.tasks =~= v2.tasks);
    assert(after@ =~= v2);
}

/// Whether a wait for `pid` is a wait for the child `child`.
fn is_waited_for(pid: isize, child: usize) -> (r: bool)
    ensures
        r == wait_matches(pid, child),
{
    pid == -1 || (pid >= 0 && pid as usize == child)
}

impl KernelState {
    /// The state before the first task.
    pub(crate) fn empty() -> (r: Self)
        ensures
            r@ == KernelView::empty(),
            r@.wf(),
    {
        let r = KernelState {
            tasks: Vec::new(),
            recycled: Vec::new(),
            manager: TaskManager::new(),
            processor: Processor::new(),
        };
        proof {
            assert(r@.tasks =~= Map::<usize, TaskView>::empty());
            assert(r@ =~= KernelView::empty());
            lemma_empty_wf();
        }
        r
    }

    /// The identifier of the running task.
    pub(crate) fn current_pid(&self) -> (p: usize)
        requires
            self@.wf(),
            self@.current is Some,
        ensures
            self@.current == Some(p),
            p < self.tasks.len(),
            self.tasks[p as int] is Some,
            (self.tasks[p as int]->0)@ == self@.running(),
            self@.running().pid == p,
            self@.running().wf(),
    {
        let p = current_task(&self.processor).unwrap();
        proof {
            lemma_running(self@);
        }
        p
    }

    /// Takes the identifier for the next task out of the pool and makes
    /// room for the task in the table.
    fn alloc_pid(&mut self) -> (c: usize)
        requires
            old(self)@.wf(),
            old(self)@.pid_available(),
        ensures
            c == old(self)@.next_free_pid(),
            c < final(self).tasks.len(),
            final(self).tasks[c as int] is None,
            final(self).tasks.len() <= isize::MAX,
            forall|q: int| 0 <= q < old(self).tasks.len() ==> final(self).tasks[q] == old(self).tasks[q],
            final(self).tasks.len() == if old(self).recycled.len() > 0 {
                old(self).tasks.len() as int
            } else {
                old(self).tasks.len() + 1
            },
            final(self).recycled@ == if old(self).recycled.len() > 0 {
                old(self).recycled@.drop_last()
            } else {
                old(self).recycled@
            },
            final(self).manager == old(self).manager,
            final(self).processor == old(self).processor,
            final(self)@.tasks == old(self)@.tasks,
    {
        proof {
            lemma_next_free_pid(self@);
        }
        if self.recycled.len() > 0 {
            let c = self.recycled.pop().unwrap();
            assert(!old(self)@.tasks.contains_key(c));
            assert(c == old(self).recycled@[old(self).recycled.len() - 1]);
            assert(self@.tasks =~= old(self)@.tasks);
            c
        } else {
            let c = self.tasks.len();
            self.tasks.push(None);
            assert(self@.tasks =~= old(self)@.tasks);
            c
        }
    }

    /// Makes the first task from the program `image`.
    pub(crate) fn add_initproc(&mut self, image: ProgramImage) -> (c: usize)
        requires
            old(self)@.wf(),
            old(self)@.pid_available(),
        ensures
            c == old(self)@.next_free_pid(),
            final(self)@ == old(self)@.spec_add_initproc(image@),
    {
        let c = self.alloc_pid();
        let ghost before = self.tasks@;
        let child = TaskControlBlock::new(c, None, image);
        let pass = child.pass.0;
        self.tasks[c] = Some(child);
        add_task(&mut self.manager, c, pass);
        proof {
            lemma_task_created(old(self)@, before, *self, None, c);
        }
        c
    }

    /// Forks the running task. Returns the identifier of the child.
    pub(crate) fn fork(&mut self) -> (c: usize)
        requires
            old(self)@.wf(),
            old(self)@.current is Some,
            old(self)@.pid_available(),
        ensures
            c == old(self)@.next_free_pid(),
            final(self)@ == old(self)@.spec_fork(),
    {
        let p = self.current_pid();
        let c = self.alloc_pid();
        let ghost before = self.tasks@;
        let child = self.tasks[p].as_ref().unwrap().fork(c);
        let pass = child.pass.0;
        self.tasks[p].as_mut().unwrap().children.push(c);
        self.tasks[c] = Some(child);
        add_task(&mut self.manager, c, pass);
        proof {
            lemma_task_created(old(self)@, before, *self, Some(p), c);
        }
        c
    }

    /// Makes a child of the running task from the program `image`. Returns
    /// the identifier of the child.
    pub(crate) fn spawn(&mut self, image: ProgramImage) -> (c: usize)
        requires
            old(self)@.wf(),
            old(self)@.current is Some,
            old(self)@.pid_available(),
        ensures
            c == old(self)@.next_free_pid(),
            final(self)@ == old(self)@.spec_spawn(image@),
    {
        let p = self.current_pid();
        let c = self.alloc_pid();
        let ghost before = self.tasks@;
        let child = self.tasks[p].as_ref().unwrap().spawn(c, image);
        let pass = child.pass.0;
        self.tasks[p].as_mut().unwrap().children.push(c);
        self.tasks[c] = Some(child);
        add_task(&mut self.manager, c, pass);
        proof {
            lemma_task_created(old(self)@, before, *self, Some(p), c);
        }
        c
    }

    /// Replaces the program of the running task by `image`.
    pub(crate) fn exec(&mut self, image: ProgramImage)
        requires
            old(self)@.wf(),
            old(self)@.current is Some,
        ensures
            final(self)@ == old(self)@.spec_exec(image@),
    {
        let p = self.current_pid();
        self.tasks[p].as_mut().unwrap().exec(image);
        proof {
            lemma_slot_updated(old(self).tasks@, *self, p);
            assert(self@ =~= old(self)@.spec_exec(image@));
        }
    }

    /// One turn of the dispatch loop at the time `now`. Returns the task
    /// that was put on the processor, or `None` where no task waits.
    pub(crate) fn run_tasks(&mut self, now: usize) -> (r: Option<usize>)
        requires
            old(self)@.wf(),
            old(self)@.current is None,
        ensures
            final(self)@ == old(self)@.spec_run_tasks(now),
            r == final(self)@.current,
    {
        match fetch_task(&mut self.manager) {
            Some(p) => {
                proof {
                    lemma_head(old(self)@);
                }
                let task = self.tasks[p].as_mut().unwrap();
                task.task_status = TaskStatus::Running;
                if !task.started {
                    task.start_time = now;
                    task.started = true;
                }
                let prio = task.prio;
                task.pass.stride(prio);
                self.processor.install(p);
                proof {
                    lemma_slot_updated(old(self).tasks@, *self, p);
                    assert(self@ =~= old(self)@.spec_run_tasks(now));
                }
                Some(p)
            },
            None => None,
        }
    }

    /// Takes the running task off the processor and puts it into the ready
    /// queue.
    pub(crate) fn suspend_current(&mut self)
        requires
            old(self)@.wf(),
            old(self)@.current is Some,
        ensures
            final(self)@ == old(self)@.spec_suspend(),
    {
        proof {
            lemma_running(self@);
        }
        let p = take_current_task(&mut self.processor).unwrap();
        let task = self.tasks[p].as_mut().unwrap();
        task.task_status = TaskStatus::Ready;
        let pass = task.pass.0;
        add_task(&mut self.manager, p, pass);
        proof {
            lemma_slot_updated(old(self).tasks@, *self, p);
            assert(self@ =~= old(self)@.spec_suspend());
        }
    }

    /// Takes the running task off the processor and makes it a zombie that
    /// ended with `exit_code`.
    pub(crate) fn exit_current(&mut self, exit_code: i32)
        requires
            old(self)@.wf(),
            old(self)@.current is Some,
        ensures
            final(self)@ == old(self)@.spec_exit(exit_code),
    {
        proof {
            lemma_running(self@);
        }
        let p = take_current_task(&mut self.processor).unwrap();
        let task = self.tasks[p].as_mut().unwrap();
        task.task_status = TaskStatus::Zombie;
        task.exit_code = exit_code;
        proof {
            lemma_slot_updated(old(self).tasks@, *self, p);
            assert(self@ =~= old(self)@.spec_exit(exit_code));
        }
    }

    /// Maps a range into the address space of the running task.
    pub(crate) fn mmap(&mut self, start: VirtAddr, end: VirtAddr, perm: u8) -> (r: Result<(), MapError>)
        requires
            old(self)@.wf(),
            old(self)@.current is Some,
        ensures
            r == spec_map_result(old(self)@.running().memory, start, end, perm),
            final(self)@ == old(self)@.spec_mmap(start, end, perm),
    {
        let p = self.current_pid();
        let r = self.tasks[p].as_mut().unwrap().memory_set.map(start, end, perm);
        proof {
            lemma_slot_updated(old(self).tasks@, *self, p);
            assert(self@ =~= old(self)@.spec_mmap(start, end, perm));
        }
        r
    }

    /// Unmaps a range from the address space of the running task.
    pub(crate) fn munmap(&mut self, start: VirtAddr, end: VirtAddr) -> (r: Result<(), MapError>)
        requires
            old(self)@.wf(),
            old(self)@.current is Some,
        ensures
            r == spec_unmap_result(old(self)@.running().memory, start, end),
            final(self)@ == old(self)@.spec_munmap(start, end),
    {
        let p = self.current_pid();
        let r = self.tasks[p].as_mut().unwrap().memory_set.unmap(start, end);
        proof {
            lemma_slot_updated(old(self).tasks@, *self, p);
            assert(self@ =~= old(self)@.spec_munmap(start, end));
        }
        r
    }

    /// Gives the running task the priority `prio`.
    pub(crate) fn set_prio(&mut self, prio: u64)
        requires
            old(self)@.wf(),
            old(self)@.current is Some,
        ensures
            final(self)@ == old(self)@.spec_set_prio(prio),
    {
        let p = self.current_pid();
        self.tasks[p].as_mut().unwrap().prio = prio;
        proof {
            lemma_slot_updated(old(self).tasks@, *self, p);
            assert(self@ =~= old(self)@.spec_set_prio(prio));
        }
    }

    /// Counts one more call of the system call `syscall_id` by the running
    /// task.
    pub(crate) fn count_syscall(&mut self, syscall_id: usize)
        requires
            old(self)@.wf(),
            old(self)@.current is Some,
            syscall_id < MAX_SYSCALL_NUM,
        ensures
            final(self)@ == old(self)@.spec_count_syscall(syscall_id),
    {
        let p = self.current_pid();
        let task = self.tasks[p].as_mut().unwrap();
        let count = task.syscall_times[syscall_id];
        task.syscall_times[syscall_id] = count.saturating_add(1);
        proof {
            lemma_slot_updated(old(self).tasks@, *self, p);
            assert(self@ =~= old(self)@.spec_count_syscall(syscall_id));
        }
    }

    /// Sets the saved context of the running task.
    pub(crate) fn set_trap_cx(&mut self, trap_cx: TrapContext)
        requires
            old(self)@.wf(),
            old(self)@.current is Some,
        ensures
            final(self)@ == old(self)@.spec_set_trap_cx(trap_cx@),
    {
        let p = self.current_pid();
        self.tasks[p].as_mut().unwrap().trap_cx = trap_cx;
        proof {
            lemma_slot_updated(old(self).tasks@, *self, p);
            assert(self@ =~= old(self)@.spec_set_trap_cx(trap_cx@));
        }
    }

    /// What the running task learns about itself at the time `now`.
    pub(crate) fn task_info(&self, now: usize) -> (r: TaskInfo)
        requires
            self@.wf(),
            self@.current is Some,
        ensures
            r.status == self@.running().status,
            r.syscall_times@ == self@.running().syscall_times,
            r.time == spec_elapsed_ms(now, self@.running().start_time),
    {
        let p = self.current_pid();
        let task = self.tasks[p].as_ref().unwrap();
        let time = if now >= task.start_time {
            (now - task.start_time) / 1000
        } else {
            0
        };
        TaskInfo { status: task.task_status, syscall_times: task.syscall_times, time }
    }

    /// Collects the zombie child at place `k` among the children of the
    /// running task: the child leaves the table and its parent's list, the
    /// tasks it created lose their parent, and its identifier goes back to
    /// the pool.
    pub(crate) fn reap(&mut self, k: usize) -> (r: WaitResult)
        requires
            old(self)@.wf(),
            old(self)@.current is Some,
            k < old(self)@.running().children.len(),
            old(self)@.tasks[old(self)@.running().children[k as int]].status == TaskStatus::Zombie,
        ensures
            final(self)@ == old(self)@.spec_reap(k as int),
            r == (WaitResult::Reaped {
                pid: old(self)@.running().children[k as int],
                exit_code: old(self)@.tasks[old(self)@.running().children[k as int]].exit_code,
            }),
    {
        let ghost v = self@;
        let ghost before = self.tasks@;
        let p = self.current_pid();
        proof {
            lemma_children(v, p);
            lemma_running(v);
        }
        let ghost c0 = v.tasks[p].children[k as int];
        assert(v.tasks.contains_key(c0) && v.tasks[c0].parent == Some(p));
        let c = self.tasks[p].as_mut().unwrap().children.remove(k);
        let child = self.tasks[c].take().unwrap();
        proof {
            lemma_children(v, c);
        }
        let ghost grandchildren = child.children@;
        let count = child.children.len();
        let mut j: usize = 0;
        while j < count
            invariant
                0 <= j <= count,
                count == grandchildren.len(),
                child.children@ == grandchildren,
                grandchildren == v.tasks[c].children,
                before.len() == self.tasks.len(),
                c < before.len(),
                p < before.len(),
                c != p,
                v.tasks == Map::new(
                    |q: usize| q < before.len() && before[q as int] is Some,
                    |q: usize| (before[q as int]->0)@,
                ),
                forall|i: int|
                    0 <= i < grandchildren.len() ==> {
                        let g = #[trigger] grandchildren[i];
                        v.tasks.contains_key(g) && v.tasks[g].parent == Some(c)
                    },
                v.tasks.contains_key(c),
                v.tasks[c].parent == Some(p),
                forall|q: int|
                    0 <= q < before.len() ==> ((#[trigger] self.tasks[q]) is Some) == (before[q] is Some && q != c),
                forall|q: int|
                    0 <= q < before.len() && (#[trigger] self.tasks[q]) is Some ==> (self.tasks[q]->0)@ == (TaskView {
                        children: if q == p {
                            (before[q]->0)@.children.remove(k as int)
                        } else {
                            (before[q]->0)@.children
                        },
                        parent: if grandchildren.take(j as int).contains(q as usize) {
                            None
                        } else {
                            (before[q]->0)@.parent
                        },
                        ..(before[q]->0)@
                    }),
                self.manager == old(self).manager,
                self.processor == old(self).processor,
                self.recycled == old(self).recycled,
            decreases count - j,
        {
            let g = child.children[j];
            assert(v.tasks.contains_key(grandchildren[j as int]));
            let ghost step = self.tasks@;
            self.tasks[g].as_mut().unwrap().parent = None;
            proof {
                let now = grandchildren.take(j as int + 1);
                let was = grandchildren.take(j as int);
                assert(now =~= was.push(g));
                assert forall|q: usize| (#[trigger] now.contains(q)) == (was.contains(q) || q == g) by {
                    if was.contains(q) {
                        let i = choose|i: int| 0 <= i < was.len() && was[i] == q;
                        assert(now[i] == q);
                    }
                    if q == g {
                        assert(now[j as int] == g);
                    }
                    if now.contains(q) {
                        let i = choose|i: int| 0 <= i < now.len() && now[i] == q;
                        if i < j {
                            assert(was[i] == q);
                        }
                    }
                }
                assert forall|q: int| 0 <= q < before.len() implies ((#[trigger] self.tasks[q]) is Some) == (
                before[q] is Some && q != c) by {
                    assert((step[q] is Some) == (before[q] is Some && q != c));
                }
            }
            j = j + 1;
        }
        self.recycled.push(c);
        proof {
            assert(grandchildren.take(count as int) =~= grandchildren);
            assert forall|q: usize| (#[trigger] v.tasks.contains_key(q)) implies (v.tasks[q].parent == Some(c))
                == grandchildren.contains(q) by {
                if grandchildren.contains(q) {
                    let i = choose|i: int| 0 <= i < grandchildren.len() && grandchildren[i] == q;
                    assert(v.tasks[grandchildren[i]].parent == Some(c));
                }
            }
            lemma_next_free_pid(v);
            lemma_task_reaped(v, before, *self, p, k as int);
        }
        WaitResult::Reaped { pid: c, exit_code: child.exit_code }
    }

    /// Waits for a child of the running task: for the child `pid`, or for
    /// any child where `pid` is `-1`. The first zombie among the children
    /// that the wait is for is collected.
    pub(crate) fn waitpid(&mut self, pid: isize) -> (r: WaitResult)
        requires
            old(self)@.wf(),
            old(self)@.current is Some,
        ensures
            r == old(self)@.wait_result(pid),
            final(self)@ == old(self)@.spec_waitpid(pid),
    {
        let ghost v = self@;
        let p = self.current_pid();
        proof {
            lemma_children(v, p);
        }
        let parent = self.tasks[p].as_ref().unwrap();
        let ghost children = parent.children@;
        let count = parent.children.len();
        let mut found = false;
        let mut i: usize = 0;
        while i < count
            invariant
                0 <= i <= count,
                count == children.len(),
                parent.children@ == children,
                found == exists|j: int| 0 <= j < i && wait_matches(pid, #[trigger] children[j]),
            decreases count - i,
        {
            if is_waited_for(pid, parent.children[i]) {
                found = true;
            }
            i = i + 1;
        }
        let mut k: usize = 0;
        let mut hit = false;
        while k < count && !hit
            invariant
                0 <= k <= count,
                count == children.len(),
                parent.children@ == children,
                children == v.tasks[p].children,
                v == self@,
                forall|j: int|
                    0 <= j < children.len() ==> v.tasks.contains_key(#[trigger] children[j]),
                forall|j: int|
                    0 <= j < k ==> !(wait_matches(pid, children[j]) && v.tasks[children[j]].status
                        == TaskStatus::Zombie),
                hit ==> k < count && wait_matches(pid, children[k as int]) && v.tasks[children[k as int]].status
                    == TaskStatus::Zombie,
            decreases count - k + if hit { 0int } else { 1int },
        {
            let c = parent.children[k];
            assert(v.tasks.contains_key(children[k as int]));
            if is_waited_for(pid, c) && self.tasks[c].as_ref().unwrap().is_zombie() {
                hit = true;
            } else {
                k = k + 1;
            }
        }
        proof {
            lemma_first_zombie(v, children, pid, k as int);
            lemma_first_zombie_is(v, children, pid);
        }
        if !found {
            return WaitResult::NoSuchChild;
        }
        if !hit {
            return WaitResult::NotYetZombie;
        }
        self.reap(k)
    }
}

} // verus!
