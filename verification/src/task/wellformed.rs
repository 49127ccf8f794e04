//! Every operation keeps the kernel state well formed.

use crate::task::manager::{
    insert_pos, lemma_add_sorted, lemma_insert_pos_bounds, queued, spec_add, ReadyTask,
};
use crate::task::model::KernelView;
use crate::task::task::{TaskStatus, TaskView};
use vstd::prelude::*;

verus! {

/// A queue that a task joined holds that task and the tasks it held, and no
/// other.
pub proof fn lemma_add_queued(q: Seq<ReadyTask>, task: ReadyTask)
    ensures
        forall|i: int| 0 <= i < q.len() ==> queued(spec_add(q, task), (#[trigger] q[i]).pid),
        queued(spec_add(q, task), task.pid),
        forall|i: int|
            0 <= i < spec_add(q, task).len() ==> {
                let e = #[trigger] spec_add(q, task)[i];
                e == task || exists|j: int| 0 <= j < q.len() && q[j] == e
            },
{
    lemma_insert_pos_bounds(q, task.pass);
    let k = insert_pos(q, task.pass);
    let r = spec_add(q, task);
    assert(r[k] == task);
    assert forall|i: int| 0 <= i < q.len() implies queued(r, (#[trigger] q[i]).pid) by {
        if i < k {
            assert(r[i] == q[i]);
        } else {
            assert(r[i + 1] == q[i]);
        }
    }
    assert forall|i: int| 0 <= i < r.len() implies {
        let e = #[trigger] r[i];
        e == task || exists|j: int| 0 <= j < q.len() && q[j] == e
    } by {
        if i < k {
            assert(q[i] == r[i]);
        } else if i > k {
            assert(q[i - 1] == r[i]);
        }
    }
}

/// The queue stays sound when a ready task that did not wait joins it.
proof fn lemma_ready_sound_add(v: KernelView, v2: KernelView, task: ReadyTask)
    requires
        v.ready_sound(),
        !queued(v.ready, task.pid),
        v2.ready == spec_add(v.ready, task),
        v2.tasks.contains_key(task.pid),
        v2.tasks[task.pid].status == TaskStatus::Ready,
        v2.tasks[task.pid].pass == task.pass,
        forall|q: usize|
            q != task.pid && (#[trigger] v.tasks.contains_key(q)) ==> v2.tasks.contains_key(q)
                && v2.tasks[q].status == v.tasks[q].status && v2.tasks[q].pass == v.tasks[q].pass,
    ensures
        v2.ready_sound(),
{
    reveal(KernelView::ready_sound);
    lemma_add_sorted(v.ready, task);
    lemma_add_queued(v.ready, task);
    lemma_insert_pos_bounds(v.ready, task.pass);
    let k = insert_pos(v.ready, task.pass);
    let r = v2.ready;
    assert forall|i: int| 0 <= i < r.len() implies {
        let e = #[trigger] r[i];
        &&& v2.tasks.contains_key(e.pid)
        &&& v2.tasks[e.pid].status == TaskStatus::Ready
        &&& v2.tasks[e.pid].pass == e.pass
    } by {
        let e = r[i];
        if e != task {
            let j = choose|j: int| 0 <= j < v.ready.len() && v.ready[j] == e;
            assert(v.ready[j].pid != task.pid);
            assert(v.tasks.contains_key(e.pid));
        }
    }
    assert forall|i: int, j: int| 0 <= i < j < r.len() implies (#[trigger] r[i]).pid != (#[trigger] r[j]).pid by {
        let a: int = if i < k { i } else { i - 1 };
        let b: int = if j < k { j } else { j - 1 };
        if i != k {
            assert(r[i] == v.ready[a]);
        }
        if j != k {
            assert(r[j] == v.ready[b]);
        }
    }
}

/// A change to the running task that leaves its identifier, state, pass,
/// parent and children alone keeps the state well formed.
pub proof fn lemma_local_update_wf(v: KernelView, task: TaskView)
    requires
        v.wf(),
        v.current is Some,
        task.wf(),
        task.pid == v.running().pid,
        task.status == v.running().status,
        task.pass == v.running().pass,
        task.parent == v.running().parent,
        task.children == v.running().children,
    ensures
        v.with_running(task).wf(),
{
    reveal(KernelView::pids_wf);
    reveal(KernelView::tasks_wf);
    reveal(KernelView::current_wf);
    reveal(KernelView::ready_sound);
    reveal(KernelView::ready_complete);
    reveal(KernelView::tree_wf);
    let v2 = v.with_running(task);
    let p = v.current->0;
    assert(v2.pids_wf());
    assert(v2.tasks_wf());
    assert(v2.current_wf());
    assert(v2.ready_sound()) by {
        assert forall|i: int| 0 <= i < v2.ready.len() implies {
            let e = #[trigger] v2.ready[i];
            &&& v2.tasks.contains_key(e.pid)
            &&& v2.tasks[e.pid].status == TaskStatus::Ready
            &&& v2.tasks[e.pid].pass == e.pass
        } by {
            assert(v.tasks.contains_key(v.ready[i].pid));
        }
    }
    assert(v2.ready_complete()) by {
        assert forall|q: usize|
            (#[trigger] v2.tasks.contains_key(q)) && v2.tasks[q].status == TaskStatus::Ready implies queued(
            v2.ready,
            q,
        ) by {
            assert(v.tasks.contains_key(q));
        }
    }
    assert(v2.tree_wf()) by {
        assert forall|q: usize, k: int|
            v2.tasks.contains_key(q) && 0 <= k < v2.tasks[q].children.len() implies {
            let c = #[trigger] v2.tasks[q].children[k];
            v2.tasks.contains_key(c) && v2.tasks[c].parent == Some(q)
        } by {
            let c = v.tasks[q].children[k];
            assert(v.tasks.contains_key(c) && v.tasks[c].parent == Some(q));
        }
        assert forall|c: usize| (#[trigger] v2.tasks.contains_key(c)) && v2.tasks[c].parent is Some implies {
            let q = v2.tasks[c].parent->0;
            v2.tasks.contains_key(q) && v2.tasks[q].children.contains(c)
        } by {
            assert(v.tasks.contains_key(c));
        }
    }
}

/// A turn of the dispatch loop keeps the state well formed.
pub proof fn lemma_run_tasks_wf(v: KernelView, now: usize)
    requires
        v.wf(),
        v.current is None,
    ensures
        v.spec_run_tasks(now).wf(),
{
    reveal(KernelView::pids_wf);
    reveal(KernelView::tasks_wf);
    reveal(KernelView::current_wf);
    reveal(KernelView::ready_sound);
    reveal(KernelView::ready_complete);
    reveal(KernelView::tree_wf);
    if v.ready.len() > 0 {
        let v2 = v.spec_run_tasks(now);
        let p = v.ready[0].pid;
        assert(v.tasks.contains_key(p));
        assert(v2.pids_wf());
        assert(v2.tasks_wf());
        assert(v2.current_wf()) by {
            assert forall|q: usize|
                (#[trigger] v2.tasks.contains_key(q)) && v2.tasks[q].status == TaskStatus::Running implies v2.current
                == Some(q) by {
                if q != p {
                    assert(v.tasks.contains_key(q));
                }
            }
        }
        assert(v2.ready_sound()) by {
            assert forall|i: int| 0 <= i < v2.ready.len() implies {
                let e = #[trigger] v2.ready[i];
                &&& v2.tasks.contains_key(e.pid)
                &&& v2.tasks[e.pid].status == TaskStatus::Ready
                &&& v2.tasks[e.pid].pass == e.pass
            } by {
                assert(v2.ready[i] == v.ready[i + 1]);
                assert(v.ready[0].pid != v.ready[i + 1].pid);
            }
            assert forall|i: int, j: int| 0 <= i < j < v2.ready.len() implies (#[trigger] v2.ready[i]).pid != (
            #[trigger] v2.ready[j]).pid by {
                assert(v2.ready[i] == v.ready[i + 1] && v2.ready[j] == v.ready[j + 1]);
            }
            assert forall|i: int, j: int| 0 <= i < j < v2.ready.len() implies v2.ready[i].pass
                <= v2.ready[j].pass by {
                assert(v2.ready[i] == v.ready[i + 1] && v2.ready[j] == v.ready[j + 1]);
            }
        }
        assert(v2.ready_complete()) by {
            assert forall|q: usize|
                (#[trigger] v2.tasks.contains_key(q)) && v2.tasks[q].status == TaskStatus::Ready implies queued(
                v2.ready,
                q,
            ) by {
                assert(v.tasks.contains_key(q));
                let i = choose|i: int| 0 <= i < v.ready.len() && (#[trigger] v.ready[i]).pid == q;
                assert(v2.ready[i - 1] == v.ready[i]);
            }
        }
        assert(v2.tree_wf()) by {
            assert forall|q: usize, k: int|
                v2.tasks.contains_key(q) && 0 <= k < v2.tasks[q].children.len() implies {
                let c = #[trigger] v2.tasks[q].children[k];
                v2.tasks.contains_key(c) && v2.tasks[c].parent == Some(q)
            } by {
                let c = v.tasks[q].children[k];
                assert(v.tasks.contains_key(c) && v.tasks[c].parent == Some(q));
            }
            assert forall|c: usize| (#[trigger] v2.tasks.contains_key(c)) && v2.tasks[c].parent is Some implies {
                let q = v2.tasks[c].parent->0;
                v2.tasks.contains_key(q) && v2.tasks[q].children.contains(c)
            } by {
                assert(v.tasks.contains_key(c));
            }
        }
    }
}

/// Giving up the processor keeps the state well formed.
pub proof fn lemma_suspend_wf(v: KernelView)
    requires
        v.wf(),
        v.current is Some,
    ensures
        v.spec_suspend().wf(),
{
    reveal(KernelView::pids_wf);
    reveal(KernelView::tasks_wf);
    reveal(KernelView::current_wf);
    reveal(KernelView::ready_sound);
    reveal(KernelView::ready_complete);
    reveal(KernelView::tree_wf);
    let v2 = v.spec_suspend();
    let p = v.current->0;
    let task = ReadyTask { pid: p, pass: v.tasks[p].pass };
    assert(!queued(v.ready, p));
    lemma_ready_sound_add(v, v2, task);
    lemma_add_queued(v.ready, task);
    assert(v2.pids_wf());
    assert(v2.tasks_wf());
    assert(v2.current_wf()) by {
        assert forall|q: usize|
            (#[trigger] v2.tasks.contains_key(q)) && v2.tasks[q].status == TaskStatus::Running implies v2.current
            == Some(q) by {
            assert(v.tasks.contains_key(q));
        }
    }
    assert(v2.ready_complete()) by {
        assert forall|q: usize|
            (#[trigger] v2.tasks.contains_key(q)) && v2.tasks[q].status == TaskStatus::Ready implies queued(
            v2.ready,
            q,
        ) by {
            if q != p {
                assert(v.tasks.contains_key(q));
                let i = choose|i: int| 0 <= i < v.ready.len() && (#[trigger] v.ready[i]).pid == q;
                assert(queued(v2.ready, v.ready[i].pid));
            }
        }
    }
    assert(v2.tree_wf()) by {
        assert forall|q: usize, k: int|
            v2.tasks.contains_key(q) && 0 <= k < v2.tasks[q].children.len() implies {
            let c = #[trigger] v2.tasks[q].children[k];
            v2.tasks.contains_key(c) && v2.tasks[c].parent == Some(q)
        } by {
            let c = v.tasks[q].children[k];
            assert(v.tasks.contains_key(c) && v.tasks[c].parent == Some(q));
        }
        assert forall|c: usize| (#[trigger] v2.tasks.contains_key(c)) && v2.tasks[c].parent is Some implies {
            let q = v2.tasks[c].parent->0;
            v2.tasks.contains_key(q) && v2.tasks[q].children.contains(c)
        } by {
            assert(v.tasks.contains_key(c));
        }
    }
}

/// The end of the running task keeps the state well formed.
pub proof fn lemma_exit_wf(v: KernelView, exit_code: i32)
    requires
        v.wf(),
        v.current is Some,
    ensures
        v.spec_exit(exit_code).wf(),
{
    reveal(KernelView::pids_wf);
    reveal(KernelView::tasks_wf);
    reveal(KernelView::current_wf);
    reveal(KernelView::ready_sound);
    reveal(KernelView::ready_complete);
    reveal(KernelView::tree_wf);
    let v2 = v.spec_exit(exit_code);
    let p = v.current->0;
    assert(v2.pids_wf());
    assert(v2.tasks_wf());
    assert(v2.current_wf()) by {
        assert forall|q: usize|
            (#[trigger] v2.tasks.contains_key(q)) && v2.tasks[q].status == TaskStatus::Running implies v2.current
            == Some(q) by {
            assert(v.tasks.contains_key(q));
        }
    }
    assert(v2.ready_sound()) by {
        assert forall|i: int| 0 <= i < v2.ready.len() implies {
            let e = #[trigger] v2.ready[i];
            &&& v2.tasks.contains_key(e.pid)
            &&& v2.tasks[e.pid].status == TaskStatus::Ready
            &&& v2.tasks[e.pid].pass == e.pass
        } by {
            assert(v.tasks.contains_key(v.ready[i].pid));
        }
    }
    assert(v2.ready_complete()) by {
        assert forall|q: usize|
            (#[trigger] v2.tasks.contains_key(q)) && v2.tasks[q].status == TaskStatus::Ready implies queued(
            v2.ready,
            q,
        ) by {
            assert(v.tasks.contains_key(q));
        }
    }
    assert(v2.tree_wf()) by {
        assert forall|q: usize, k: int|
            v2.tasks.contains_key(q) && 0 <= k < v2.tasks[q].children.len() implies {
            let c = #[trigger] v2.tasks[q].children[k];
            v2.tasks.contains_key(c) && v2.tasks[c].parent == Some(q)
        } by {
            let c = v.tasks[q].children[k];
            assert(v.tasks.contains_key(c) && v.tasks[c].parent == Some(q));
        }
        assert forall|c: usize| (#[trigger] v2.tasks.contains_key(c)) && v2.tasks[c].parent is Some implies {
            let q = v2.tasks[c].parent->0;
            v2.tasks.contains_key(q) && v2.tasks[q].children.contains(c)
        } by {
            assert(v.tasks.contains_key(c));
        }
    }
}

/// The state before the first task is well formed.
pub proof fn lemma_empty_wf()
    ensures
        KernelView::empty().wf(),
{
    reveal(KernelView::pids_wf);
    reveal(KernelView::tasks_wf);
    reveal(KernelView::current_wf);
    reveal(KernelView::ready_sound);
    reveal(KernelView::ready_complete);
    reveal(KernelView::tree_wf);
}

/// The identifier of a task that exists fits the result of a system call.
pub proof fn lemma_pid_bound(v: KernelView, p: usize)
    requires
        v.wf(),
        v.tasks.contains_key(p),
    ensures
        p < isize::MAX,
        v.tasks[p].pid == p,
        v.tasks[p].wf(),
{
    reveal(KernelView::pids_wf);
    reveal(KernelView::tasks_wf);
}

/// Putting the running task in its own place changes nothing.
pub proof fn lemma_with_running_same(v: KernelView)
    requires
        v.wf(),
        v.current is Some,
    ensures
        v.with_running(v.running()) == v,
{
    lemma_running(v);
    assert(v.with_running(v.running()).tasks =~= v.tasks);
    assert(v.with_running(v.running()) =~= v);
}

/// The running task exists, runs, and is well formed by itself.
pub proof fn lemma_running(v: KernelView)
    requires
        v.wf(),
        v.current is Some,
    ensures
        v.tasks.contains_key(v.current->0),
        v.running().pid == v.current->0,
        v.running().status == TaskStatus::Running,
        v.running().wf(),
        !queued(v.ready, v.current->0),
{
    reveal(KernelView::pids_wf);
    reveal(KernelView::tasks_wf);
    reveal(KernelView::current_wf);
    reveal(KernelView::ready_sound);
}

/// The task at the head of the queue exists, is ready, is well formed by
/// itself, and no task that waits has a smaller pass.
pub proof fn lemma_head(v: KernelView)
    requires
        v.wf(),
        v.ready.len() > 0,
    ensures
        v.tasks.contains_key(v.ready[0].pid),
        v.tasks[v.ready[0].pid].status == TaskStatus::Ready,
        v.tasks[v.ready[0].pid].pass == v.ready[0].pass,
        v.tasks[v.ready[0].pid].wf(),
        forall|i: int| 0 <= i < v.ready.len() ==> v.ready[0].pass <= (#[trigger] v.ready[i]).pass,
{
    reveal(KernelView::tasks_wf);
    reveal(KernelView::ready_sound);
}

/// The children of a task that exists exist and name it as their parent,
/// and they are the only tasks that do.
pub proof fn lemma_children(v: KernelView, p: usize)
    requires
        v.wf(),
        v.tasks.contains_key(p),
    ensures
        forall|k: int|
            0 <= k < v.tasks[p].children.len() ==> {
                let c = #[trigger] v.tasks[p].children[k];
                v.tasks.contains_key(c) && v.tasks[c].parent == Some(p)
            },
        forall|c: usize|
            (#[trigger] v.tasks.contains_key(c)) && v.tasks[c].parent == Some(p) ==> v.tasks[p].children.contains(
                c,
            ),
{
    reveal(KernelView::tree_wf);
}

/// The identifier that the next task gets is the identifier of no task.
pub proof fn lemma_next_free_pid(v: KernelView)
    requires
        v.pids_wf(),
    ensures
        !v.tasks.contains_key(v.next_free_pid()),
        v.pid_available() ==> v.next_free_pid() < isize::MAX,
        v.recycled.len() > 0 ==> v.next_free_pid() < v.next_pid,
        v.next_pid <= isize::MAX,
{
    reveal(KernelView::pids_wf);
    if v.recycled.len() > 0 {
        assert(!v.tasks.contains_key(v.recycled[v.recycled.len() - 1]));
    } else if v.tasks.contains_key(v.next_pid) {
        assert(v.next_pid < v.next_pid);
    }
}

/// The creation of a task keeps the state well formed.
pub proof fn lemma_new_task_wf(v: KernelView, parent: Option<usize>, child: TaskView)
    requires
        v.wf(),
        v.pid_available(),
        parent matches Some(p) ==> v.tasks.contains_key(p),
        child.wf(),
        child.pid == v.next_free_pid(),
        child.status == TaskStatus::Ready,
        child.parent == parent,
        child.children.len() == 0,
    ensures
        v.with_new_task(parent, child).wf(),
{
    reveal(KernelView::pids_wf);
    reveal(KernelView::tasks_wf);
    reveal(KernelView::current_wf);
    reveal(KernelView::ready_sound);
    reveal(KernelView::ready_complete);
    reveal(KernelView::tree_wf);
    let v2 = v.with_new_task(parent, child);
    let c = v.next_free_pid();
    let task = ReadyTask { pid: c, pass: child.pass };
    lemma_next_free_pid(v);
    assert(!queued(v.ready, c));
    lemma_ready_sound_add(v, v2, task);
    lemma_add_queued(v.ready, task);
    assert(v2.pids_wf()) by {
        assert forall|i: int| 0 <= i < v2.recycled.len() implies (#[trigger] v2.recycled[i]) < v2.next_pid
            && !v2.tasks.contains_key(v2.recycled[i]) by {
            assert(v2.recycled[i] == v.recycled[i]);
            assert(v.recycled[i] != v.recycled[v.recycled.len() - 1]);
        }
        assert forall|i: int, j: int|
            0 <= i < v2.recycled.len() && 0 <= j < v2.recycled.len() && i != j implies v2.recycled[i]
            != v2.recycled[j] by {
            assert(v2.recycled[i] == v.recycled[i] && v2.recycled[j] == v.recycled[j]);
        }
        assert forall|q: usize| (#[trigger] v2.tasks.contains_key(q)) implies q < v2.next_pid && v2.tasks[q].pid
            == q by {
            if q != c {
                assert(v.tasks.contains_key(q));
            }
        }
    }
    assert(v2.tasks_wf()) by {
        assert forall|q: usize| (#[trigger] v2.tasks.contains_key(q)) implies v2.tasks[q].wf() by {
            if q != c {
                assert(v.tasks.contains_key(q));
                if parent == Some(q) {
                    let cs = v.tasks[q].children;
                    assert forall|i: int, j: int|
                        0 <= i < cs.push(c).len() && 0 <= j < cs.push(c).len() && i != j implies cs.push(c)[i]
                        != cs.push(c)[j] by {
                        if i < cs.len() {
                            assert(v.tasks.contains_key(cs[i]));
                        }
                        if j < cs.len() {
                            assert(v.tasks.contains_key(cs[j]));
                        }
                    }
                }
            }
        }
    }
    assert(v2.current_wf()) by {
        assert forall|q: usize|
            (#[trigger] v2.tasks.contains_key(q)) && v2.tasks[q].status == TaskStatus::Running implies v2.current
            == Some(q) by {
            assert(v.tasks.contains_key(q));
        }
    }
    assert(v2.ready_complete()) by {
        assert forall|q: usize|
            (#[trigger] v2.tasks.contains_key(q)) && v2.tasks[q].status == TaskStatus::Ready implies queued(
            v2.ready,
            q,
        ) by {
            if q != c {
                assert(v.tasks.contains_key(q));
                let i = choose|i: int| 0 <= i < v.ready.len() && (#[trigger] v.ready[i]).pid == q;
                assert(queued(v2.ready, v.ready[i].pid));
            }
        }
    }
    assert(v2.tree_wf()) by {
        assert forall|q: usize, k: int|
            v2.tasks.contains_key(q) && 0 <= k < v2.tasks[q].children.len() implies {
            let x = #[trigger] v2.tasks[q].children[k];
            v2.tasks.contains_key(x) && v2.tasks[x].parent == Some(q)
        } by {
            if q != c {
                assert(v.tasks.contains_key(q));
                if k < v.tasks[q].children.len() {
                    let x = v.tasks[q].children[k];
                    assert(v.tasks.contains_key(x) && v.tasks[x].parent == Some(q));
                }
            }
        }
        assert forall|x: usize| (#[trigger] v2.tasks.contains_key(x)) && v2.tasks[x].parent is Some implies {
            let q = v2.tasks[x].parent->0;
            v2.tasks.contains_key(q) && v2.tasks[q].children.contains(x)
        } by {
            let q = v2.tasks[x].parent->0;
            if x == c {
                let cs = v.tasks[q].children;
                assert(cs.push(c)[cs.len() as int] == c);
            } else {
                assert(v.tasks.contains_key(x));
                let cs = v.tasks[q].children;
                let i = choose|i: int| 0 <= i < cs.len() && cs[i] == x;
                if parent == Some(q) {
                    assert(cs.push(c)[i] == x);
                }
            }
        }
    }
}

/// No task is named that does not exist.
pub proof fn lemma_no_dangling(v: KernelView, pid: usize)
    requires
        v.wf(),
        !v.tasks.contains_key(pid),
    ensures
        !v.references(pid),
{
    reveal(KernelView::pids_wf);
    reveal(KernelView::tasks_wf);
    reveal(KernelView::current_wf);
    reveal(KernelView::ready_sound);
    reveal(KernelView::ready_complete);
    reveal(KernelView::tree_wf);
    if queued(v.ready, pid) {
        let i = choose|i: int| 0 <= i < v.ready.len() && (#[trigger] v.ready[i]).pid == pid;
        assert(v.tasks.contains_key(v.ready[i].pid));
    }
    if exists|p: usize| #[trigger] v.tasks.contains_key(p) && v.tasks[p].children.contains(pid) {
        let p = choose|p: usize| #[trigger] v.tasks.contains_key(p) && v.tasks[p].children.contains(pid);
        let k = choose|k: int| 0 <= k < v.tasks[p].children.len() && v.tasks[p].children[k] == pid;
        assert(v.tasks.contains_key(v.tasks[p].children[k]));
    }
    if exists|c: usize| #[trigger] v.tasks.contains_key(c) && v.tasks[c].parent == Some(pid) {
        let c = choose|c: usize| #[trigger] v.tasks.contains_key(c) && v.tasks[c].parent == Some(pid);
        assert(v.tasks.contains_key(v.tasks[c].parent->0));
    }
}

/// Collecting a zombie child keeps the state well formed, and leaves the
/// child named nowhere.
pub proof fn lemma_reap_wf(v: KernelView, k: int)
    requires
        v.wf(),
        v.current is Some,
        0 <= k < v.running().children.len(),
        v.tasks[v.running().children[k]].status == TaskStatus::Zombie,
    ensures
        v.spec_reap(k).wf(),
        !v.spec_reap(k).tasks.contains_key(v.running().children[k]),
        !v.spec_reap(k).references(v.running().children[k]),
{
    reveal(KernelView::pids_wf);
    reveal(KernelView::tasks_wf);
    reveal(KernelView::current_wf);
    reveal(KernelView::ready_sound);
    reveal(KernelView::ready_complete);
    reveal(KernelView::tree_wf);
    let v2 = v.spec_reap(k);
    let p = v.current->0;
    let cs = v.tasks[p].children;
    let c = cs[k];
    assert(v.tasks.contains_key(p));
    assert(v.tasks.contains_key(c) && v.tasks[c].parent == Some(p));
    assert(c != p);
    assert(v2.pids_wf()) by {
        assert forall|i: int| 0 <= i < v2.recycled.len() implies (#[trigger] v2.recycled[i]) < v2.next_pid
            && !v2.tasks.contains_key(v2.recycled[i]) by {
            if i < v.recycled.len() {
                assert(v2.recycled[i] == v.recycled[i]);
            }
        }
        assert forall|i: int, j: int|
            0 <= i < v2.recycled.len() && 0 <= j < v2.recycled.len() && i != j implies v2.recycled[i]
            != v2.recycled[j] by {
            if i < v.recycled.len() {
                assert(v2.recycled[i] == v.recycled[i]);
            }
            if j < v.recycled.len() {
                assert(v2.recycled[j] == v.recycled[j]);
            }
        }
    }
    assert(v2.tasks_wf()) by {
        assert forall|q: usize| (#[trigger] v2.tasks.contains_key(q)) implies v2.tasks[q].wf() by {
            assert(v.tasks.contains_key(q));
            if q == p {
                let r = cs.remove(k);
                assert forall|i: int, j: int| 0 <= i < r.len() && 0 <= j < r.len() && i != j implies r[i]
                    != r[j] by {
                    let a: int = if i < k { i } else { i + 1 };
                    let b: int = if j < k { j } else { j + 1 };
                    assert(r[i] == cs[a] && r[j] == cs[b]);
                }
            }
        }
    }
    assert(v2.current_wf()) by {
        assert forall|q: usize|
            (#[trigger] v2.tasks.contains_key(q)) && v2.tasks[q].status == TaskStatus::Running implies v2.current
            == Some(q) by {
            assert(v.tasks.contains_key(q));
        }
    }
    assert(v2.ready_sound()) by {
        assert forall|i: int| 0 <= i < v2.ready.len() implies {
            let e = #[trigger] v2.ready[i];
            &&& v2.tasks.contains_key(e.pid)
            &&& v2.tasks[e.pid].status == TaskStatus::Ready
            &&& v2.tasks[e.pid].pass == e.pass
        } by {
            assert(v.tasks.contains_key(v.ready[i].pid));
        }
    }
    assert(v2.ready_complete()) by {
        assert forall|q: usize|
            (#[trigger] v2.tasks.contains_key(q)) && v2.tasks[q].status == TaskStatus::Ready implies queued(
            v2.ready,
            q,
        ) by {
            assert(v.tasks.contains_key(q));
        }
    }
    assert(v2.tree_wf()) by {
        assert forall|q: usize, i: int|
            v2.tasks.contains_key(q) && 0 <= i < v2.tasks[q].children.len() implies {
            let x = #[trigger] v2.tasks[q].children[i];
            v2.tasks.contains_key(x) && v2.tasks[x].parent == Some(q)
        } by {
            assert(v.tasks.contains_key(q));
            let a: int = if q == p && i >= k { i + 1 } else { i };
            let x = v.tasks[q].children[a];
            assert(v2.tasks[q].children[i] == x);
            assert(v.tasks.contains_key(x) && v.tasks[x].parent == Some(q));
            if x == c {
                assert(q == p);
                assert(cs[a] != cs[k]);
            }
        }
        assert forall|x: usize| (#[trigger] v2.tasks.contains_key(x)) && v2.tasks[x].parent is Some implies {
            let q = v2.tasks[x].parent->0;
            v2.tasks.contains_key(q) && v2.tasks[q].children.contains(x)
        } by {
            assert(v.tasks.contains_key(x));
            let q = v.tasks[x].parent->0;
            assert(v.tasks.contains_key(q));
            let i = choose|i: int| 0 <= i < v.tasks[q].children.len() && v.tasks[q].children[i] == x;
            if q == p {
                let b: int = if i < k { i } else { i - 1 };
                assert(cs.remove(k)[b] == x);
            }
        }
    }
    lemma_no_dangling(v2, c);
}

} // verus!
