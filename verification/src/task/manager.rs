//! The ready queue of the stride scheduler.
//!
//! The queue holds the tasks that can run, in the order in which they will:
//! by ascending pass, and among tasks of one pass the one that came first.

use vstd::prelude::*;

verus! {

/// A task that waits for the processor, with the pass it waits at.
#[derive(Clone, Copy, Debug, PartialEq, Eq, Structural)]
pub struct ReadyTask {
    pub pid: usize,
    pub pass: u64,
}

/// No task stands before one of a smaller pass.
pub open spec fn sorted_by_pass(q: Seq<ReadyTask>) -> bool {
    forall|i: int, j: int| 0 <= i < j < q.len() ==> q[i].pass <= q[j].pass
}

/// The place at which a task of pass `pass` enters the queue `q`: behind the
/// tasks at the head whose pass is no larger than its own.
pub open spec fn insert_pos(q: Seq<ReadyTask>, pass: u64) -> int
    decreases q.len(),
{
    if q.len() == 0 || q[0].pass > pass {
        0
    } else {
        1 + insert_pos(q.drop_first(), pass)
    }
}

/// The queue `q` after `task` joined it.
pub open spec fn spec_add(q: Seq<ReadyTask>, task: ReadyTask) -> Seq<ReadyTask> {
    q.insert(insert_pos(q, task.pass), task)
}

/// Whether the task `pid` waits in the queue `q`.
pub open spec fn queued(q: Seq<ReadyTask>, pid: usize) -> bool {
    exists|i: int| 0 <= i < q.len() && (#[trigger] q[i]).pid == pid
}

/// The place found by walking from the head is the place of entry.
pub proof fn lemma_insert_pos(q: Seq<ReadyTask>, pass: u64, k: int)
    requires
        0 <= k <= q.len(),
        forall|j: int| 0 <= j < k ==> q[j].pass <= pass,
        k < q.len() ==> q[k].pass > pass,
    ensures
        insert_pos(q, pass) == k,
    decreases k,
{
    if k > 0 {
        let rest = q.drop_first();
        assert forall|j: int| 0 <= j < k - 1 implies rest[j].pass <= pass by {
            assert(rest[j] == q[j + 1]);
        }
        lemma_insert_pos(rest, pass, k - 1);
    }
}

/// The place of entry lies in the queue; the tasks before it have a pass no
/// larger, and in a sorted queue the tasks behind it a larger one.
pub proof fn lemma_insert_pos_bounds(q: Seq<ReadyTask>, pass: u64)
    ensures
        0 <= insert_pos(q, pass) <= q.len(),
        forall|j: int| 0 <= j < insert_pos(q, pass) ==> q[j].pass <= pass,
        sorted_by_pass(q) ==> forall|j: int| insert_pos(q, pass) <= j < q.len() ==> q[j].pass > pass,
    decreases q.len(),
{
    if !(q.len() == 0 || q[0].pass > pass) {
        let rest = q.drop_first();
        lemma_insert_pos_bounds(rest, pass);
        assert forall|j: int| 0 <= j < insert_pos(q, pass) implies q[j].pass <= pass by {
            if j > 0 {
                assert(rest[j - 1] == q[j]);
            }
        }
        if sorted_by_pass(q) {
            assert(sorted_by_pass(rest)) by {
                assert forall|i: int, j: int| 0 <= i < j < rest.len() implies rest[i].pass <= rest[j].pass by {
                    assert(rest[i] == q[i + 1] && rest[j] == q[j + 1]);
                }
            }
            assert forall|j: int| insert_pos(q, pass) <= j < q.len() implies q[j].pass > pass by {
                assert(rest[j - 1] == q[j]);
            }
        }
    } else if q.len() > 0 && sorted_by_pass(q) {
        assert forall|j: int| 0 <= j < q.len() implies q[j].pass > pass by {
            if j > 0 {
                assert(q[0].pass <= q[j].pass);
            }
        }
    }
}

/// A sorted queue stays sorted when a task joins it.
pub proof fn lemma_add_sorted(q: Seq<ReadyTask>, task: ReadyTask)
    requires
        sorted_by_pass(q),
    ensures
        sorted_by_pass(spec_add(q, task)),
{
    lemma_insert_pos_bounds(q, task.pass);
    let k = insert_pos(q, task.pass);
    let r = spec_add(q, task);
    assert forall|i: int, j: int| 0 <= i < j < r.len() implies r[i].pass <= r[j].pass by {
        if i < k && j > k {
            assert(r[i] == q[i] && r[j] == q[j - 1]);
        } else if i < k && j < k {
            assert(r[i] == q[i] && r[j] == q[j]);
        } else if i > k {
            assert(r[i] == q[i - 1] && r[j] == q[j - 1]);
        }
    }
}

/// The tasks that can run, in the order in which they will.
pub struct TaskManager {
    ready_queue: Vec<ReadyTask>,
}

impl View for TaskManager {
    type V = Seq<ReadyTask>;

    /// The queue from its head, the task to run next, to its tail.
    closed spec fn view(&self) -> Seq<ReadyTask> {
        self.ready_queue@
    }
}

impl TaskManager {
    #[verifier::type_invariant]
    spec fn inv(self) -> bool {
        sorted_by_pass(self.ready_queue@)
    }

    /// An empty queue.
    pub fn new() -> (r: Self)
        ensures
            r@ == Seq::<ReadyTask>::empty(),
    {
        TaskManager { ready_queue: Vec::new() }
    }

    /// The number of tasks that wait.
    pub fn len(&self) -> (r: usize)
        ensures
            r == self@.len(),
            sorted_by_pass(self@),
    {
        proof {
            use_type_invariant(self);
        }
        self.ready_queue.len()
    }

    /// Puts the task `pid`, which waits at `pass`, into the queue: behind
    /// every task whose pass is no larger.
    pub fn add(&mut self, pid: usize, pass: u64)
        ensures
            final(self)@ == spec_add(old(self)@, ReadyTask { pid, pass }),
            sorted_by_pass(old(self)@),
            sorted_by_pass(final(self)@),
    {
        proof {
            use_type_invariant(&*self);
        }
        let mut queue: Vec<ReadyTask> = Vec::new();
        core::mem::swap(&mut self.ready_queue, &mut queue);
        let mut i: usize = 0;
        while i < queue.len() && queue[i].pass <= pass
            invariant
                0 <= i <= queue.len(),
                forall|j: int| 0 <= j < i ==> queue[j].pass <= pass,
            decreases queue.len() - i,
        {
            i = i + 1;
        }
        proof {
            lemma_insert_pos(queue@, pass, i as int);
            lemma_add_sorted(queue@, ReadyTask { pid, pass });
        }
        queue.insert(i, ReadyTask { pid, pass });
        self.ready_queue = queue;
    }

    /// Takes the task to run next out of the queue: the one at its head,
    /// whose pass is the smallest. `None` where no task waits.
    pub fn fetch(&mut self) -> (r: Option<usize>)
        ensures
            sorted_by_pass(old(self)@),
            sorted_by_pass(final(self)@),
            old(self)@.len() == 0 ==> r is None && final(self)@ == old(self)@,
            old(self)@.len() > 0 ==> r == Some(old(self)@[0].pid) && final(self)@ == old(self)@.drop_first(),
            forall|i: int| 0 <= i < old(self)@.len() ==> old(self)@[0].pass <= (#[trigger] old(self)@[i]).pass,
    {
        proof {
            use_type_invariant(&*self);
        }
        if self.ready_queue.len() == 0 {
            return None;
        }
        let mut queue: Vec<ReadyTask> = Vec::new();
        core::mem::swap(&mut self.ready_queue, &mut queue);
        let head = queue.remove(0);
        proof {
            assert(queue@ =~= old(self)@.drop_first());
            assert forall|i: int, j: int| 0 <= i < j < queue.len() implies queue[i].pass <= queue[j].pass by {
                assert(queue[i] == old(self)@[i + 1] && queue[j] == old(self)@[j + 1]);
            }
        }
        self.ready_queue = queue;
        Some(head.pid)
    }
}

/// Puts the task `pid`, which waits at `pass`, into the ready queue.
pub fn add_task(manager: &mut TaskManager, pid: usize, pass: u64)
    ensures
        final(manager)@ == spec_add(old(manager)@, ReadyTask { pid, pass }),
        sorted_by_pass(old(manager)@),
        sorted_by_pass(final(manager)@),
{
    manager.add(pid, pass);
}

/// Takes the task to run next out of the ready queue.
pub fn fetch_task(manager: &mut TaskManager) -> (r: Option<usize>)
    ensures
        sorted_by_pass(old(manager)@),
        sorted_by_pass(final(manager)@),
        old(manager)@.len() == 0 ==> r is None && final(manager)@ == old(manager)@,
        old(manager)@.len() > 0 ==> r == Some(old(manager)@[0].pid) && final(manager)@ == old(
            manager,
        )@.drop_first(),
        forall|i: int|
            0 <= i < old(manager)@.len() ==> old(manager)@[0].pass <= (#[trigger] old(manager)@[i]).pass,
{
    manager.fetch()
}

} // verus!
