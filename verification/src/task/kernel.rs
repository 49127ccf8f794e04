//! The kernel core as one value.

use crate::task::model::{wait_matches, KernelView};
use crate::task::processor::current_task;
use crate::task::state::KernelState;
use crate::task::task::{ProgramImage, TaskControlBlock, TaskStatus, TaskView, WaitResult};
use crate::task::wellformed::{
    lemma_children, lemma_local_update_wf, lemma_new_task_wf, lemma_next_free_pid, lemma_pid_bound,
    lemma_reap_wf, lemma_running,
};
use crate::task::model::lemma_first_zombie_is;
use vstd::prelude::*;

verus! {

/// The whole state of the kernel core: every task, the ready queue, the
/// dispatch slot and the pool of identifiers. It starts empty, and changes
/// only through the operations of this crate, each of which leaves it well
/// formed.
pub struct Kernel {
    state: KernelState,
}

impl View for Kernel {
    type V = KernelView;

    closed spec fn view(&self) -> KernelView {
        self.state@
    }
}

impl Kernel {
    #[verifier::type_invariant]
    spec fn inv(self) -> bool {
        self.state@.wf()
    }

    /// A kernel in which nothing exists yet.
    pub fn new() -> (r: Self)
        ensures
            r@ == KernelView::empty(),
            r@.wf(),
    {
        Kernel { state: KernelState::empty() }
    }

    /// Takes the state out, to work on it, and leaves an empty one.
    pub(crate) fn take(&mut self) -> (st: KernelState)
        ensures
            st@ == old(self)@,
            st@.wf(),
    {
        proof {
            use_type_invariant(&*self);
        }
        let mut st = KernelState::empty();
        core::mem::swap(&mut self.state, &mut st);
        st
    }

    /// Puts the state back.
    pub(crate) fn put(&mut self, st: KernelState)
        requires
            st@.wf(),
        ensures
            final(self)@ == st@,
            final(self)@.wf(),
    {
        self.state = st;
    }

    /// The state, to read it.
    pub(crate) fn state(&self) -> (st: &KernelState)
        ensures
            st@ == self@,
            st@.wf(),
    {
        proof {
            use_type_invariant(self);
        }
        &self.state
    }

    /// Does nothing when it runs. It tells a verified caller that the state
    /// is well formed, which holds of every kernel.
    pub fn well_formed(&self)
        ensures
            self@.wf(),
    {
        proof {
            use_type_invariant(self);
        }
    }

    /// The identifier of the running task.
    pub fn current_pid(&self) -> (r: Option<usize>)
        ensures
            r == self@.current,
            r matches Some(p) ==> p < isize::MAX && self@.tasks.contains_key(p),
            self@.wf(),
    {
        let r = current_task(&self.state().processor);
        proof {
            if r is Some {
                lemma_running(self@);
                lemma_pid_bound(self@, r->0);
            }
        }
        r
    }

    /// The task of identifier `pid`, where one exists.
    pub fn task(&self, pid: usize) -> (r: Option<&TaskControlBlock>)
        ensures
            r is Some == self@.tasks.contains_key(pid),
            r matches Some(t) ==> t@ == self@.tasks[pid],
            self@.wf(),
    {
        let st = self.state();
        if pid < st.tasks.len() {
            st.tasks[pid].as_ref()
        } else {
            None
        }
    }

    /// The number of tasks in the ready queue.
    pub fn ready_len(&self) -> (r: usize)
        ensures
            r == self@.ready.len(),
            self@.wf(),
    {
        self.state().manager.len()
    }

    /// Whether an identifier is left for one more task.
    pub fn pid_available(&self) -> (r: bool)
        ensures
            r == self@.pid_available(),
            self@.wf(),
    {
        let st = self.state();
        st.recycled.len() > 0 || st.tasks.len() < isize::MAX as usize
    }

    /// Makes a task from the program `image`, with no parent, and puts it
    /// into the ready queue. Returns its identifier.
    pub fn add_initproc(&mut self, image: ProgramImage) -> (c: usize)
        requires
            old(self)@.pid_available(),
        ensures
            c == old(self)@.next_free_pid(),
            final(self)@ == old(self)@.spec_add_initproc(image@),
            final(self)@.wf(),
    {
        let mut st = self.take();
        let c = st.add_initproc(image);
        proof {
            lemma_new_task_wf(old(self)@, None, TaskView::fresh(c, None, image@));
        }
        self.put(st);
        c
    }

    /// Forks the running task: the child gets a copy of the parent's
    /// address space and of its saved context, in which the system call
    /// returns 0; it becomes the parent's last child and waits in the ready
    /// queue. Returns the identifier of the child.
    pub fn fork(&mut self) -> (c: usize)
        requires
            old(self)@.current is Some,
            old(self)@.pid_available(),
        ensures
            c == old(self)@.next_free_pid(),
            c < isize::MAX,
            !old(self)@.tasks.contains_key(c),
            final(self)@ == old(self)@.spec_fork(),
            final(self)@.wf(),
    {
        let mut st = self.take();
        let c = st.fork();
        proof {
            lemma_running(old(self)@);
            lemma_next_free_pid(old(self)@);
            lemma_new_task_wf(old(self)@, old(self)@.current, old(self)@.running().forked(c));
        }
        self.put(st);
        c
    }

    /// Makes a child of the running task from the program `image`; nothing
    /// of the parent is copied. The child becomes the parent's last child
    /// and waits in the ready queue. Returns the identifier of the child.
    pub fn spawn(&mut self, image: ProgramImage) -> (c: usize)
        requires
            old(self)@.current is Some,
            old(self)@.pid_available(),
        ensures
            c == old(self)@.next_free_pid(),
            c < isize::MAX,
            !old(self)@.tasks.contains_key(c),
            final(self)@ == old(self)@.spec_spawn(image@),
            final(self)@.wf(),
    {
        let mut st = self.take();
        let c = st.spawn(image);
        proof {
            lemma_running(old(self)@);
            lemma_next_free_pid(old(self)@);
            lemma_new_task_wf(old(self)@, old(self)@.current, TaskView::fresh(c, old(self)@.current, image@));
        }
        self.put(st);
        c
    }

    /// Replaces the program of the running task by `image`: it gets the
    /// address space and the start context of the program, and keeps its
    /// identifier, its parent and its children.
    pub fn exec(&mut self, image: ProgramImage)
        requires
            old(self)@.current is Some,
        ensures
            final(self)@ == old(self)@.spec_exec(image@),
            final(self)@.wf(),
    {
        let mut st = self.take();
        st.exec(image);
        proof {
            lemma_running(old(self)@);
            lemma_local_update_wf(old(self)@, old(self)@.running().replaced(image@));
        }
        self.put(st);
    }

    /// Waits for a child of the running task: for the child `pid`, or for
    /// any child where `pid` is `-1`.
    ///
    /// Where the task has no child that the wait is for, the answer is
    /// `NoSuchChild`. Else, where none of those children is a zombie, it is
    /// `NotYetZombie`. Else the first zombie among them, in the order of
    /// their creation, is collected: it leaves the kernel, its identifier
    /// goes back to the pool, the tasks it created are left without a
    /// parent, and the answer holds its identifier and exit code. After
    /// that the child is named nowhere in the kernel.
    pub fn waitpid(&mut self, pid: isize) -> (r: WaitResult)
        requires
            old(self)@.current is Some,
        ensures
            r == old(self)@.wait_result(pid),
            final(self)@ == old(self)@.spec_waitpid(pid),
            final(self)@.wf(),
            r matches WaitResult::Reaped { pid: child, .. } ==> {
                &&& child < isize::MAX
                &&& old(self)@.running().children.contains(child)
                &&& wait_matches(pid, child)
                &&& old(self)@.tasks[child].status == TaskStatus::Zombie
                &&& !final(self)@.tasks.contains_key(child)
                &&& !final(self)@.references(child)
            },
            !(r is Reaped) ==> final(self)@ == old(self)@,
    {
        let mut st = self.take();
        let r = st.waitpid(pid);
        proof {
            let v = old(self)@;
            lemma_first_zombie_is(v, v.running().children, pid);
            match v.first_zombie(v.running().children, pid) {
                Some(k) => {
                    lemma_reap_wf(v, k);
                    lemma_running(v);
                    lemma_children(v, v.current->0);
                    assert(v.tasks.contains_key(v.running().children[k]));
                    lemma_pid_bound(v, v.running().children[k]);
                },
                None => {},
            }
        }
        self.put(st);
        r
    }
}

} // verus!
