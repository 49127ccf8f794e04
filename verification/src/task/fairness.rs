//! How often the stride scheduler dispatches each of two tasks.
//!
//! A task of priority `p` travels `BIG_STRIDE / p` with every dispatch, and
//! the task that has travelled least runs next. So two tasks that start
//! together stay together: neither is ever ahead by more than one stride,
//! and each is dispatched in proportion to its priority.

use crate::config::BIG_STRIDE;
use crate::task::manager::{lemma_insert_pos, sorted_by_pass, spec_add, ReadyTask};
use crate::task::model::KernelView;
use crate::task::task::Pass;
use crate::task::wellformed::lemma_head;
use vstd::prelude::*;

verus! {

/// The queue `q` after its head was dispatched at priority `prio` and came
/// back into the queue.
pub open spec fn spec_round(q: Seq<ReadyTask>, prio: u64) -> Seq<ReadyTask> {
    spec_add(q.drop_first(), ReadyTask { pid: q[0].pid, pass: Pass::spec_stride(q[0].pass, prio) })
}

/// The priority of task `pid` where it is one of the two tasks `a` and
/// `b`, of the priorities `prio_a` and `prio_b`.
pub open spec fn prio_of(a: usize, prio_a: u64, prio_b: u64, pid: usize) -> u64 {
    if pid == a {
        prio_a
    } else {
        prio_b
    }
}

/// The queue after `n` rounds of the two tasks `a` and `b`, which start
/// together at pass 0 with `a` at the head. In each round the head is
/// dispatched and comes back into the queue.
pub open spec fn spec_rounds(a: usize, prio_a: u64, b: usize, prio_b: u64, n: nat) -> Seq<ReadyTask>
    decreases n,
{
    if n == 0 {
        seq![ReadyTask { pid: a, pass: 0 }, ReadyTask { pid: b, pass: 0 }]
    } else {
        let q = spec_rounds(a, prio_a, b, prio_b, (n - 1) as nat);
        spec_round(q, prio_of(a, prio_a, prio_b, q[0].pid))
    }
}

/// How often task `pid` was dispatched in the first `n` rounds.
pub open spec fn dispatches(a: usize, prio_a: u64, b: usize, prio_b: u64, n: nat, pid: usize) -> nat
    decreases n,
{
    if n == 0 {
        0
    } else {
        let before = dispatches(a, prio_a, b, prio_b, (n - 1) as nat, pid);
        if spec_rounds(a, prio_a, b, prio_b, (n - 1) as nat)[0].pid == pid {
            before + 1
        } else {
            before
        }
    }
}

/// The pass at which task `pid` waits in the queue `q` of two tasks.
pub open spec fn pass_of(q: Seq<ReadyTask>, pid: usize) -> int {
    if q[0].pid == pid {
        q[0].pass as int
    } else {
        q[1].pass as int
    }
}

/// The larger of two strides.
pub open spec fn max_stride(prio_a: u64, prio_b: u64) -> int {
    if BIG_STRIDE / prio_a >= BIG_STRIDE / prio_b {
        (BIG_STRIDE / prio_a) as int
    } else {
        (BIG_STRIDE / prio_b) as int
    }
}

proof fn lemma_mul_step(d: int, s: int)
    ensures
        (d + 1) * s == d * s + s,
{
    assert((d + 1) * s == d * s + s) by (nonlinear_arith);
}

proof fn lemma_mul_bound(d: int, s: int, n: int, m: int)
    requires
        0 <= d <= n,
        0 <= s <= m,
    ensures
        d * s <= n * m,
{
    assert(d * s <= n * m) by (nonlinear_arith)
        requires
            0 <= d <= n,
            0 <= s <= m,
    ;
}

/// Two tasks that start together stay together.
///
/// For two tasks of the priorities `prio_a` and `prio_b`, both at least 2,
/// that start at pass 0, and for every number `n` of rounds that no pass
/// outgrows its type in: the queue holds the two tasks, in the order of
/// their passes; each task has travelled its stride once for every
/// dispatch; every round dispatched one of the two; and the task ahead is
/// ahead by no more than the larger stride.
pub proof fn lemma_two_tasks_stay_together(a: usize, prio_a: u64, b: usize, prio_b: u64, n: nat)
    requires
        a != b,
        prio_a >= 2,
        prio_b >= 2,
        n * max_stride(prio_a, prio_b) <= u64::MAX,
    ensures
        ({
            let q = spec_rounds(a, prio_a, b, prio_b, n);
            let count_a = dispatches(a, prio_a, b, prio_b, n, a);
            let count_b = dispatches(a, prio_a, b, prio_b, n, b);
            &&& q.len() == 2
            &&& sorted_by_pass(q)
            &&& (q[0].pid == a && q[1].pid == b) || (q[0].pid == b && q[1].pid == a)
            &&& count_a + count_b == n
            &&& pass_of(q, a) == count_a * (BIG_STRIDE / prio_a)
            &&& pass_of(q, b) == count_b * (BIG_STRIDE / prio_b)
            &&& pass_of(q, a) - pass_of(q, b) <= max_stride(prio_a, prio_b)
            &&& pass_of(q, b) - pass_of(q, a) <= max_stride(prio_a, prio_b)
        }),
    decreases n,
{
    let stride_a = (BIG_STRIDE / prio_a) as int;
    let stride_b = (BIG_STRIDE / prio_b) as int;
    let m = max_stride(prio_a, prio_b);
    if n == 0 {
        let q = spec_rounds(a, prio_a, b, prio_b, 0);
        assert(q[0] == ReadyTask { pid: a, pass: 0 });
        assert(q[1] == ReadyTask { pid: b, pass: 0 });
        assert(0 * stride_a == 0 && 0 * stride_b == 0);
    } else {
        let k = (n - 1) as nat;
        assert(k * m <= n * m) by (nonlinear_arith)
            requires
                k <= n,
                m >= 0,
        ;
        lemma_two_tasks_stay_together(a, prio_a, b, prio_b, k);
        let q = spec_rounds(a, prio_a, b, prio_b, k);
        let count_a = dispatches(a, prio_a, b, prio_b, k, a) as int;
        let count_b = dispatches(a, prio_a, b, prio_b, k, b) as int;
        let head = q[0];
        let other = q[1];
        let prio = prio_of(a, prio_a, prio_b, head.pid);
        let stride = (BIG_STRIDE / prio) as int;
        let count = if head.pid == a { count_a } else { count_b };
        assert(head.pass == count * stride);
        lemma_mul_bound(count, stride, k as int, m);
        lemma_mul_step(k as int, m);
        lemma_mul_step(count, stride);
        assert(head.pass + stride <= u64::MAX);
        let moved = ReadyTask { pid: head.pid, pass: Pass::spec_stride(head.pass, prio) };
        assert(moved.pass == head.pass + stride);
        let rest = q.drop_first();
        assert(rest.len() == 1 && rest[0] == other);
        let at: int = if other.pass <= moved.pass { 1 } else { 0 };
        lemma_insert_pos(rest, moved.pass, at);
        let q2 = spec_rounds(a, prio_a, b, prio_b, n);
        assert(q2 == rest.insert(at, moved));
        assert(q2.len() == 2);
        if at == 1 {
            assert(q2[0] == other && q2[1] == moved);
        } else {
            assert(q2[0] == moved && q2[1] == other);
        }
    }
}

/// Of a task of priority 2 and a task of priority 4 that start together,
/// the task of priority 4 is dispatched twice as often, give or take two
/// dispatches; after nine rounds or more it has been dispatched more often
/// than the other.
pub proof fn lemma_two_to_one(a: usize, b: usize, n: nat)
    requires
        a != b,
        n <= 0xffff_ffff,
    ensures
        ({
            let low = dispatches(a, 2, b, 4, n, a);
            let high = dispatches(a, 2, b, 4, n, b);
            &&& low + high == n
            &&& 2 * low - 2 <= high <= 2 * low + 2
            &&& n >= 9 ==> high > low
        }),
{
    assert(BIG_STRIDE / 2 == 0x8000_0000 && BIG_STRIDE / 4 == 0x4000_0000);
    assert(max_stride(2, 4) == 0x8000_0000);
    assert(n * 0x8000_0000 <= u64::MAX) by (nonlinear_arith)
        requires
            n <= 0xffff_ffff,
    ;
    lemma_two_tasks_stay_together(a, 2, b, 4, n);
}

/// A turn of the dispatch loop and the yield of the task it dispatched are
/// one round of the ready queue: the head travels the stride of its
/// priority and comes back into the queue.
pub proof fn lemma_dispatch_then_yield_is_a_round(v: KernelView, now: usize)
    requires
        v.wf(),
        v.current is None,
        v.ready.len() > 0,
    ensures
        v.spec_run_tasks(now).spec_suspend().ready == spec_round(v.ready, v.tasks[v.ready[0].pid].prio),
        v.spec_run_tasks(now).spec_suspend().current is None,
{
    lemma_head(v);
}

} // verus!
