use proc_core::config::BIG_STRIDE;
use proc_core::task::{add_task, current_task, fetch_task, take_current_task, Pass, Processor, TaskManager};

#[test]
fn an_empty_queue_gives_nothing() {
    let mut manager = TaskManager::new();
    assert_eq!(manager.len(), 0);
    assert_eq!(manager.fetch(), None);
    assert_eq!(manager.len(), 0);
}

#[test]
fn the_smallest_pass_runs_first() {
    let mut manager = TaskManager::new();
    manager.add(1, 30);
    manager.add(2, 10);
    manager.add(3, 20);
    assert_eq!(manager.len(), 3);
    assert_eq!(manager.fetch(), Some(2));
    assert_eq!(manager.fetch(), Some(3));
    assert_eq!(manager.fetch(), Some(1));
    assert_eq!(manager.fetch(), None);
}

#[test]
fn equal_passes_run_in_the_order_they_came() {
    let mut manager = TaskManager::new();
    manager.add(5, 7);
    manager.add(3, 7);
    manager.add(9, 7);
    manager.add(1, 6);
    manager.add(4, 7);
    assert_eq!(manager.fetch(), Some(1));
    assert_eq!(manager.fetch(), Some(5));
    assert_eq!(manager.fetch(), Some(3));
    assert_eq!(manager.fetch(), Some(9));
    assert_eq!(manager.fetch(), Some(4));
}

#[test]
fn the_queue_orders_the_ends_of_the_range() {
    let mut manager = TaskManager::new();
    manager.add(1, u64::MAX);
    manager.add(2, 0);
    manager.add(3, u64::MAX);
    manager.add(4, u64::MAX - 1);
    assert_eq!(manager.fetch(), Some(2));
    assert_eq!(manager.fetch(), Some(4));
    assert_eq!(manager.fetch(), Some(1));
    assert_eq!(manager.fetch(), Some(3));
}

#[test]
fn the_free_functions_act_on_the_queue() {
    let mut manager = TaskManager::new();
    add_task(&mut manager, 8, 2);
    add_task(&mut manager, 6, 1);
    assert_eq!(fetch_task(&mut manager), Some(6));
    assert_eq!(fetch_task(&mut manager), Some(8));
    assert_eq!(fetch_task(&mut manager), None);
}

#[test]
fn a_stride_is_the_big_stride_over_the_priority() {
    assert_eq!(BIG_STRIDE, 0x1_0000_0000);
    let mut pass = Pass(0);
    pass.stride(2);
    assert_eq!(pass, Pass(0x8000_0000));
    pass.stride(4);
    assert_eq!(pass, Pass(0xc000_0000));
    pass.stride(16);
    assert_eq!(pass, Pass(0xd000_0000));
    let mut pass = Pass(5);
    pass.stride(3);
    assert_eq!(pass, Pass(5 + 1_431_655_765));
    let mut pass = Pass(5);
    pass.stride(u64::MAX);
    assert_eq!(pass, Pass(5));
    let mut pass = Pass(1);
    pass.stride(BIG_STRIDE);
    assert_eq!(pass, Pass(2));
}

#[test]
fn a_pass_stops_at_the_largest_value() {
    let mut pass = Pass(u64::MAX - 10);
    pass.stride(2);
    assert_eq!(pass, Pass(u64::MAX));
    pass.stride(2);
    assert_eq!(pass, Pass(u64::MAX));
    let mut pass = Pass(u64::MAX - 0x8000_0000);
    pass.stride(2);
    assert_eq!(pass, Pass(u64::MAX));
    let mut pass = Pass(u64::MAX - 0x8000_0001);
    pass.stride(2);
    assert_eq!(pass, Pass(u64::MAX - 1));
}

fn count_dispatches(prio_a: u64, prio_b: u64, rounds: usize) -> (usize, usize, u64, u64) {
    let mut manager = TaskManager::new();
    let mut passes = [Pass(0), Pass(0)];
    let prios = [prio_a, prio_b];
    let mut counts = [0usize, 0usize];
    manager.add(0, 0);
    manager.add(1, 0);
    for _ in 0..rounds {
        let pid = manager.fetch().unwrap();
        counts[pid] += 1;
        passes[pid].stride(prios[pid]);
        manager.add(pid, passes[pid].0);
    }
    (counts[0], counts[1], passes[0].0, passes[1].0)
}

#[test]
fn priority_four_runs_twice_as_often_as_priority_two() {
    let (low, high, _, _) = count_dispatches(2, 4, 3000);
    assert_eq!(low + high, 3000);
    assert_eq!(low, 1000);
    assert_eq!(high, 2000);
    // whichever of the two stands first, and however long they run
    for rounds in 0..200 {
        let (low, high, _, _) = count_dispatches(2, 4, rounds);
        assert_eq!(low + high, rounds);
        assert!(high + 2 >= 2 * low && high <= 2 * low + 2);
        if rounds >= 9 {
            assert!(high > low);
        }
        let (high, low, _, _) = count_dispatches(4, 2, rounds);
        assert_eq!(low + high, rounds);
        assert!(high + 2 >= 2 * low && high <= 2 * low + 2);
    }
}

#[test]
fn the_first_rounds_of_two_and_four() {
    assert_eq!(count_dispatches(2, 4, 0), (0, 0, 0, 0));
    assert_eq!(count_dispatches(2, 4, 1), (1, 0, 0x8000_0000, 0));
    assert_eq!(count_dispatches(2, 4, 2), (1, 1, 0x8000_0000, 0x4000_0000));
    assert_eq!(count_dispatches(2, 4, 3), (1, 2, 0x8000_0000, 0x8000_0000));
    assert_eq!(count_dispatches(2, 4, 4), (2, 2, 0x1_0000_0000, 0x8000_0000));
    assert_eq!(count_dispatches(2, 4, 5), (2, 3, 0x1_0000_0000, 0xc000_0000));
    assert_eq!(count_dispatches(2, 4, 6), (2, 4, 0x1_0000_0000, 0x1_0000_0000));
}

#[test]
fn two_tasks_are_never_further_apart_than_one_stride() {
    for (prio_a, prio_b) in [(2u64, 2u64), (2, 3), (3, 7), (16, 16), (2, 1000), (100, 5)] {
        let larger = std::cmp::max(BIG_STRIDE / prio_a, BIG_STRIDE / prio_b);
        for rounds in 0..120 {
            let (count_a, count_b, pass_a, pass_b) = count_dispatches(prio_a, prio_b, rounds);
            assert_eq!(count_a + count_b, rounds);
            assert_eq!(pass_a, count_a as u64 * (BIG_STRIDE / prio_a));
            assert_eq!(pass_b, count_b as u64 * (BIG_STRIDE / prio_b));
            assert!(pass_a.abs_diff(pass_b) <= larger);
        }
    }
}

#[test]
fn equal_priorities_take_turns() {
    let (count_a, count_b, _, _) = count_dispatches(16, 16, 101);
    assert_eq!(count_a, 51);
    assert_eq!(count_b, 50);
}

#[test]
fn the_processor_holds_one_task() {
    let mut processor = Processor::new();
    assert_eq!(processor.current(), None);
    assert_eq!(processor.take_current(), None);
    processor.install(4);
    assert_eq!(processor.current(), Some(4));
    assert_eq!(current_task(&processor), Some(4));
    assert_eq!(processor.current(), Some(4));
    assert_eq!(take_current_task(&mut processor), Some(4));
    assert_eq!(processor.current(), None);
    processor.install(2);
    processor.install(3);
    assert_eq!(processor.take_current(), Some(3));
    assert_eq!(processor.take_current(), None);
}
