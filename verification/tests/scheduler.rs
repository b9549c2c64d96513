use coop_runtime::executor::{get_waker, resolve_task_id, wake_task, ExtWaker, Scheduler};
use coop_runtime::Fatal;

#[test]
fn startup_resumes_every_task_before_halt() {
    let mut s = Scheduler::new(3).unwrap();
    assert_eq!(s.next_ready(), Some(0));
    assert_eq!(s.next_ready(), Some(1));
    assert_eq!(s.next_ready(), Some(2));
    assert_eq!(s.next_ready(), None);
}

#[test]
fn drain_is_fifo_and_reentrant_enqueue_runs_after_pass() {
    // 3 tasks, ready queue capacity 4: the startup pass resumes 0, 1, 2 in
    // that order; an interrupt during task 1's resumption enqueues task 0
    // again, which is resumed after the pass, before the core would halt.
    let mut s = Scheduler::new(3).unwrap();
    assert_eq!(s.next_ready(), Some(0));
    assert_eq!(s.next_ready(), Some(1));
    wake_task(&mut s.queue, 0).unwrap();
    assert_eq!(s.next_ready(), Some(2));
    assert_eq!(s.next_ready(), Some(0));
    assert_eq!(s.next_ready(), None);
}

#[test]
fn duplicate_enqueue_wastes_at_most_one_resumption() {
    let mut s = Scheduler::new(2).unwrap();
    wake_task(&mut s.queue, 1).unwrap();
    // task 1 sits in the queue twice: it is resumed twice, never skipped
    assert_eq!(s.next_ready(), Some(0));
    assert_eq!(s.next_ready(), Some(1));
    assert_eq!(s.next_ready(), Some(1));
    assert_eq!(s.next_ready(), None);
}

#[test]
fn ready_queue_overflow_is_fatal() {
    let mut s = Scheduler::new(4).unwrap();
    assert_eq!(wake_task(&mut s.queue, 0), Err(Fatal::ReadyQueueFull));
}

#[test]
fn out_of_range_entry_is_discarded_not_resumed() {
    let mut s = Scheduler::new(2).unwrap();
    wake_task(&mut s.queue, 9).unwrap();
    assert_eq!(s.next_ready(), Some(0));
    assert_eq!(s.next_ready(), Some(1));
    assert_eq!(s.next_ready(), None);
}

#[test]
fn startup_beyond_queue_capacity_is_fatal() {
    // more tasks than the ready queue can hold: one startup enqueue would
    // be dropped silently, so construction halts instead
    assert_eq!(Scheduler::new(6).err(), Some(Fatal::ReadyQueueFull));
    assert!(Scheduler::new(4).is_ok());
}

#[test]
fn registry_resolves_token_to_its_owner() {
    let t = get_waker(2);
    assert_eq!(resolve_task_id(&t, 3), Some(2));
    assert_eq!(resolve_task_id(&t, 2), None);
    assert_eq!(t.task_id(), 2);
}

#[test]
fn canonical_tokens_wake_only_their_own_task() {
    let t = get_waker(2);
    assert!(get_waker(2).will_wake(&t));
    assert!(!get_waker(1).will_wake(&t));
}
