use coop_runtime::executor::Scheduler;
use coop_runtime::gpio::{bit_offset, mask_for, PinLevel, PinSlots};
use coop_runtime::Fatal;

#[test]
fn edge_latch_bit_offsets() {
    assert_eq!(bit_offset(true), 2);
    assert_eq!(bit_offset(false), 3);
}

#[test]
fn edge_latch_masks_are_exact() {
    assert_eq!(mask_for(0, true), 0x4);
    assert_eq!(mask_for(0, false), 0x8);
    assert_eq!(mask_for(10, true), 0x400);
    assert_eq!(mask_for(10, false), 0x800);
    assert_eq!(mask_for(11, true), 0x4000);
    assert_eq!(mask_for(11, false), 0x8000);
    // the status register covers eight pins; groups repeat
    assert_eq!(mask_for(8, true), 0x4);
}

#[test]
fn third_pin_registration_is_fatal_and_leaves_pool_intact() {
    let mut slots = PinSlots::new();
    assert_eq!(slots.register(10), Ok(0));
    assert_eq!(slots.register(11), Ok(1));
    assert_eq!(slots.register(12), Err(Fatal::PinSlotsExhausted));
    assert_eq!(slots.gpio_pins, [10, 11]);
}

#[test]
fn wait_completes_at_once_when_level_already_matches() {
    let mut slots = PinSlots::new();
    slots.register(10).unwrap();
    let before = slots.wake_tasks;
    assert!(slots.wait_poll(0, PinLevel::Low, PinLevel::Low, 1));
    // no interest was registered: no dependency on an interrupt firing
    assert_eq!(slots.wake_tasks, before);
}

#[test]
fn qualifying_edge_wakes_registered_task_exactly_once() {
    let mut sched = Scheduler::new(3).unwrap();
    while sched.next_ready().is_some() {}
    let mut slots = PinSlots::new();
    slots.register(10).unwrap();
    slots.register(11).unwrap();
    assert!(!slots.wait_poll(0, PinLevel::High, PinLevel::Low, 2));
    // both edges of pin 10 latched, plus a bit of an unmanaged pin
    let ints1 = mask_for(10, true) | mask_for(10, false) | (1u32 << 31);
    let cleared = slots.service_edge_interrupt(ints1, &mut sched.queue).unwrap();
    // exactly pin 10's latch bits are cleared, never the unmanaged pin's
    assert_eq!(cleared, mask_for(10, true) | mask_for(10, false));
    assert_eq!(sched.next_ready(), Some(2));
    assert_eq!(sched.next_ready(), None);
    // single-shot: the same latch word wakes nothing until re-registered
    let cleared_again = slots.service_edge_interrupt(ints1, &mut sched.queue).unwrap();
    assert_eq!(cleared_again, mask_for(10, true) | mask_for(10, false));
    assert_eq!(sched.next_ready(), None);
}

#[test]
fn bounce_that_leaves_level_unmatched_keeps_task_suspended() {
    // after any edge the task re-checks the level; still not the desired
    // one, so it stays suspended and registers again
    let mut slots = PinSlots::new();
    slots.register(10).unwrap();
    assert!(!slots.wait_poll(0, PinLevel::High, PinLevel::Low, 1));
    assert!(!slots.wait_poll(0, PinLevel::High, PinLevel::Low, 1));
    assert_eq!(slots.wake_tasks[0], 1);
}

#[test]
fn edge_service_with_full_queue_is_fatal() {
    let mut sched = Scheduler::new(4).unwrap();
    let mut slots = PinSlots::new();
    slots.register(10).unwrap();
    assert!(!slots.wait_poll(0, PinLevel::High, PinLevel::Low, 1));
    let r = slots.service_edge_interrupt(mask_for(10, true), &mut sched.queue);
    assert_eq!(r, Err(Fatal::ReadyQueueFull));
}

#[test]
fn edge_on_unregistered_slot_clears_latch_but_wakes_nobody() {
    let mut sched = Scheduler::new(1).unwrap();
    while sched.next_ready().is_some() {}
    let mut slots = PinSlots::new();
    slots.register(10).unwrap();
    let cleared = slots.service_edge_interrupt(mask_for(10, false), &mut sched.queue).unwrap();
    assert_eq!(cleared, mask_for(10, false));
    assert_eq!(sched.next_ready(), None);
}
