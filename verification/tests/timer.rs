use coop_runtime::executor::{wake_task, Scheduler};
use coop_runtime::time::{AlarmSetting, Timer, TimerPoll, TimerService};
use coop_runtime::Fatal;

#[test]
fn distinct_deadlines_complete_in_time_order() {
    let mut sched = Scheduler::new(3).unwrap();
    while sched.next_ready().is_some() {}
    let mut svc = TimerService::new();
    // three delays issued at the same instant with distinct durations
    assert_eq!(svc.register(100, 0, 0, &mut sched.queue), Ok(AlarmSetting::FireIn(100)));
    assert_eq!(svc.register(200, 1, 0, &mut sched.queue), Ok(AlarmSetting::FireIn(100)));
    assert_eq!(svc.register(250, 2, 0, &mut sched.queue), Ok(AlarmSetting::FireIn(100)));
    // each firing completes exactly what is due and reprograms for the rest
    assert_eq!(svc.service_alarm_interrupt(100, &mut sched.queue), Ok(AlarmSetting::FireIn(100)));
    assert_eq!(sched.next_ready(), Some(0));
    assert_eq!(sched.next_ready(), None);
    assert_eq!(svc.service_alarm_interrupt(200, &mut sched.queue), Ok(AlarmSetting::FireIn(50)));
    assert_eq!(sched.next_ready(), Some(1));
    assert_eq!(sched.next_ready(), None);
    assert_eq!(svc.service_alarm_interrupt(250, &mut sched.queue), Ok(AlarmSetting::Disabled));
    assert_eq!(sched.next_ready(), Some(2));
    assert_eq!(sched.next_ready(), None);
}

#[test]
fn firing_that_completes_some_reprograms_to_min_of_rest() {
    let mut sched = Scheduler::new(3).unwrap();
    while sched.next_ready().is_some() {}
    let mut svc = TimerService::new();
    svc.register(100, 0, 0, &mut sched.queue).unwrap();
    svc.register(150, 1, 0, &mut sched.queue).unwrap();
    svc.register(400, 2, 0, &mut sched.queue).unwrap();
    // a late firing completes two of the three outstanding deadlines
    assert_eq!(svc.service_alarm_interrupt(160, &mut sched.queue), Ok(AlarmSetting::FireIn(240)));
    assert_eq!(sched.next_ready(), Some(0));
    assert_eq!(sched.next_ready(), Some(1));
    assert_eq!(sched.next_ready(), None);
    assert_eq!(svc.deadlines.len(), 1);
    assert_eq!(svc.deadlines.get(0), (400, 2));
    // completing the last one leaves the alarm disabled
    assert_eq!(svc.service_alarm_interrupt(400, &mut sched.queue), Ok(AlarmSetting::Disabled));
    assert_eq!(sched.next_ready(), Some(2));
    assert_eq!(svc.deadlines.len(), 0);
}

#[test]
fn early_firing_is_safe_and_reprograms_for_true_minimum() {
    let mut sched = Scheduler::new(1).unwrap();
    while sched.next_ready().is_some() {}
    let mut svc = TimerService::new();
    svc.register(100, 0, 0, &mut sched.queue).unwrap();
    // the alarm fires before anything is due: nothing completes, the
    // comparator is reprogrammed for the real minimum
    assert_eq!(svc.service_alarm_interrupt(50, &mut sched.queue), Ok(AlarmSetting::FireIn(50)));
    assert_eq!(sched.next_ready(), None);
    assert_eq!(svc.deadlines.len(), 1);
}

#[test]
fn deadline_already_due_completes_at_registration() {
    let mut sched = Scheduler::new(1).unwrap();
    while sched.next_ready().is_some() {}
    let mut svc = TimerService::new();
    assert_eq!(svc.register(5, 0, 10, &mut sched.queue), Ok(AlarmSetting::Disabled));
    assert_eq!(sched.next_ready(), Some(0));
    assert_eq!(svc.deadlines.len(), 0);
}

#[test]
fn ninth_outstanding_deadline_is_fatal() {
    let mut sched = Scheduler::new(0).unwrap();
    let mut svc = TimerService::new();
    let mut i: u64 = 0;
    while i < 8 {
        assert!(svc.register(1000 + i, i as usize, 0, &mut sched.queue).is_ok());
        i += 1;
    }
    assert_eq!(svc.register(5000, 0, 0, &mut sched.queue), Err(Fatal::TooManyDeadlines));
    assert_eq!(svc.deadlines.len(), 8);
}

#[test]
fn unrepresentable_alarm_gap_is_fatal() {
    let mut sched = Scheduler::new(0).unwrap();
    let mut svc = TimerService::new();
    let far: u64 = u32::MAX as u64 + 2;
    assert_eq!(svc.register(far, 0, 1, &mut sched.queue), Err(Fatal::AlarmTooFar));
    // the entry itself stays outstanding
    assert_eq!(svc.deadlines.len(), 1);
    assert_eq!(svc.deadlines.get(0), (far, 0));
}

#[test]
fn alarm_service_with_full_queue_is_fatal() {
    let mut sched = Scheduler::new(0).unwrap();
    let mut svc = TimerService::new();
    assert_eq!(svc.register(100, 0, 0, &mut sched.queue), Ok(AlarmSetting::FireIn(100)));
    // interrupts fill the whole queue before the alarm is serviced
    wake_task(&mut sched.queue, 0).unwrap();
    wake_task(&mut sched.queue, 0).unwrap();
    wake_task(&mut sched.queue, 0).unwrap();
    wake_task(&mut sched.queue, 0).unwrap();
    assert_eq!(svc.service_alarm_interrupt(100, &mut sched.queue), Err(Fatal::ReadyQueueFull));
}

#[test]
fn delay_registers_then_waits_then_completes() {
    let mut sched = Scheduler::new(1).unwrap();
    while sched.next_ready().is_some() {}
    let mut svc = TimerService::new();
    let mut t = Timer::new(0, 500);
    // first resumption registers the deadline and programs the alarm
    assert_eq!(
        t.poll(&mut svc, &mut sched.queue, 0, 0),
        Ok(TimerPoll::Registered(AlarmSetting::FireIn(500)))
    );
    // a resumption before the deadline leaves the task suspended
    assert_eq!(t.poll(&mut svc, &mut sched.queue, 499, 0), Ok(TimerPoll::StillWaiting));
    // the alarm fires: the handler resumes the task and disables the alarm
    assert_eq!(svc.service_alarm_interrupt(500, &mut sched.queue), Ok(AlarmSetting::Disabled));
    assert_eq!(sched.next_ready(), Some(0));
    assert_eq!(t.poll(&mut svc, &mut sched.queue, 500, 0), Ok(TimerPoll::Ready));
}
