//! The deadline timer service: a software multiplexer that serves an
//! arbitrary number of concurrently outstanding deadlines with the single
//! hardware alarm comparator, reprogramming it to the nearest future
//! deadline on every registration and on every firing.

use vstd::prelude::*;
use crate::executor::{queue_contents, wake_task, ReadyQueue};
use crate::{Fatal, MAX_DEADLINES, QUEUE_CAPACITY};

verus! {

/// The fixed-capacity unordered collection of outstanding
/// (absolute deadline, task identity) pairs.
#[verifier::external_body]
pub struct DeadlinePool {
    entries: heapless::Vec<(u64, usize), 8>,
}

/// The (absolute deadline, task identity) pairs the pool holds, in
/// insertion order.
pub uninterp spec fn pool_entries(p: DeadlinePool) -> Seq<(u64, usize)>;

impl DeadlinePool {
    /// Relies on `heapless::Vec::new`: an empty vector of capacity 8.
    #[verifier::external_body]
    pub fn new() -> (r: DeadlinePool)
        ensures
            pool_entries(r) == Seq::<(u64, usize)>::empty(),
    {
        DeadlinePool { entries: heapless::Vec::new() }
    }

    /// Relies on the slice `len` reached through `heapless::Vec`'s
    /// `Deref`: the number of entries held.
    #[verifier::external_body]
    pub fn len(&self) -> (r: usize)
        ensures
            r == pool_entries(*self).len(),
    {
        self.entries.len()
    }

    /// Relies on slice indexing reached through `heapless::Vec`'s
    /// `Deref`: the entry at position `i`.
    #[verifier::external_body]
    pub fn get(&self, i: usize) -> (r: (u64, usize))
        requires
            i < pool_entries(*self).len(),
        ensures
            r == pool_entries(*self)[i as int],
    {
        self.entries[i]
    }

    /// Relies on `heapless::Vec::push`: appends the entry at the back, or
    /// hands it back exactly when the vector already holds 8 entries.
    #[verifier::external_body]
    pub(crate) fn push(&mut self, deadline: u64, task_id: usize) -> (r: Result<(), ()>)
        ensures
            pool_entries(*old(self)).len() < MAX_DEADLINES ==> r is Ok
                && pool_entries(*final(self)) == pool_entries(*old(self)).push(
                (deadline, task_id),
            ),
            pool_entries(*old(self)).len() >= MAX_DEADLINES ==> r is Err
                && pool_entries(*final(self)) == pool_entries(*old(self)),
    {
        match self.entries.push((deadline, task_id)) {
            Ok(()) => Ok(()),
            Err(_) => Err(()),
        }
    }

    /// Relies on `heapless::Vec::remove`: removes the entry at position
    /// `i`, shifting the later entries down one place, keeping their order.
    #[verifier::external_body]
    pub(crate) fn remove(&mut self, i: usize) -> (r: (u64, usize))
        requires
            i < pool_entries(*self).len(),
        ensures
            r == pool_entries(*old(self))[i as int],
            pool_entries(*final(self)) == pool_entries(*old(self)).remove(i as int),
    {
        self.entries.remove(i)
    }
}

/// The entries of `s` that are due at time `now`: a pass resumes their
/// tasks and removes them.
pub open spec fn due_entries(s: Seq<(u64, usize)>, now: u64) -> Seq<(u64, usize)> {
    s.filter(|e: (u64, usize)| e.0 <= now)
}

/// The entries of `s` still strictly in the future at time `now`: a pass
/// keeps them, in order.
pub open spec fn live_entries(s: Seq<(u64, usize)>, now: u64) -> Seq<(u64, usize)> {
    s.filter(|e: (u64, usize)| e.0 > now)
}

/// The tasks a pass at time `now` resumes, in pool order.
pub open spec fn woken_tasks(s: Seq<(u64, usize)>, now: u64) -> Seq<usize> {
    due_entries(s, now).map_values(|e: (u64, usize)| e.1)
}

/// The earliest deadline among the entries of `s`.
pub open spec fn min_deadline(s: Seq<(u64, usize)>) -> u64
    recommends
        s.len() > 0,
    decreases s.len(),
{
    if s.len() <= 1 {
        s[0].0
    } else {
        let m = min_deadline(s.drop_last());
        if s.last().0 < m {
            s.last().0
        } else {
            m
        }
    }
}

/// Does the ready queue, currently holding `queue_len` entries, have room
/// for every task a pass over `s` at time `now` resumes?
pub open spec fn wakes_fit(s: Seq<(u64, usize)>, now: u64, queue_len: nat) -> bool {
    queue_len + woken_tasks(s, now).len() <= QUEUE_CAPACITY
}

/// Does the gap from `now` to the nearest surviving deadline fit the
/// hardware alarm's duration register?
pub open spec fn gap_fits(s: Seq<(u64, usize)>, now: u64) -> bool {
    live_entries(s, now).len() == 0 || min_deadline(live_entries(s, now)) - now <= u32::MAX
}

/// What the single hardware alarm must be brought to after a pass:
/// disabled when no deadline is outstanding, else programmed to fire the
/// given number of ticks after the pass's `now` — the gap to the nearest
/// outstanding deadline.
#[derive(Clone, Copy, Debug, PartialEq, Eq, Structural)]
pub enum AlarmSetting {
    /// No deadline is outstanding; the alarm stays disabled.
    Disabled,
    /// Program the comparator this many ticks past the pass's `now` and
    /// enable its interrupt.
    FireIn(u32),
}

/// The alarm setting a pass over `s` at time `now` reports.
pub open spec fn pass_setting(s: Seq<(u64, usize)>, now: u64) -> AlarmSetting {
    if live_entries(s, now).len() == 0 {
        AlarmSetting::Disabled
    } else {
        AlarmSetting::FireIn((min_deadline(live_entries(s, now)) - now) as u32)
    }
}

/// The deadline timer service's state: the pool of outstanding deadlines.
pub struct TimerService {
    /// The outstanding (deadline, task) pairs.
    pub deadlines: DeadlinePool,
}

impl TimerService {
    /// The outstanding entries, in insertion order.
    pub open spec fn entries(self) -> Seq<(u64, usize)> {
        pool_entries(self.deadlines)
    }

    /// A service with no outstanding deadline.
    pub fn new() -> (s: TimerService)
        ensures
            s.entries() == Seq::<(u64, usize)>::empty(),
    {
        TimerService { deadlines: DeadlinePool::new() }
    }

    /// One reprogramming pass at time `now`, run on every registration
    /// and on every alarm firing: resume and remove every entry whose
    /// deadline has arrived, then report what the hardware alarm must be
    /// brought to — the gap to the minimum remaining deadline, or
    /// disabled if none remains. An unrepresentable gap and a ready queue
    /// with no room for a resumption are both fatal.
    fn reprogram(&mut self, now: u64, queue: &mut ReadyQueue) -> (r: Result<AlarmSetting, Fatal>)
        ensures
            wakes_fit(old(self).entries(), now, queue_contents(*old(queue)).len())
                && gap_fits(old(self).entries(), now) ==> r is Ok,
            match r {
                Ok(setting) => setting == pass_setting(old(self).entries(), now)
                    && gap_fits(old(self).entries(), now)
                    && (woken_tasks(old(self).entries(), now).len() > 0 ==> wakes_fit(
                        old(self).entries(),
                        now,
                        queue_contents(*old(queue)).len(),
                    ))
                    && final(self).entries() == live_entries(old(self).entries(), now)
                    && queue_contents(*final(queue)) == queue_contents(*old(queue))
                        + woken_tasks(old(self).entries(), now),
                Err(e) => match e {
                    Fatal::ReadyQueueFull => !wakes_fit(
                        old(self).entries(),
                        now,
                        queue_contents(*old(queue)).len(),
                    ) && queue_contents(*final(queue)).len() >= QUEUE_CAPACITY,
                    Fatal::AlarmTooFar => !gap_fits(old(self).entries(), now)
                        && final(self).entries() == live_entries(old(self).entries(), now)
                        && queue_contents(*final(queue)) == queue_contents(*old(queue))
                            + woken_tasks(old(self).entries(), now),
                    _ => false,
                },
            },
    {
        let ghost s0 = self.entries();
        let ghost q0 = queue_contents(*queue);
        let mut i: usize = 0;
        let ghost mut kk: int = 0;
        proof {
            assert(s0.take(0) =~= Seq::<(u64, usize)>::empty());
            assert(s0.skip(0) =~= s0);
            assert(due_entries(s0.take(0), now) =~= Seq::<(u64, usize)>::empty());
            assert(live_entries(s0.take(0), now) =~= Seq::<(u64, usize)>::empty());
            assert(woken_tasks(s0.take(0), now) =~= Seq::<usize>::empty());
            assert(self.entries() =~= live_entries(s0.take(0), now) + s0.skip(0));
            assert(queue_contents(*queue) =~= q0 + woken_tasks(s0.take(0), now));
        }
        loop
            invariant
                s0 == old(self).entries(),
                q0 == queue_contents(*old(queue)),
                0 <= kk <= s0.len(),
                self.entries() == live_entries(s0.take(kk), now) + s0.skip(kk),
                i == live_entries(s0.take(kk), now).len(),
                queue_contents(*queue) == q0 + woken_tasks(s0.take(kk), now),
                woken_tasks(s0.take(kk), now).len() > 0 ==> q0.len() + woken_tasks(
                    s0.take(kk),
                    now,
                ).len() <= QUEUE_CAPACITY,
            ensures
                self.entries() == live_entries(s0, now),
                queue_contents(*queue) == q0 + woken_tasks(s0, now),
                woken_tasks(s0, now).len() > 0 ==> q0.len() + woken_tasks(s0, now).len()
                    <= QUEUE_CAPACITY,
            decreases s0.len() - kk,
        {
            let n: usize = self.deadlines.len();
            if i >= n {
                proof {
                    assert(s0.skip(kk).len() == 0);
                    assert(kk == s0.len());
                    assert(s0.take(kk) =~= s0);
                }
                break ;
            }
            proof {
                assert(s0.skip(kk).len() > 0);
                assert(self.entries()[i as int] == s0.skip(kk)[0]);
                assert(s0.skip(kk)[0] == s0[kk]);
            }
            let entry: (u64, usize) = self.deadlines.get(i);
            proof {
                lemma_take_one_more(s0, kk);
            }
            if entry.0 <= now {
                let removed: (u64, usize) = self.deadlines.remove(i);
                proof {
                    lemma_filter_split_take(s0, now, kk);
                    assert(pool_entries(self.deadlines) =~= live_entries(s0.take(kk + 1), now)
                        + s0.skip(kk + 1));
                }
                match wake_task(queue, removed.1) {
                    Ok(()) => {},
                    Err(e) => {
                        proof {
                            lemma_woken_take_len(s0, now, kk + 1);
                        }
                        return Err(e);
                    },
                }
                proof {
                    assert(queue_contents(*queue) =~= q0 + woken_tasks(s0.take(kk + 1), now));
                    kk = kk + 1;
                }
            } else {
                proof {
                    lemma_filter_split_take(s0, now, kk);
                    assert(live_entries(s0.take(kk + 1), now) =~= live_entries(
                        s0.take(kk),
                        now,
                    ).push(s0[kk]));
                    assert(self.entries() =~= live_entries(s0.take(kk + 1), now) + s0.skip(
                        kk + 1,
                    ));
                    kk = kk + 1;
                }
                i = i + 1;
            }
        }
        let n: usize = self.deadlines.len();
        if n == 0 {
            return Ok(AlarmSetting::Disabled);
        }
        let live = Ghost(live_entries(s0, now));
        let first: (u64, usize) = self.deadlines.get(0);
        let mut m: u64 = first.0;
        let mut j: usize = 1;
        proof {
            assert(live@.take(1) =~= seq![live@[0]]);
            assert(min_deadline(live@.take(1)) == live@[0].0);
        }
        while j < n
            invariant
                s0 == old(self).entries(),
                q0 == queue_contents(*old(queue)),
                1 <= j <= n,
                n == live@.len(),
                self.entries() == live@,
                live@ == live_entries(s0, now),
                queue_contents(*queue) == q0 + woken_tasks(s0, now),
                m == min_deadline(live@.take(j as int)),
            decreases n - j,
        {
            let e: (u64, usize) = self.deadlines.get(j);
            proof {
                assert(live@.take(j + 1).drop_last() =~= live@.take(j as int));
                assert(live@.take(j + 1).last() == live@[j as int]);
            }
            if e.0 < m {
                m = e.0;
            }
            j = j + 1;
        }
        proof {
            assert(live@.take(n as int) =~= live@);
            lemma_min_deadline_above(live@, now);
        }
        let gap: u64 = m - now;
        if gap > u32::MAX as u64 {
            return Err(Fatal::AlarmTooFar);
        }
        Ok(AlarmSetting::FireIn(gap as u32))
    }

    /// Register a new absolute deadline for `task_id`, then run the
    /// reprogramming pass at time `now`. Exceeding the fixed entry pool
    /// is fatal at registration time; a deadline already at or before
    /// `now` is completed by the pass immediately.
    pub fn register(&mut self, deadline: u64, task_id: usize, now: u64, queue: &mut ReadyQueue)
        -> (r: Result<AlarmSetting, Fatal>)
        ensures
            old(self).entries().len() < MAX_DEADLINES && wakes_fit(
                old(self).entries().push((deadline, task_id)),
                now,
                queue_contents(*old(queue)).len(),
            ) && gap_fits(old(self).entries().push((deadline, task_id)), now) ==> r is Ok,
            match r {
                Ok(setting) => {
                    let s1 = old(self).entries().push((deadline, task_id));
                    setting == pass_setting(s1, now) && old(self).entries().len() < MAX_DEADLINES
                        && gap_fits(s1, now)
                        && (woken_tasks(s1, now).len() > 0 ==> wakes_fit(
                        s1,
                        now,
                        queue_contents(*old(queue)).len(),
                    )) && final(self).entries() == live_entries(
                        s1,
                        now,
                    ) && queue_contents(*final(queue)) == queue_contents(*old(queue))
                        + woken_tasks(s1, now)
                },
                Err(e) => match e {
                    Fatal::TooManyDeadlines => old(self).entries().len() >= MAX_DEADLINES
                        && final(self).entries() == old(self).entries()
                        && queue_contents(*final(queue)) == queue_contents(*old(queue)),
                    Fatal::ReadyQueueFull => old(self).entries().len() < MAX_DEADLINES
                        && !wakes_fit(
                        old(self).entries().push((deadline, task_id)),
                        now,
                        queue_contents(*old(queue)).len(),
                    ) && queue_contents(*final(queue)).len() >= QUEUE_CAPACITY,
                    Fatal::AlarmTooFar => {
                        let s1 = old(self).entries().push((deadline, task_id));
                        old(self).entries().len() < MAX_DEADLINES && !gap_fits(s1, now)
                            && final(self).entries() == live_entries(s1, now)
                            && queue_contents(*final(queue)) == queue_contents(*old(queue))
                                + woken_tasks(s1, now)
                    },
                    _ => false,
                },
            },
    {
        match self.deadlines.push(deadline, task_id) {
            Ok(()) => {},
            Err(()) => {
                return Err(Fatal::TooManyDeadlines);
            },
        }
        self.reprogram(now, queue)
    }

    /// The decision half of the alarm interrupt handler, run at every
    /// firing: complete everything due, reprogram for the minimum of what
    /// remains. The scan-on-every-firing discipline means deadlines never
    /// outlive their removal even when several become due at once, and an
    /// early firing is safe — the pass finds nothing due and reprograms
    /// for the true minimum.
    pub fn service_alarm_interrupt(&mut self, now: u64, queue: &mut ReadyQueue) -> (r: Result<
        AlarmSetting,
        Fatal,
    >)
        ensures
            wakes_fit(old(self).entries(), now, queue_contents(*old(queue)).len())
                && gap_fits(old(self).entries(), now) ==> r is Ok,
            match r {
                Ok(setting) => setting == pass_setting(old(self).entries(), now)
                    && gap_fits(old(self).entries(), now)
                    && (woken_tasks(old(self).entries(), now).len() > 0 ==> wakes_fit(
                        old(self).entries(),
                        now,
                        queue_contents(*old(queue)).len(),
                    ))
                    && final(self).entries() == live_entries(old(self).entries(), now)
                    && queue_contents(*final(queue)) == queue_contents(*old(queue))
                        + woken_tasks(old(self).entries(), now),
                Err(e) => match e {
                    Fatal::ReadyQueueFull => !wakes_fit(
                        old(self).entries(),
                        now,
                        queue_contents(*old(queue)).len(),
                    ) && queue_contents(*final(queue)).len() >= QUEUE_CAPACITY,
                    Fatal::AlarmTooFar => !gap_fits(old(self).entries(), now)
                        && final(self).entries() == live_entries(old(self).entries(), now)
                        && queue_contents(*final(queue)) == queue_contents(*old(queue))
                            + woken_tasks(old(self).entries(), now),
                    _ => false,
                },
            },
    {
        self.reprogram(now, queue)
    }
}

/// Taking one more element appends exactly that element.
proof fn lemma_take_one_more(s: Seq<(u64, usize)>, k: int)
    requires
        0 <= k < s.len(),
    ensures
        s.take(k + 1) == s.take(k).push(s[k]),
        s.skip(k).drop_first() == s.skip(k + 1),
{
    assert(s.take(k + 1) =~= s.take(k).push(s[k]));
    assert(s.skip(k).drop_first() =~= s.skip(k + 1));
}

/// How one more processed entry extends the due and live splits of a
/// prefix, and how removing a due entry at the split point reshapes the
/// pool.
proof fn lemma_filter_split_take(s: Seq<(u64, usize)>, now: u64, k: int)
    requires
        0 <= k < s.len(),
    ensures
        s[k].0 <= now ==> due_entries(s.take(k + 1), now) == due_entries(s.take(k), now).push(s[k])
            && live_entries(s.take(k + 1), now) == live_entries(s.take(k), now)
            && woken_tasks(s.take(k + 1), now) == woken_tasks(s.take(k), now).push(s[k].1)
            && (live_entries(s.take(k), now) + s.skip(k)).remove(
            live_entries(s.take(k), now).len() as int,
        ) == live_entries(s.take(k + 1), now) + s.skip(k + 1),
        s[k].0 > now ==> due_entries(s.take(k + 1), now) == due_entries(s.take(k), now)
            && live_entries(s.take(k + 1), now) == live_entries(s.take(k), now).push(s[k])
            && woken_tasks(s.take(k + 1), now) == woken_tasks(s.take(k), now),
{
    lemma_take_one_more(s, k);
    let due_pred = |e: (u64, usize)| e.0 <= now;
    let live_pred = |e: (u64, usize)| e.0 > now;
    lemma_filter_push_pair(s.take(k), due_pred, s[k]);
    lemma_filter_push_pair(s.take(k), live_pred, s[k]);
    if s[k].0 <= now {
        assert(woken_tasks(s.take(k + 1), now) =~= woken_tasks(s.take(k), now).push(s[k].1));
        let a = live_entries(s.take(k), now);
        assert((a + s.skip(k)).remove(a.len() as int) =~= a + s.skip(k + 1));
    } else {
        assert(woken_tasks(s.take(k + 1), now) =~= woken_tasks(s.take(k), now));
    }
}

/// Appending one element to a sequence of entries extends its filtered
/// form by that element exactly when the element satisfies the predicate.
proof fn lemma_filter_push_pair(q: Seq<(u64, usize)>, pred: spec_fn((u64, usize)) -> bool, x: (u64, usize))
    ensures
        q.push(x).filter(pred) == (if pred(x) {
            q.filter(pred).push(x)
        } else {
            q.filter(pred)
        }),
{
    reveal(Seq::filter);
    assert(q.push(x).drop_last() =~= q);
    assert(q.push(x).last() == x);
}

/// The tasks woken for a processed prefix are never more than the whole
/// pass wakes.
proof fn lemma_woken_take_len(s: Seq<(u64, usize)>, now: u64, k: int)
    requires
        0 <= k <= s.len(),
    ensures
        woken_tasks(s.take(k), now).len() <= woken_tasks(s, now).len(),
{
    let due_pred = |e: (u64, usize)| e.0 <= now;
    assert(s =~= s.take(k) + s.skip(k));
    Seq::filter_distributes_over_add(s.take(k), s.skip(k), due_pred);
}

/// Every deadline of a surviving pool lies strictly after the pass's
/// `now`, so in particular the minimum does.
proof fn lemma_min_deadline_above(s: Seq<(u64, usize)>, now: u64)
    requires
        s.len() > 0,
        forall|i: int| 0 <= i < s.len() ==> #[trigger] s[i].0 > now,
    ensures
        min_deadline(s) > now,
    decreases s.len(),
{
    if s.len() > 1 {
        lemma_min_deadline_above(s.drop_last(), now);
    }
}

/// Law: the minimum outstanding deadline is at or before every
/// outstanding deadline — the alarm, programmed to the minimum, never
/// fires after any of them (earliness merely costs a spurious re-check).
pub proof fn lemma_min_deadline_is_min(s: Seq<(u64, usize)>, i: int)
    requires
        0 <= i < s.len(),
    ensures
        min_deadline(s) <= s[i].0,
        exists|j: int| 0 <= j < s.len() && s[j].0 == min_deadline(s),
    decreases s.len(),
{
    if s.len() > 1 {
        if i < s.len() - 1 {
            lemma_min_deadline_is_min(s.drop_last(), i);
        } else {
            lemma_min_deadline_is_min(s.drop_last(), 0);
        }
        let j = choose|j: int| 0 <= j < s.drop_last().len() && s.drop_last()[j].0 == min_deadline(
            s.drop_last(),
        );
        if s.last().0 < min_deadline(s.drop_last()) {
            assert(s[s.len() - 1].0 == min_deadline(s));
        } else {
            assert(s[j].0 == min_deadline(s));
        }
    }
}

/// Law: a pass at time `t` resumes exactly the entries whose deadline
/// has arrived — an entry due at `t` is woken, an entry still in the
/// future survives untouched, so deadlines complete in deadline order.
pub proof fn lemma_fire_in_deadline_order(s: Seq<(u64, usize)>, t: u64, i: int, j: int)
    requires
        0 <= i < s.len(),
        0 <= j < s.len(),
        s[i].0 <= t,
        t < s[j].0,
    ensures
        woken_tasks(s, t).contains(s[i].1),
        live_entries(s, t).contains(s[j]),
        !due_entries(s, t).contains(s[j]),
{
    let due_pred = |e: (u64, usize)| e.0 <= t;
    let live_pred = |e: (u64, usize)| e.0 > t;
    Seq::lemma_filter_contains(s, due_pred, i);
    Seq::lemma_filter_contains(s, live_pred, j);
    let due = due_entries(s, t);
    let idx = choose|idx: int| 0 <= idx < due.len() && due[idx] == s[i];
    assert(woken_tasks(s, t)[idx] == s[i].1);
    assert(woken_tasks(s, t).contains(s[i].1));
    assert forall|idx2: int| 0 <= idx2 < due.len() implies due[idx2] != s[j] by {
        Seq::lemma_filter_pred(s, due_pred, idx2);
    }
}

/// The per-call state of one delay: whether its deadline has been
/// registered with the service yet.
#[derive(Clone, Copy, Debug, PartialEq, Eq, Structural)]
pub enum TimerState {
    /// Not yet registered; the first resumption registers it.
    Init,
    /// Registered; the alarm interrupt resumes the task when due.
    Wait,
}

/// The outcome of one resumption of a task waiting on a delay.
#[derive(Clone, Copy, Debug, PartialEq, Eq, Structural)]
pub enum TimerPoll {
    /// The deadline has arrived; the wait is over.
    Ready,
    /// First resumption: the deadline is now registered and the hardware
    /// alarm must be brought to the returned setting.
    Registered(AlarmSetting),
    /// Still waiting; no state changed.
    StillWaiting,
}

/// One outstanding delay: a two-state machine suspending its task until
/// at least its absolute end time.
pub struct Timer {
    /// Absolute monotonic time at which the delay elapses.
    pub end_time: u64,
    /// Where the state machine stands.
    pub state: TimerState,
}

impl Timer {
    /// Start a delay of `duration` ticks from the current time `now`.
    pub fn new(now: u64, duration: u64) -> (t: Timer)
        requires
            now + duration <= u64::MAX,
        ensures
            t.end_time == now + duration,
            t.state == TimerState::Init,
    {
        Timer { end_time: now + duration, state: TimerState::Init }
    }

    /// One resumption of the delaying task at time `now`. On the first,
    /// the deadline is registered and the alarm reprogrammed; afterwards
    /// the current time is compared against the stored deadline —
    /// complete if reached, else remain suspended (the alarm interrupt
    /// resumes the task; no re-registration is needed).
    pub fn poll(
        &mut self,
        service: &mut TimerService,
        queue: &mut ReadyQueue,
        now: u64,
        task_id: usize,
    ) -> (r: Result<TimerPoll, Fatal>)
        ensures
            final(self).end_time == old(self).end_time,
            old(self).state is Wait ==> *final(self) == *old(self) && *final(service) == *old(
                service,
            ) && *final(queue) == *old(queue) && r == Result::<TimerPoll, Fatal>::Ok(
                if now >= old(self).end_time {
                    TimerPoll::Ready
                } else {
                    TimerPoll::StillWaiting
                },
            ),
            old(self).state is Init ==> {
                let s1 = old(service).entries().push((old(self).end_time, task_id));
                match r {
                    Ok(p) => p == TimerPoll::Registered(pass_setting(s1, now))
                        && old(service).entries().len() < MAX_DEADLINES && gap_fits(s1, now)
                        && (woken_tasks(s1, now).len() > 0 ==> wakes_fit(
                        s1,
                        now,
                        queue_contents(*old(queue)).len(),
                    )) && final(self).state is Wait && final(service).entries() == live_entries(
                        s1,
                        now,
                    ) && queue_contents(*final(queue)) == queue_contents(*old(queue))
                        + woken_tasks(s1, now),
                    Err(e) => final(self).state is Init && match e {
                        Fatal::TooManyDeadlines => old(service).entries().len() >= MAX_DEADLINES
                            && final(service).entries() == old(service).entries()
                            && queue_contents(*final(queue)) == queue_contents(*old(queue)),
                        Fatal::ReadyQueueFull => old(service).entries().len() < MAX_DEADLINES
                            && !wakes_fit(s1, now, queue_contents(*old(queue)).len())
                            && queue_contents(*final(queue)).len() >= QUEUE_CAPACITY,
                        Fatal::AlarmTooFar => old(service).entries().len() < MAX_DEADLINES
                            && !gap_fits(s1, now) && final(service).entries() == live_entries(
                            s1,
                            now,
                        ) && queue_contents(*final(queue)) == queue_contents(*old(queue))
                            + woken_tasks(s1, now),
                        _ => false,
                    },
                }
            },
            old(self).state is Init && old(service).entries().len() < MAX_DEADLINES && wakes_fit(
                old(service).entries().push((old(self).end_time, task_id)),
                now,
                queue_contents(*old(queue)).len(),
            ) && gap_fits(old(service).entries().push((old(self).end_time, task_id)), now)
                ==> r is Ok,
    {
        match self.state {
            TimerState::Init => {
                match service.register(self.end_time, task_id, now, queue) {
                    Ok(setting) => {
                        self.state = TimerState::Wait;
                        Ok(TimerPoll::Registered(setting))
                    },
                    Err(e) => Err(e),
                }
            },
            TimerState::Wait => {
                if now >= self.end_time {
                    Ok(TimerPoll::Ready)
                } else {
                    Ok(TimerPoll::StillWaiting)
                }
            },
        }
    }
}

} // verus!
