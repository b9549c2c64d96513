//! The edge event source: a fixed pool of per-pin interest slots, the
//! poll decision of a task waiting for a pin level, and the decision
//! logic of the shared edge-interrupt handler that clears latch bits and
//! resumes the right task.

use vstd::prelude::*;
use crate::executor::{queue_contents, wake_task, ReadyQueue};
use crate::{Fatal, INVALID_GPIO, INVALID_TASK_ID, MAX_BUTTONS, QUEUE_CAPACITY};

verus! {

/// A logic level observed on an input pin.
#[derive(Clone, Copy, Debug, PartialEq, Eq, Structural)]
pub enum PinLevel {
    Low,
    High,
}

/// Bit offset of an edge-latch flag inside a pin's four-bit group of the
/// interrupt status register: the falling-edge latch sits at bit 2, the
/// rising-edge latch at bit 3.
pub open spec fn spec_bit_offset(edge_low: bool) -> usize {
    if edge_low { 2 } else { 3 }
}

/// See `spec_bit_offset`.
pub fn bit_offset(edge_low: bool) -> (r: usize)
    ensures
        r == spec_bit_offset(edge_low),
{
    if edge_low { 2 } else { 3 }
}

/// The single status-register bit that latches one edge direction of
/// `gpio` within its eight-pin register group.
pub open spec fn spec_mask_for(gpio: usize, edge_low: bool) -> u32 {
    1u32 << (((gpio % 8) * 4 + spec_bit_offset(edge_low)) as u32)
}

/// See `spec_mask_for`.
pub fn mask_for(gpio: usize, edge_low: bool) -> (r: u32)
    ensures
        r == spec_mask_for(gpio, edge_low),
{
    let group: usize = gpio % 8;
    let bit: usize = group * 4 + bit_offset(edge_low);
    1u32 << (bit as u32)
}

/// Both edge-latch bits of `gpio`: an interrupt status word intersected
/// with this tells whether the pin saw any edge since last cleared.
pub open spec fn spec_edge_mask(gpio: usize) -> u32 {
    spec_mask_for(gpio, true) | spec_mask_for(gpio, false)
}

/// The fixed pool of pin interest slots. Slot `i` manages the hardware
/// pin `gpio_pins[i]` (`INVALID_GPIO` = slot free) and holds at most one
/// pending task (`INVALID_TASK_ID` = no interest). Slots are taken at
/// registration time and never freed.
pub struct PinSlots {
    /// The waiting task of each slot, or `INVALID_TASK_ID`.
    pub wake_tasks: [usize; MAX_BUTTONS],
    /// The hardware pin each slot manages, or `INVALID_GPIO`.
    pub gpio_pins: [usize; MAX_BUTTONS],
}

impl PinSlots {
    /// Did the pin of slot `i` latch an edge in the status word `ints1`?
    pub open spec fn slot_hit(self, i: int, ints1: u32) -> bool {
        self.gpio_pins@[i] != INVALID_GPIO
            && ints1 & spec_edge_mask(self.gpio_pins@[i]) != 0
    }

    /// Does servicing `ints1` resume the task of slot `i`?
    pub open spec fn slot_wakes(self, i: int, ints1: u32) -> bool {
        self.slot_hit(i, ints1) && self.wake_tasks@[i] != INVALID_TASK_ID
    }

    /// The latch bits the handler clears for slot `i`: exactly the pin's
    /// own edge bits that are set in `ints1`, never another pin's.
    pub open spec fn slot_clear_mask(self, i: int, ints1: u32) -> u32 {
        if self.gpio_pins@[i] != INVALID_GPIO {
            ints1 & spec_edge_mask(self.gpio_pins@[i])
        } else {
            0
        }
    }

    /// Union of the latch bits cleared for the first `k` slots.
    pub open spec fn clear_union_prefix(self, ints1: u32, k: int) -> u32
        decreases k,
    {
        if k <= 0 {
            0
        } else {
            self.clear_union_prefix(ints1, k - 1) | self.slot_clear_mask(k - 1, ints1)
        }
    }

    /// All latch bits one service pass clears.
    pub open spec fn clear_union(self, ints1: u32) -> u32 {
        self.clear_union_prefix(ints1, MAX_BUTTONS as int)
    }

    /// The tasks the first `k` slots resume when `ints1` is serviced, in
    /// slot order.
    pub open spec fn woken_prefix(self, ints1: u32, k: int) -> Seq<usize>
        decreases k,
    {
        if k <= 0 {
            Seq::<usize>::empty()
        } else {
            self.woken_prefix(ints1, k - 1)
                + (if self.slot_wakes(k - 1, ints1) {
                    seq![self.wake_tasks@[k - 1]]
                } else {
                    Seq::<usize>::empty()
                })
        }
    }

    /// All tasks one service pass resumes, in slot order.
    pub open spec fn woken(self, ints1: u32) -> Seq<usize> {
        self.woken_prefix(ints1, MAX_BUTTONS as int)
    }

    /// The interest table after one service pass: every hit slot is back
    /// to "no interest" (single-shot), the rest keep their registration.
    pub open spec fn after_irq_tasks(self, ints1: u32) -> Seq<usize> {
        Seq::new(
            MAX_BUTTONS as nat,
            |j: int| if self.slot_hit(j, ints1) { INVALID_TASK_ID } else { self.wake_tasks@[j] },
        )
    }

    /// An empty pool: no slot manages a pin, no task waits.
    pub fn new() -> (s: PinSlots)
        ensures
            forall|j: int| 0 <= j < MAX_BUTTONS ==> s.wake_tasks@[j] == INVALID_TASK_ID,
            forall|j: int| 0 <= j < MAX_BUTTONS ==> s.gpio_pins@[j] == INVALID_GPIO,
    {
        PinSlots {
            wake_tasks: [INVALID_TASK_ID, INVALID_TASK_ID],
            gpio_pins: [INVALID_GPIO, INVALID_GPIO],
        }
    }

    /// Take the first free slot for hardware pin `gpio`. Exceeding the
    /// fixed pool is fatal at registration time; the slots already taken
    /// are unaffected by the failure.
    pub fn register(&mut self, gpio: usize) -> (r: Result<usize, Fatal>)
        requires
            gpio != INVALID_GPIO,
        ensures
            match r {
                Ok(i) => i < MAX_BUTTONS
                    && old(self).gpio_pins@[i as int] == INVALID_GPIO
                    && (forall|j: int| 0 <= j < i ==> old(self).gpio_pins@[j] != INVALID_GPIO)
                    && final(self).gpio_pins@ == old(self).gpio_pins@.update(i as int, gpio)
                    && final(self).wake_tasks == old(self).wake_tasks,
                Err(e) => e == Fatal::PinSlotsExhausted
                    && (forall|j: int| 0 <= j < MAX_BUTTONS ==> old(self).gpio_pins@[j] != INVALID_GPIO)
                    && *final(self) == *old(self),
            },
    {
        let mut i: usize = 0;
        while i < MAX_BUTTONS
            invariant
                i <= MAX_BUTTONS,
                *self == *old(self),
                forall|j: int| 0 <= j < i ==> old(self).gpio_pins@[j] != INVALID_GPIO,
            decreases MAX_BUTTONS - i,
        {
            if self.gpio_pins[i] == INVALID_GPIO {
                self.gpio_pins[i] = gpio;
                return Ok(i);
            }
            i = i + 1;
        }
        Err(Fatal::PinSlotsExhausted)
    }

    /// One resumption of a task waiting for level `desired` on the pin of
    /// slot `index`, whose level the caller has just sampled as `current`.
    /// If the pin is already at the desired level the wait completes at
    /// once, without registering interest — no dependency on an interrupt
    /// firing. Otherwise the task's identity is recorded in the slot and
    /// the task stays suspended until an edge interrupt resumes it.
    pub fn wait_poll(
        &mut self,
        index: usize,
        current: PinLevel,
        desired: PinLevel,
        task_id: usize,
    ) -> (ready: bool)
        requires
            index < MAX_BUTTONS,
        ensures
            ready == (current == desired),
            current == desired ==> *final(self) == *old(self),
            current != desired ==> final(self).wake_tasks@
                == old(self).wake_tasks@.update(index as int, task_id)
                && final(self).gpio_pins == old(self).gpio_pins,
    {
        if current == desired {
            true
        } else {
            self.wake_tasks[index] = task_id;
            false
        }
    }

    /// The decision half of the shared edge-interrupt handler. `ints1` is
    /// the latched interrupt status word the caller read. For every slot
    /// whose pin latched an edge: its latch bits join the returned clear
    /// mask (the caller writes that mask back to clear the hardware
    /// latches — only those bits, never unrelated pins'), the slot's
    /// waiting task, if any, is enqueued for resumption, and the slot
    /// returns to "no interest". Edges are not filtered by direction: any
    /// edge is enough to let the waiting task re-check the level.
    pub fn service_edge_interrupt(&mut self, ints1: u32, queue: &mut ReadyQueue) -> (r: Result<
        u32,
        Fatal,
    >)
        ensures
            final(self).gpio_pins == old(self).gpio_pins,
            queue_contents(*old(queue)).len() + old(self).woken(ints1).len() <= QUEUE_CAPACITY
                ==> r is Ok,
            match r {
                Ok(mask) => mask == old(self).clear_union(ints1)
                    && (old(self).woken(ints1).len() > 0 ==> queue_contents(*old(queue)).len()
                        + old(self).woken(ints1).len() <= QUEUE_CAPACITY)
                    && final(self).wake_tasks@ == old(self).after_irq_tasks(ints1)
                    && queue_contents(*final(queue))
                        == queue_contents(*old(queue)) + old(self).woken(ints1),
                Err(e) => e == Fatal::ReadyQueueFull
                    && queue_contents(*old(queue)).len() + old(self).woken(ints1).len()
                        > QUEUE_CAPACITY
                    && queue_contents(*final(queue)).len() >= QUEUE_CAPACITY,
            },
    {
        let mut clear_accum: u32 = 0;
        let mut i: usize = 0;
        while i < MAX_BUTTONS
            invariant
                i <= MAX_BUTTONS,
                self.gpio_pins == old(self).gpio_pins,
                forall|j: int| 0 <= j < i ==> self.wake_tasks@[j]
                    == old(self).after_irq_tasks(ints1)[j],
                forall|j: int| i <= j < MAX_BUTTONS ==> self.wake_tasks@[j]
                    == old(self).wake_tasks@[j],
                clear_accum == old(self).clear_union_prefix(ints1, i as int),
                queue_contents(*queue) == queue_contents(*old(queue))
                    + old(self).woken_prefix(ints1, i as int),
                old(self).woken_prefix(ints1, i as int).len() > 0 ==> queue_contents(
                    *old(queue),
                ).len() + old(self).woken_prefix(ints1, i as int).len() <= QUEUE_CAPACITY,
            decreases MAX_BUTTONS - i,
        {
            proof {
                old(self).lemma_woken_prefix_len(ints1, i as int);
            }
            let gpio: usize = self.gpio_pins[i];
            if gpio != INVALID_GPIO {
                let low_mask: u32 = mask_for(gpio, true);
                let high_mask: u32 = mask_for(gpio, false);
                let clear_mask: u32 = ints1 & (low_mask | high_mask);
                if clear_mask != 0 {
                    clear_accum = clear_accum | clear_mask;
                    let task_id: usize = self.wake_tasks[i];
                    self.wake_tasks[i] = INVALID_TASK_ID;
                    if task_id != INVALID_TASK_ID {
                        match wake_task(queue, task_id) {
                            Ok(()) => {},
                            Err(e) => {
                                proof {
                                    old(self).lemma_woken_prefix_len(ints1, i + 1);
                                    assert(old(self).woken_prefix(ints1, i + 1)
                                        =~= old(self).woken_prefix(ints1, i as int).push(task_id));
                                }
                                return Err(e);
                            },
                        }
                    }
                } else {
                    proof {
                        assert(clear_accum | 0u32 == clear_accum) by (bit_vector);
                    }
                }
            } else {
                proof {
                    assert(clear_accum | 0u32 == clear_accum) by (bit_vector);
                }
            }
            proof {
                assert(queue_contents(*queue) == queue_contents(*old(queue))
                    + old(self).woken_prefix(ints1, i + 1)) by {
                    if old(self).slot_wakes(i as int, ints1) {
                        assert(old(self).woken_prefix(ints1, i + 1)
                            =~= old(self).woken_prefix(ints1, i as int).push(
                                old(self).wake_tasks@[i as int],
                        ));
                        assert(queue_contents(*old(queue)) + old(self).woken_prefix(
                            ints1,
                            i + 1,
                        ) =~= (queue_contents(*old(queue)) + old(self).woken_prefix(
                            ints1,
                            i as int,
                        )).push(old(self).wake_tasks@[i as int]));
                    } else {
                        assert(old(self).woken_prefix(ints1, i + 1)
                            =~= old(self).woken_prefix(ints1, i as int));
                    }
                }
            }
            i = i + 1;
        }
        Ok(clear_accum)
    }

    /// The tasks woken for a prefix of the slots are never more than the
    /// whole pass wakes.
    proof fn lemma_woken_prefix_len(self, ints1: u32, k: int)
        requires
            0 <= k <= MAX_BUTTONS,
        ensures
            self.woken_prefix(ints1, k).len() <= self.woken(ints1).len(),
        decreases MAX_BUTTONS as int - k,
    {
        if k < MAX_BUTTONS as int {
            self.lemma_woken_prefix_len(ints1, k + 1);
        }
    }
}

/// Law: at most one slot maps to any hardware pin. Taking a free slot
/// for a pin that no slot manages yet keeps the managed pins distinct —
/// `before` and `after` are the pin tables around one registration, `i`
/// the slot it took.
pub proof fn lemma_register_keeps_pins_distinct(
    before: Seq<usize>,
    after: Seq<usize>,
    i: int,
    gpio: usize,
)
    requires
        0 <= i < before.len(),
        before[i] == INVALID_GPIO,
        gpio != INVALID_GPIO,
        forall|j: int| 0 <= j < before.len() ==> #[trigger] before[j] != gpio,
        forall|j: int, k: int|
            #![trigger before[j], before[k]]
            0 <= j < k < before.len() && before[j] != INVALID_GPIO ==> before[j] != before[k],
        after == before.update(i, gpio),
    ensures
        forall|j: int, k: int|
            #![trigger after[j], after[k]]
            0 <= j < k < after.len() && after[j] != INVALID_GPIO ==> after[j] != after[k],
{
    assert forall|j: int, k: int|
        0 <= j < k < after.len() && #[trigger] after[j] != INVALID_GPIO implies after[j]
        != #[trigger] after[k] by {
        if j != i && k != i {
            assert(after[j] == before[j] && after[k] == before[k]);
        }
    }
}

/// Law: a service pass clears only latch bits that stood set in the
/// status word it read — never a bit of an unrelated pin, and nothing
/// the hardware had not latched.
pub proof fn lemma_clear_mask_within_status(s: PinSlots, ints1: u32)
    ensures
        s.clear_union(ints1) & !ints1 == 0,
{
    let c0 = s.slot_clear_mask(0, ints1);
    let c1 = s.slot_clear_mask(1, ints1);
    assert(s.clear_union_prefix(ints1, 0) == 0u32);
    assert(s.clear_union_prefix(ints1, 1) == 0u32 | c0);
    assert(s.clear_union(ints1) == (0u32 | c0) | c1);
    assert(c0 & !ints1 == 0) by {
        if s.gpio_pins@[0] != INVALID_GPIO {
            let m = spec_edge_mask(s.gpio_pins@[0]);
            assert((ints1 & m) & !ints1 == 0) by (bit_vector);
        } else {
            assert(0u32 & !ints1 == 0) by (bit_vector);
        }
    }
    assert(c1 & !ints1 == 0) by {
        if s.gpio_pins@[1] != INVALID_GPIO {
            let m = spec_edge_mask(s.gpio_pins@[1]);
            assert((ints1 & m) & !ints1 == 0) by (bit_vector);
        } else {
            assert(0u32 & !ints1 == 0) by (bit_vector);
        }
    }
    assert(((0u32 | c0) | c1) & !ints1 == 0) by (bit_vector)
        requires
            c0 & !ints1 == 0,
            c1 & !ints1 == 0,
    ;
}

/// How many times `x` occurs in `s`.
pub open spec fn occurrences(s: Seq<usize>, x: usize) -> nat
    decreases s.len(),
{
    if s.len() == 0 {
        0
    } else {
        occurrences(s.drop_first(), x) + (if s[0] == x { 1nat } else { 0nat })
    }
}

/// Law: one qualifying edge interrupt resumes a registered task exactly
/// once. When slot `i` holds a task and its pin's latch bits are set in
/// `ints1`, the service pass enqueues that task exactly one time (given
/// that no other slot holds the same task), and leaves the slot cleared —
/// so a pool in the post-pass state wakes nothing for that slot until the
/// task registers again.
pub proof fn lemma_edge_wakes_exactly_once(s: PinSlots, t: PinSlots, ints1: u32, again: u32, i: int)
    requires
        0 <= i < MAX_BUTTONS,
        s.slot_wakes(i, ints1),
        forall|j: int| 0 <= j < MAX_BUTTONS && j != i && s.slot_wakes(j, ints1)
            ==> s.wake_tasks@[j] != s.wake_tasks@[i],
        t.wake_tasks@ == s.after_irq_tasks(ints1),
        t.gpio_pins == s.gpio_pins,
    ensures
        occurrences(s.woken(ints1), s.wake_tasks@[i]) == 1,
        !t.slot_wakes(i, again),
{
    let tid = s.wake_tasks@[i];
    let w0 = if s.slot_wakes(0, ints1) { seq![s.wake_tasks@[0]] } else { Seq::<usize>::empty() };
    let w1 = if s.slot_wakes(1, ints1) { seq![s.wake_tasks@[1]] } else { Seq::<usize>::empty() };
    assert(s.woken_prefix(ints1, 0) =~= Seq::<usize>::empty());
    assert(s.woken_prefix(ints1, 1) =~= w0);
    assert(s.woken_prefix(ints1, 2) =~= w0 + w1);
    assert(s.woken(ints1) =~= w0 + w1);
    assert(t.wake_tasks@[i] == INVALID_TASK_ID);
    assert(tid != INVALID_TASK_ID);
    if s.slot_wakes(0, ints1) && s.slot_wakes(1, ints1) {
        assert(s.woken(ints1) =~= seq![s.wake_tasks@[0], s.wake_tasks@[1]]);
        reveal_occurrences_two(s.wake_tasks@[0], s.wake_tasks@[1], tid);
    } else if s.slot_wakes(0, ints1) {
        assert(s.woken(ints1) =~= seq![s.wake_tasks@[0]]);
        reveal_occurrences_one(s.wake_tasks@[0], tid);
    } else {
        assert(s.slot_wakes(1, ints1));
        assert(s.woken(ints1) =~= seq![s.wake_tasks@[1]]);
        reveal_occurrences_one(s.wake_tasks@[1], tid);
    }
}

/// Occurrence count in a one-element sequence.
proof fn reveal_occurrences_one(a: usize, x: usize)
    ensures
        occurrences(seq![a], x) == (if a == x { 1nat } else { 0nat }),
{
    assert(seq![a].drop_first() =~= Seq::<usize>::empty());
    assert(occurrences(Seq::<usize>::empty(), x) == 0);
    assert(seq![a].len() == 1 && seq![a][0] == a);
}

/// Occurrence count in a two-element sequence.
proof fn reveal_occurrences_two(a: usize, b: usize, x: usize)
    ensures
        occurrences(seq![a, b], x) == (if a == x { 1nat } else { 0nat }) + (if b == x {
            1nat
        } else {
            0nat
        }),
{
    assert(seq![a, b].drop_first() =~= seq![b]);
    reveal_occurrences_one(b, x);
}

} // verus!
