//! The scheduler core: resume tokens and the wake registry that recovers
//! a task identity from one, the bounded ready queue shared between
//! interrupt and main context, and the drain logic of the scheduler loop.

use vstd::prelude::*;
use crate::Fatal;
use crate::QUEUE_CAPACITY;

verus! {

/// A resume token: the opaque handle through which a suspended task is
/// asked to run again. It encodes the owning task's identity directly
/// (the integer is the whole payload; nothing is dereferenced), so tokens
/// are trivially copyable and carry no resources to release.
#[derive(Clone, Copy, Debug, PartialEq, Eq, Structural)]
pub struct Token {
    /// The encoded task identity.
    pub data: usize,
}

/// The canonical token for a task identity.
pub open spec fn spec_canonical(task_id: usize) -> Token {
    Token { data: task_id }
}

/// Two tokens are equivalent exactly when they would resume the same task.
pub open spec fn spec_equivalent(a: Token, b: Token) -> bool {
    a.data == b.data
}

/// Construct the canonical resume token for `task_id`.
pub fn get_waker(task_id: usize) -> (t: Token)
    ensures
        t == spec_canonical(task_id),
{
    Token { data: task_id }
}

impl Token {
    /// Would this token resume the same task as `other`?
    pub fn will_wake(&self, other: &Token) -> (r: bool)
        ensures
            r == spec_equivalent(*self, *other),
    {
        self.data == other.data
    }
}

/// Recovery of the task identity behind a resume token.
pub trait ExtWaker {
    /// The task identity this token resumes.
    spec fn spec_task_id(&self) -> usize;

    /// Return the task identity this token resumes.
    fn task_id(&self) -> (id: usize)
        ensures
            id == self.spec_task_id(),
    ;
}

impl ExtWaker for Token {
    open spec fn spec_task_id(&self) -> usize {
        self.data
    }

    fn task_id(&self) -> (id: usize) {
        self.data
    }
}

/// The wake registry: recover the identity of the task that owns `token`
/// by constructing the canonical token of every live identity
/// (`0..num_tasks`) and testing whether it would wake the same task.
/// Returns the first match. `None` means the token belongs to no live
/// task — a programming-invariant violation the caller must treat as
/// fatal, not a recoverable runtime condition.
pub fn resolve_task_id(token: &Token, num_tasks: usize) -> (r: Option<usize>)
    ensures
        match r {
            Some(id) => id < num_tasks && spec_equivalent(spec_canonical(id), *token)
                && (forall|j: usize| j < id ==> !spec_equivalent(spec_canonical(j), *token)),
            None => forall|j: usize| j < num_tasks ==> !spec_equivalent(spec_canonical(j), *token),
        },
{
    let mut id: usize = 0;
    while id < num_tasks
        invariant
            id <= num_tasks,
            forall|j: usize| j < id ==> !spec_equivalent(spec_canonical(j), *token),
        decreases num_tasks - id,
    {
        let canonical = get_waker(id);
        if canonical.will_wake(token) {
            return Some(id);
        }
        id = id + 1;
    }
    None
}

/// The registry's scan and the identity a token itself reports agree:
/// the only identity the scan can return for a token is the encoded one.
pub proof fn lemma_registry_matches_token(token: Token, num_tasks: usize, id: usize)
    requires
        id < num_tasks,
        spec_equivalent(spec_canonical(id), token),
    ensures
        id == token.spec_task_id(),
{
}

/// The bounded FIFO of task identities awaiting resumption: the only
/// channel through which interrupt context requests main-context work.
/// Entries may be enqueued from either context; duplicates are permitted
/// (a redundant resumption is wasted work, never a defect).
#[verifier::external_body]
pub struct ReadyQueue {
    q: heapless::mpmc::Queue<usize, 4>,
}

/// The task identities the queue holds, oldest first.
pub uninterp spec fn queue_contents(q: ReadyQueue) -> Seq<usize>;

impl ReadyQueue {
    /// Relies on `heapless::mpmc::Queue::default`, which constructs an
    /// empty queue of capacity 4.
    #[verifier::external_body]
    pub fn new() -> (r: ReadyQueue)
        ensures
            queue_contents(r) == Seq::<usize>::empty(),
    {
        ReadyQueue { q: heapless::mpmc::Queue::default() }
    }

    /// Relies on `heapless::mpmc::Queue::enqueue` (a bounded FIFO of
    /// capacity 4): with no concurrent operation in flight it appends the
    /// item at the back, or hands it back exactly when the queue already
    /// holds 4 items.
    #[verifier::external_body]
    pub(crate) fn enqueue(&mut self, task_id: usize) -> (r: Result<(), usize>)
        ensures
            queue_contents(*old(self)).len() < QUEUE_CAPACITY ==> r is Ok
                && queue_contents(*final(self)) == queue_contents(*old(self)).push(task_id),
            queue_contents(*old(self)).len() >= QUEUE_CAPACITY ==> r is Err
                && queue_contents(*final(self)) == queue_contents(*old(self)),
    {
        self.q.enqueue(task_id)
    }

    /// Relies on `heapless::mpmc::Queue::dequeue`: with no concurrent
    /// operation in flight it removes and returns the oldest item, or
    /// returns `None` exactly when the queue is empty.
    #[verifier::external_body]
    pub(crate) fn dequeue(&mut self) -> (r: Option<usize>)
        ensures
            queue_contents(*old(self)).len() == 0 ==> r is None
                && queue_contents(*final(self)) == queue_contents(*old(self)),
            queue_contents(*old(self)).len() > 0 ==> r == Some(queue_contents(*old(self))[0])
                && queue_contents(*final(self)) == queue_contents(*old(self)).drop_first(),
    {
        self.q.dequeue()
    }
}

/// Request resumption of `task_id` by appending it to the ready queue.
/// A full queue is fatal: dropping the request would leave a task
/// permanently unresumable, which is worse than halting.
pub fn wake_task(queue: &mut ReadyQueue, task_id: usize) -> (r: Result<(), Fatal>)
    ensures
        queue_contents(*old(queue)).len() < QUEUE_CAPACITY ==> r is Ok
            && queue_contents(*final(queue)) == queue_contents(*old(queue)).push(task_id),
        queue_contents(*old(queue)).len() >= QUEUE_CAPACITY ==> r == Result::<(), Fatal>::Err(Fatal::ReadyQueueFull)
            && queue_contents(*final(queue)) == queue_contents(*old(queue)),
{
    match queue.enqueue(task_id) {
        Ok(()) => Ok(()),
        Err(_) => Err(Fatal::ReadyQueueFull),
    }
}

/// What the ready queue holds right after startup: one entry per task,
/// in identity order. Startup fails fatally rather than drop an entry —
/// a task never enqueued would never get its initial resumption.
pub open spec fn startup_queue(num_tasks: usize) -> Seq<usize> {
    Seq::new(num_tasks as nat, |i: int| i as usize)
}

/// The queue entries that name a live task, in queue order: exactly the
/// identities a full drain pass hands out for resumption. Entries at or
/// above `num_tasks` are protocol defects; the drain discards them.
pub open spec fn valid_entries(q: Seq<usize>, num_tasks: usize) -> Seq<usize> {
    q.filter(|id: usize| id < num_tasks)
}

/// One step of the drain: the identity the scheduler resumes next and the
/// queue left behind — the first in-range entry, with everything up to and
/// including it removed; or nothing, with the queue drained empty, when no
/// in-range entry remains.
pub open spec fn drain_one(q: Seq<usize>, num_tasks: usize) -> (Option<usize>, Seq<usize>)
    decreases q.len(),
{
    if q.len() == 0 {
        (None, q)
    } else if q[0] < num_tasks {
        (Some(q[0]), q.drop_first())
    } else {
        drain_one(q.drop_first(), num_tasks)
    }
}

/// The scheduler's state: the ready queue it drains and the fixed number
/// of tasks registered at startup. Task identities are `0..num_tasks`;
/// anything else dequeued is a defect, logged by the caller and discarded
/// here, never resumed.
pub struct Scheduler {
    /// The ready queue, drained here and filled by `wake_task` from
    /// either context.
    pub queue: ReadyQueue,
    /// How many tasks were registered at startup; immutable thereafter.
    pub num_tasks: usize,
}

impl Scheduler {
    /// Start the scheduler over `num_tasks` tasks: every task is enqueued
    /// once, so each gets an initial resumption opportunity regardless of
    /// external events. A startup enqueue that does not fit is fatal: a
    /// silently dropped entry would leave that task permanently
    /// unresumable, which is strictly worse than a diagnosable halt.
    pub fn new(num_tasks: usize) -> (r: Result<Scheduler, Fatal>)
        ensures
            num_tasks <= QUEUE_CAPACITY ==> r is Ok,
            match r {
                Ok(s) => s.num_tasks == num_tasks
                    && queue_contents(s.queue) == startup_queue(num_tasks),
                Err(e) => e == Fatal::ReadyQueueFull && num_tasks > QUEUE_CAPACITY,
            },
    {
        let mut queue = ReadyQueue::new();
        let mut id: usize = 0;
        while id < num_tasks
            invariant
                id <= num_tasks,
                queue_contents(queue) == startup_queue(id),
            decreases num_tasks - id,
        {
            match queue.enqueue(id) {
                Ok(()) => {},
                Err(_) => {
                    return Err(Fatal::ReadyQueueFull);
                },
            }
            proof {
                assert(startup_queue((id + 1) as usize) =~= startup_queue(id).push(id));
            }
            id = id + 1;
        }
        Ok(Scheduler { queue, num_tasks })
    }

    /// The next task the scheduler resumes: dequeue until an in-range
    /// identity appears, discarding out-of-range entries (defensive check
    /// against a corrupted queue entry), and return it. `None` means the
    /// queue is drained empty — the loop's cue to halt the core until the
    /// next interrupt.
    pub fn next_ready(&mut self) -> (r: Option<usize>)
        ensures
            final(self).num_tasks == old(self).num_tasks,
            (r, queue_contents(final(self).queue))
                == drain_one(queue_contents(old(self).queue), old(self).num_tasks),
            r is Some ==> r.unwrap() < old(self).num_tasks,
    {
        loop
            invariant
                self.num_tasks == old(self).num_tasks,
                drain_one(queue_contents(self.queue), self.num_tasks)
                    == drain_one(queue_contents(old(self).queue), old(self).num_tasks),
            decreases queue_contents(self.queue).len(),
        {
            match self.queue.dequeue() {
                None => {
                    return None;
                }
                Some(id) => {
                    if id < self.num_tasks {
                        return Some(id);
                    }
                }
            }
        }
    }
}

/// Law: at startup, every task identity below `num_tasks` stands in the
/// ready queue, all startup entries are in range, and the drain discards
/// none of them — so each task of any scheduler that construction did
/// not refuse is resumed at least once before the scheduler first finds
/// the queue empty and halts the core.
pub proof fn lemma_startup_resumes_every_task(num_tasks: usize)
    ensures
        valid_entries(startup_queue(num_tasks), num_tasks) == startup_queue(num_tasks),
        forall|id: usize| id < num_tasks ==>
            #[trigger] valid_entries(startup_queue(num_tasks), num_tasks).contains(id),
{
    let q = startup_queue(num_tasks);
    lemma_filter_keeps_all(q, |id: usize| id < num_tasks);
    assert forall|id: usize| id < num_tasks implies
        #[trigger] valid_entries(q, num_tasks).contains(id) by {
        assert(q[id as int] == id);
        assert(valid_entries(q, num_tasks)[id as int] == id);
    }
}

/// Law: the drain and the valid-entry view agree. One drain step yields
/// the head of `valid_entries` and leaves a queue whose valid entries are
/// its tail, and comes up empty only when no valid entry remains — so a
/// full drain pass resumes exactly the in-range entries, in queue order,
/// before the scheduler halts the core.
pub proof fn lemma_drain_yields_valid_entries(q: Seq<usize>, num_tasks: usize)
    ensures
        valid_entries(q, num_tasks).len() == 0 ==> drain_one(q, num_tasks).0 is None,
        valid_entries(q, num_tasks).len() > 0 ==> drain_one(q, num_tasks).0 == Some(
            valid_entries(q, num_tasks)[0],
        ) && valid_entries(drain_one(q, num_tasks).1, num_tasks) == valid_entries(
            q,
            num_tasks,
        ).drop_first(),
    decreases q.len(),
{
    let pred = |id: usize| id < num_tasks;
    if q.len() == 0 {
        reveal(Seq::filter);
    } else {
        assert(q =~= seq![q[0]] + q.drop_first());
        Seq::filter_distributes_over_add(seq![q[0]], q.drop_first(), pred);
        lemma_filter_singleton(q[0], pred);
        if q[0] < num_tasks {
            assert(valid_entries(q, num_tasks) =~= seq![q[0]] + valid_entries(
                q.drop_first(),
                num_tasks,
            ));
            assert(valid_entries(q.drop_first(), num_tasks) =~= valid_entries(
                q,
                num_tasks,
            ).drop_first());
        } else {
            lemma_drain_yields_valid_entries(q.drop_first(), num_tasks);
            assert(valid_entries(q, num_tasks) =~= valid_entries(q.drop_first(), num_tasks));
        }
    }
}

/// Filtering a one-element sequence keeps the element exactly when it
/// satisfies the predicate.
proof fn lemma_filter_singleton(x: usize, pred: spec_fn(usize) -> bool)
    ensures
        seq![x].filter(pred) == (if pred(x) { seq![x] } else { Seq::<usize>::empty() }),
{
    reveal(Seq::filter);
    assert(Seq::<usize>::empty().filter(pred) =~= Seq::<usize>::empty());
    assert(seq![x].drop_last() =~= Seq::<usize>::empty());
    assert(seq![x].last() == x);
}

/// Law: enqueuing the same identity twice before it is drained wastes at
/// most one extra resumption and never loses one — the drained sequence
/// still contains the identity, grows by exactly the two entries, and
/// still resumes everything it resumed before.
pub proof fn lemma_duplicate_enqueue_is_idempotent(q: Seq<usize>, id: usize, num_tasks: usize)
    requires
        id < num_tasks,
    ensures
        valid_entries(q.push(id).push(id), num_tasks).contains(id),
        valid_entries(q.push(id).push(id), num_tasks).len()
            == valid_entries(q, num_tasks).len() + 2,
        forall|x: usize| valid_entries(q, num_tasks).contains(x)
            ==> #[trigger] valid_entries(q.push(id).push(id), num_tasks).contains(x),
{
    let pred = |x: usize| x < num_tasks;
    lemma_filter_push(q, pred, id);
    lemma_filter_push(q.push(id), pred, id);
    let v = valid_entries(q, num_tasks);
    let w = valid_entries(q.push(id).push(id), num_tasks);
    assert(w == v.push(id).push(id));
    assert(w[w.len() - 1] == id);
    assert(w.contains(id));
    assert forall|x: usize| v.contains(x) implies #[trigger] w.contains(x) by {
        let i = choose|i: int| 0 <= i < v.len() && v[i] == x;
        assert(w[i] == x);
    }
}

/// Filtering a sequence whose members all satisfy the predicate keeps it
/// unchanged.
proof fn lemma_filter_keeps_all(q: Seq<usize>, pred: spec_fn(usize) -> bool)
    requires
        forall|i: int| 0 <= i < q.len() ==> pred(#[trigger] q[i]),
    ensures
        q.filter(pred) == q,
    decreases q.len(),
{
    reveal(Seq::filter);
    if q.len() > 0 {
        lemma_filter_keeps_all(q.drop_last(), pred);
        assert(q.drop_last().push(q.last()) =~= q);
    }
}

/// Appending one element to a sequence extends its filtered form by that
/// element exactly when the element satisfies the predicate.
proof fn lemma_filter_push(q: Seq<usize>, pred: spec_fn(usize) -> bool, x: usize)
    ensures
        q.push(x).filter(pred) == (if pred(x) { q.filter(pred).push(x) } else { q.filter(pred) }),
{
    reveal(Seq::filter);
    assert(q.push(x).drop_last() =~= q);
    assert(q.push(x).last() == x);
}

} // verus!
