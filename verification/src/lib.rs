//! A minimal cooperative task runtime for a single-core microcontroller.
//!
//! The runtime resumes a fixed set of suspendable tasks in response to
//! hardware events. A bounded ready queue carries task identities from
//! interrupt context to the scheduler loop; an edge event source maps GPIO
//! edge interrupts to waiting tasks; a deadline timer service multiplexes
//! many outstanding deadlines onto a single hardware alarm channel.
//!
//! The modules here hold all bookkeeping and decision logic. The hardware
//! itself (pin sampling, the alarm comparator, the interrupt controller,
//! halting the core) stays with the platform glue, which feeds observed
//! values in and carries the returned actions out.

use vstd::prelude::*;

pub mod button;
pub mod executor;
pub mod gpio;
pub mod led;
pub mod time;

verus! {

/// Capacity of the ready queue: how many resumption requests may be
/// outstanding at once.
pub const QUEUE_CAPACITY: usize = 4;

/// Size of the edge event source's fixed pool of pin interest slots.
pub const MAX_BUTTONS: usize = 2;

/// Capacity of the deadline timer service's entry pool.
pub const MAX_DEADLINES: usize = 8;

/// Sentinel stored in a pin interest slot that has no waiting task.
pub const INVALID_TASK_ID: usize = usize::MAX;

/// Sentinel stored in a pin interest slot that manages no pin.
pub const INVALID_GPIO: usize = usize::MAX;

/// An unrecoverable condition. Each variant leaves some task permanently
/// unresumable, or marks a programming-invariant violation; continuing
/// would be worse than halting, so the caller must turn any of these into
/// an immediate, diagnosable halt of the process.
#[derive(Clone, Copy, Debug, PartialEq, Eq, Structural)]
pub enum Fatal {
    /// The ready queue was at capacity when a resumption was requested.
    ReadyQueueFull,
    /// Every pin interest slot was taken when a new pin was registered.
    PinSlotsExhausted,
    /// The deadline entry pool was at capacity when a deadline was registered.
    TooManyDeadlines,
    /// The gap to the nearest deadline does not fit the hardware alarm's
    /// duration register.
    AlarmTooFar,
}

} // verus!
