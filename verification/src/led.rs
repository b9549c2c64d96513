//! The LED row's index bookkeeping: where a button press moves the
//! active LED. Driving the pins themselves is the platform glue's work.

use vstd::prelude::*;
use crate::button::ButtonDirection;

verus! {

/// Number of LEDs in the row.
pub const NUM_LEDS: usize = 10;

/// The active index after one shift: left steps down and wraps from the
/// first LED to the last, right steps up and wraps past the last.
pub open spec fn spec_shift_index(active: usize, direction: ButtonDirection, count: usize) -> usize
    recommends
        count > 0,
        active < count,
{
    match direction {
        ButtonDirection::Left => if active == 0 {
            (count - 1) as usize
        } else {
            (active - 1) as usize
        },
        ButtonDirection::Right => (((active + 1) as int % count as int) as usize),
    }
}

/// See `spec_shift_index`.
pub fn shift_index(active: usize, direction: ButtonDirection, count: usize) -> (r: usize)
    requires
        count > 0,
        active < count,
    ensures
        r == spec_shift_index(active, direction, count),
        r < count,
{
    match direction {
        ButtonDirection::Left => if active == 0 {
            count - 1
        } else {
            active - 1
        },
        ButtonDirection::Right => (active + 1) % count,
    }
}

} // verus!
