//! Direction events produced by button presses and consumed by the LED
//! row. Sampling the button pins themselves is the edge event source's
//! callers' work.

use vstd::prelude::*;

verus! {

/// Which way a button press shifts the active LED.
#[derive(Clone, Copy, Debug, PartialEq, Eq, Structural)]
pub enum ButtonDirection {
    Left,
    Right,
}

} // verus!
