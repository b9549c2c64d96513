use coop_runtime::button::ButtonDirection;
use coop_runtime::led::{shift_index, NUM_LEDS};

#[test]
fn shift_wraps_left_at_the_first_led() {
    assert_eq!(shift_index(0, ButtonDirection::Left, NUM_LEDS), 9);
    assert_eq!(shift_index(5, ButtonDirection::Left, NUM_LEDS), 4);
}

#[test]
fn shift_wraps_right_at_the_last_led() {
    assert_eq!(shift_index(9, ButtonDirection::Right, NUM_LEDS), 0);
    assert_eq!(shift_index(3, ButtonDirection::Right, NUM_LEDS), 4);
}
