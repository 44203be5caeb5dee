use rosten::input::ButtonTracker;

#[test]
fn press_counts_for_one_frame_then_holds() {
    let mut input = ButtonTracker::new();
    input.handle_event(17, true, 1000);
    assert!(input.is_button_pressed(17));
    assert_eq!(input.is_button_held(17, 1000), None);

    // the end-of-frame clear turns the press into a hold
    input.clear_presses();
    assert!(!input.is_button_pressed(17));
    assert_eq!(input.is_button_held(17, 1080), Some(80));
}

#[test]
fn release_ends_a_hold() {
    let mut input = ButtonTracker::new();
    input.handle_event(30, true, 0);
    input.clear_presses();
    input.handle_event(30, false, 50);
    assert!(!input.is_button_pressed(30));
    assert_eq!(input.is_button_held(30, 100), None);
}

#[test]
fn repeated_press_events_do_not_restart_the_press() {
    let mut input = ButtonTracker::new();
    input.handle_event(5, true, 10);
    input.handle_event(5, true, 20);
    input.clear_presses();
    // the hold still dates from the first press
    assert_eq!(input.is_button_held(5, 30), Some(20));
}

#[test]
fn release_of_untracked_button_is_ignored() {
    let mut input = ButtonTracker::new();
    input.handle_event(9, false, 10);
    assert!(!input.is_button_pressed(9));
    assert_eq!(input.is_button_held(9, 10), None);
    // a released button can be pressed again
    input.handle_event(9, true, 20);
    assert!(input.is_button_pressed(9));
}
