use rosten::anim::{frames_equal, AnimFrame, AnimationClock};

fn two_frame_clock() -> AnimationClock {
    let frames = vec![
        AnimFrame { tile_id: 0, duration_ms: 100 },
        AnimFrame { tile_id: 1, duration_ms: 50 },
    ];
    AnimationClock::new(frames, 0).unwrap()
}

#[test]
fn clock_ticks_once_at_120ms() {
    let mut clock = two_frame_clock();
    let ticks = clock.update(120);
    assert_eq!(ticks, 1);
    assert_eq!(clock.current_frame(), 1);
    assert_eq!(clock.current_tile_id(), 1);
}

#[test]
fn clock_ticks_twice_at_170ms_wrapping() {
    let mut clock = two_frame_clock();
    let ticks = clock.update(170);
    assert_eq!(ticks, 2);
    assert_eq!(clock.current_frame(), 0);
    assert_eq!(clock.current_tile_id(), 0);
}

#[test]
fn clock_does_not_tick_within_first_frame() {
    let mut clock = two_frame_clock();
    let ticks = clock.update(100);
    assert_eq!(ticks, 0);
    assert_eq!(clock.current_frame(), 0);
}

#[test]
fn clock_carries_remainder_across_polls() {
    let mut clock = two_frame_clock();
    assert_eq!(clock.update(120), 1);
    // the tick timestamp moved to 100, not 120: polling at 155 is 55ms
    // past it, which exceeds the 50ms frame and wraps back to frame 0
    assert_eq!(clock.update(155), 1);
    assert_eq!(clock.current_frame(), 0);
}

#[test]
fn clock_rejects_bad_frames() {
    assert!(AnimationClock::new(vec![], 0).is_none());
    let zero = vec![AnimFrame { tile_id: 3, duration_ms: 0 }];
    assert!(AnimationClock::new(zero, 0).is_none());
}

#[test]
fn animation_identity_is_the_frame_sequence() {
    let a = vec![
        AnimFrame { tile_id: 0, duration_ms: 100 },
        AnimFrame { tile_id: 1, duration_ms: 50 },
    ];
    let b = vec![
        AnimFrame { tile_id: 0, duration_ms: 100 },
        AnimFrame { tile_id: 1, duration_ms: 50 },
    ];
    let c = vec![
        AnimFrame { tile_id: 0, duration_ms: 100 },
        AnimFrame { tile_id: 1, duration_ms: 51 },
    ];
    assert!(frames_equal(&a, &b));
    assert!(!frames_equal(&a, &c));
}
