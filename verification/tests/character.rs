use rosten::character::{
    direction_from_movement, direction_index, idle_frame, CharacterAnim, CharacterState,
    Direction, IDLE_SHEET,
};

#[test]
fn movement_axes_pick_the_eight_directions() {
    assert_eq!(direction_from_movement(0, 0), None);
    assert_eq!(direction_from_movement(0, 1), Some(Direction::Up));
    assert_eq!(direction_from_movement(0, -1), Some(Direction::Down));
    assert_eq!(direction_from_movement(-1, 0), Some(Direction::Left));
    assert_eq!(direction_from_movement(1, 0), Some(Direction::Right));
    assert_eq!(direction_from_movement(-1, 1), Some(Direction::UpLeft));
    assert_eq!(direction_from_movement(1, 1), Some(Direction::UpRight));
    assert_eq!(direction_from_movement(-1, -1), Some(Direction::DownLeft));
    assert_eq!(direction_from_movement(1, -1), Some(Direction::DownRight));
}

#[test]
fn idle_frames_match_facing() {
    assert_eq!(idle_frame(Direction::Up), 5);
    assert_eq!(idle_frame(Direction::Down), 1);
    assert_eq!(idle_frame(Direction::Left), 3);
    assert_eq!(idle_frame(Direction::Right), 7);
    assert_eq!(idle_frame(Direction::UpLeft), 4);
    assert_eq!(idle_frame(Direction::UpRight), 6);
    assert_eq!(idle_frame(Direction::DownLeft), 2);
    assert_eq!(idle_frame(Direction::DownRight), 0);
}

#[test]
fn walk_cycle_starts_and_advances_on_interval() {
    let mut anim = CharacterAnim::new(0);
    assert_eq!(anim.state, CharacterState::Idle);

    // starting to move enters the walk cycle at frame 0
    let (sheet, frame) = anim.step(1, 0, 10);
    assert_eq!(sheet, direction_index(Direction::Right));
    assert_eq!(frame, 0);
    assert_eq!(anim.state, CharacterState::Walking);

    // within the 80ms interval the frame stays put
    let (_, frame) = anim.step(1, 0, 50);
    assert_eq!(frame, 0);

    // past the interval it advances
    let (_, frame) = anim.step(1, 0, 100);
    assert_eq!(frame, 1);
}

#[test]
fn stopping_returns_to_the_idle_sheet() {
    let mut anim = CharacterAnim::new(0);
    anim.step(0, -1, 10);
    let (sheet, frame) = anim.step(0, 0, 20);
    assert_eq!(sheet, IDLE_SHEET);
    assert_eq!(frame, idle_frame(Direction::Down));
    assert_eq!(anim.state, CharacterState::Idle);
}

#[test]
fn walk_cycle_wraps_after_eight_frames() {
    let mut anim = CharacterAnim::new(0);
    anim.step(1, 0, 0);
    let mut now = 0;
    for _ in 0..8 {
        now += 100;
        anim.step(1, 0, now);
    }
    assert_eq!(anim.frame_idx, 0);
}
