//! Character movement and animation decisions.
//!
//! Given the pressed movement axes and the clock, the controller
//! decides which way the character faces, whether it is idle or
//! walking, which sprite sheet to show, and which animation frame - the
//! walk cycle advances one of eight frames whenever its interval has
//! elapsed. The continuous position change itself (speed times frame
//! time) is left to the caller.

use vstd::prelude::*;

verus! {

/// The eight facing directions.
#[derive(Clone, Copy, Debug, PartialEq, Eq, Structural)]
pub enum Direction {
    Up,
    Down,
    Left,
    Right,
    UpLeft,
    UpRight,
    DownLeft,
    DownRight,
}

/// Whether the character stands or walks.
#[derive(Clone, Copy, Debug, PartialEq, Eq, Structural)]
pub enum CharacterState {
    Idle,
    Walking,
}

/// The walk-cycle interval in milliseconds.
pub const WALK_FRAME_INTERVAL_MS: u64 = 80;

/// The direction of a movement input, `None` when nothing is pressed.
pub fn direction_from_movement(x: i32, y: i32) -> (r: Option<Direction>)
    ensures
        r == (if x == 0 && y == 0 {
            None::<Direction>
        } else if x == 0 && y > 0 {
            Some(Direction::Up)
        } else if x == 0 && y < 0 {
            Some(Direction::Down)
        } else if x < 0 && y == 0 {
            Some(Direction::Left)
        } else if x > 0 && y == 0 {
            Some(Direction::Right)
        } else if x < 0 && y > 0 {
            Some(Direction::UpLeft)
        } else if x > 0 && y > 0 {
            Some(Direction::UpRight)
        } else if x < 0 && y < 0 {
            Some(Direction::DownLeft)
        } else {
            Some(Direction::DownRight)
        }),
{
    if x == 0 && y == 0 {
        None
    } else if x == 0 && y > 0 {
        Some(Direction::Up)
    } else if x == 0 && y < 0 {
        Some(Direction::Down)
    } else if x < 0 && y == 0 {
        Some(Direction::Left)
    } else if x > 0 && y == 0 {
        Some(Direction::Right)
    } else if x < 0 && y > 0 {
        Some(Direction::UpLeft)
    } else if x > 0 && y > 0 {
        Some(Direction::UpRight)
    } else if x < 0 && y < 0 {
        Some(Direction::DownLeft)
    } else {
        Some(Direction::DownRight)
    }
}

/// The sprite-sheet slot of a facing direction, used while walking.
pub fn direction_index(d: Direction) -> (r: usize)
    ensures
        r == (match d {
            Direction::Up => 0int,
            Direction::Down => 1int,
            Direction::Left => 2int,
            Direction::Right => 3int,
            Direction::UpLeft => 4int,
            Direction::UpRight => 5int,
            Direction::DownLeft => 6int,
            Direction::DownRight => 7int,
        }),
{
    match d {
        Direction::Up => 0,
        Direction::Down => 1,
        Direction::Left => 2,
        Direction::Right => 3,
        Direction::UpLeft => 4,
        Direction::UpRight => 5,
        Direction::DownLeft => 6,
        Direction::DownRight => 7,
    }
}

/// The idle-sheet frame shown when standing still, facing a direction.
pub fn idle_frame(d: Direction) -> (r: u32)
    ensures
        r == (match d {
            Direction::Up => 5u32,
            Direction::Down => 1u32,
            Direction::Left => 3u32,
            Direction::Right => 7u32,
            Direction::UpLeft => 4u32,
            Direction::UpRight => 6u32,
            Direction::DownLeft => 2u32,
            Direction::DownRight => 0u32,
        }),
{
    match d {
        Direction::Up => 5,
        Direction::Down => 1,
        Direction::Left => 3,
        Direction::Right => 7,
        Direction::UpLeft => 4,
        Direction::UpRight => 6,
        Direction::DownLeft => 2,
        Direction::DownRight => 0,
    }
}

/// The index of the idle sprite sheet, after the eight directional
/// sheets.
pub const IDLE_SHEET: usize = 8;

/// The animation state of the character controller.
#[derive(Clone, Copy, Debug, PartialEq, Eq, Structural)]
pub struct CharacterAnim {
    pub state: CharacterState,
    pub direction: Direction,
    pub last_frame_ms: u64,
    pub frame_idx: u32,
}

impl CharacterAnim {
    /// Facing down, idle, on the first walk frame.
    pub fn new(now_ms: u64) -> (r: CharacterAnim)
        ensures
            r.state == CharacterState::Idle,
            r.direction == Direction::Down,
            r.last_frame_ms == now_ms,
            r.frame_idx == 1,
    {
        CharacterAnim {
            state: CharacterState::Idle,
            direction: Direction::Down,
            last_frame_ms: now_ms,
            frame_idx: 1,
        }
    }

    /// One frame of the controller: with movement pressed the
    /// character walks, facing the movement, starting the walk cycle on
    /// entry and advancing it (wrapping through eight frames) once the
    /// interval has elapsed; without movement it idles on the facing
    /// direction's idle frame. Returns (sheet index, frame index).
    pub fn step(&mut self, x_movement: i32, y_movement: i32, now_ms: u64) -> (r: (usize, u32))
        requires
            old(self).last_frame_ms <= now_ms,
            old(self).frame_idx < 8,
        ensures
            final(self).frame_idx < 8,
            final(self).last_frame_ms <= now_ms,
            r.1 == final(self).frame_idx,
            ({
                let moving = !(x_movement == 0 && y_movement == 0);
                if moving {
                    &&& final(self).state == CharacterState::Walking
                    &&& Some(final(self).direction) == (if x_movement == 0 && y_movement > 0 {
                        Some(Direction::Up)
                    } else if x_movement == 0 && y_movement < 0 {
                        Some(Direction::Down)
                    } else if x_movement < 0 && y_movement == 0 {
                        Some(Direction::Left)
                    } else if x_movement > 0 && y_movement == 0 {
                        Some(Direction::Right)
                    } else if x_movement < 0 && y_movement > 0 {
                        Some(Direction::UpLeft)
                    } else if x_movement > 0 && y_movement > 0 {
                        Some(Direction::UpRight)
                    } else if x_movement < 0 && y_movement < 0 {
                        Some(Direction::DownLeft)
                    } else {
                        Some(Direction::DownRight)
                    })
                    &&& (old(self).state == CharacterState::Idle ==> {
                        &&& final(self).frame_idx == 0
                        &&& final(self).last_frame_ms == now_ms
                    })
                    &&& (old(self).state == CharacterState::Walking ==> {
                        if now_ms - old(self).last_frame_ms > WALK_FRAME_INTERVAL_MS {
                            &&& final(self).frame_idx == ((old(self).frame_idx + 1) % 8) as u32
                            &&& final(self).last_frame_ms == now_ms
                        } else {
                            &&& final(self).frame_idx == old(self).frame_idx
                            &&& final(self).last_frame_ms == old(self).last_frame_ms
                        }
                    })
                    &&& r.0 == (match final(self).direction {
                        Direction::Up => 0int,
                        Direction::Down => 1int,
                        Direction::Left => 2int,
                        Direction::Right => 3int,
                        Direction::UpLeft => 4int,
                        Direction::UpRight => 5int,
                        Direction::DownLeft => 6int,
                        Direction::DownRight => 7int,
                    })
                } else {
                    &&& final(self).state == CharacterState::Idle
                    &&& final(self).direction == old(self).direction
                    &&& final(self).frame_idx == (match old(self).direction {
                        Direction::Up => 5u32,
                        Direction::Down => 1u32,
                        Direction::Left => 3u32,
                        Direction::Right => 7u32,
                        Direction::UpLeft => 4u32,
                        Direction::UpRight => 6u32,
                        Direction::DownLeft => 2u32,
                        Direction::DownRight => 0u32,
                    })
                    &&& r.0 == IDLE_SHEET as int
                }
            }),
    {
        match direction_from_movement(x_movement, y_movement) {
            Some(d) => {
                self.direction = d;
                let frame_idx: u32;
                match self.state {
                    CharacterState::Idle => {
                        self.last_frame_ms = now_ms;
                        self.state = CharacterState::Walking;
                        frame_idx = 0;
                    },
                    CharacterState::Walking => {
                        if now_ms - self.last_frame_ms > WALK_FRAME_INTERVAL_MS {
                            self.last_frame_ms = now_ms;
                            frame_idx = (self.frame_idx + 1) % 8;
                        } else {
                            frame_idx = self.frame_idx;
                        }
                    },
                }
                self.frame_idx = frame_idx;
                (direction_index(self.direction), frame_idx)
            },
            None => {
                self.state = CharacterState::Idle;
                let frame_idx = idle_frame(self.direction);
                self.frame_idx = frame_idx;
                (IDLE_SHEET, frame_idx)
            },
        }
    }
}

} // verus!
