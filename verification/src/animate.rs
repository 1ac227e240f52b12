//! Sprite-frame selection for walking and idle entities.
//!
//! The sprite sheet holds four rows of four frames, one row per facing:
//! down starts at 0, up at 4, left at 8, right at 12. A moving entity
//! cycles the three walk frames of its row; an idle entity snaps to its
//! row's first frame, facing along its last orientation.

use vstd::prelude::*;

use crate::motion::Direction;
use crate::motion::Orientation;

verus! {

/// One step through a row's walk cycle: advances within the row's first
/// three frames, and restarts the row from anywhere else.
pub open spec fn walk_frame(base: int, index: int) -> int {
    if base <= index <= base + 2 {
        index + 1
    } else {
        base
    }
}

/// The row base an idle entity faces along, by its last orientation; an
/// entity that never moved keeps its current frame.
pub open spec fn idle_base(o: Direction, index: int) -> int {
    match o {
        Direction::Left => 8,
        Direction::Right => 12,
        Direction::Up => 4,
        Direction::Down => 0,
        Direction::Idle => index,
    }
}

/// Snaps a frame back to the first frame of its row; frames outside the
/// sheet are kept unchanged.
pub open spec fn idle_snap(index: int) -> int {
    if 0 <= index <= 3 {
        0
    } else if 4 <= index <= 7 {
        4
    } else if 8 <= index <= 11 {
        8
    } else if 12 <= index <= 15 {
        12
    } else {
        index
    }
}

/// The sprite frame after one animation tick, from the tick's heading, the
/// last orientation, and the current frame.
pub open spec fn frame_after(d: Direction, o: Orientation, index: int) -> int {
    match d {
        Direction::Left => walk_frame(8, index),
        Direction::Right => walk_frame(12, index),
        Direction::Up => walk_frame(4, index),
        Direction::Down => walk_frame(0, index),
        Direction::Idle => idle_snap(idle_base(o.0, index)),
    }
}

/// Advances an entity's sprite frame for one animation tick: a moving
/// entity cycles its facing's walk row, an idle one snaps to the first
/// frame of the row its orientation faces along.
pub fn animate_player_movement(direction: Direction, orientation: Orientation, index: usize) -> (r:
    usize)
    ensures
        r as int == frame_after(direction, orientation, index as int),
{
    match direction {
        Direction::Left => {
            if 8 <= index && index <= 10 {
                index + 1
            } else {
                8
            }
        },
        Direction::Right => {
            if 12 <= index && index <= 14 {
                index + 1
            } else {
                12
            }
        },
        Direction::Up => {
            if 4 <= index && index <= 6 {
                index + 1
            } else {
                4
            }
        },
        Direction::Down => {
            if index <= 2 {
                index + 1
            } else {
                0
            }
        },
        Direction::Idle => {
            let base = match orientation.0 {
                Direction::Left => 8,
                Direction::Right => 12,
                Direction::Up => 4,
                Direction::Down => 0,
                Direction::Idle => index,
            };
            if base <= 3 {
                0
            } else if 4 <= base && base <= 7 {
                4
            } else if 8 <= base && base <= 11 {
                8
            } else if 12 <= base && base <= 15 {
                12
            } else {
                base
            }
        },
    }
}

} // verus!
