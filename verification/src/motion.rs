//! Headings, world positions, and the movement integrator.
//!
//! A heading is the movement an entity intends for the current tick; the
//! integrator applies one fixed step of displacement along it, optionally
//! clamped so a patrol entity lands exactly on its target waypoint.

use vstd::prelude::*;

use crate::MAX_COORD;
use crate::PLAYER_SPEED;

verus! {

/// An entity's intended movement for one tick: one of the four cardinal
/// directions, or `Idle` for no intended movement.
#[derive(Clone, Copy, PartialEq, Eq, Structural, Debug)]
pub enum Direction {
    Left,
    Right,
    Up,
    Down,
    Idle,
}

impl Default for Direction {
    fn default() -> (d: Self)
        ensures
            d == Direction::Idle,
    {
        Direction::Idle
    }
}

/// A world-space position in subunits.
#[derive(Clone, Copy, PartialEq, Eq, Structural, Debug)]
pub struct Point {
    pub x: i64,
    pub y: i64,
}

/// The last non-idle heading an entity moved along, kept for idle-facing
/// presentation.
#[derive(Clone, Copy, PartialEq, Eq, Structural, Debug)]
pub struct Orientation(pub Direction);

impl Default for Orientation {
    fn default() -> (o: Self)
        ensures
            o == Orientation(Direction::Down),
    {
        Orientation(Direction::Down)
    }
}

/// Whether a coordinate is within the range the movement and collision
/// functions accept.
pub open spec fn coord_in_range(v: int) -> bool {
    -(MAX_COORD as int) <= v <= MAX_COORD as int
}

/// Whether both coordinates of a position are in range.
pub open spec fn point_in_range(p: Point) -> bool {
    coord_in_range(p.x as int) && coord_in_range(p.y as int)
}

/// The heading chosen from the four direction keys: the keys are polled in
/// the order up, down, right, left, the last pressed key winning; with no
/// key pressed the current heading is kept.
pub open spec fn input_heading(
    up: bool,
    down: bool,
    right: bool,
    left: bool,
    current: Direction,
) -> Direction {
    if left {
        Direction::Left
    } else if right {
        Direction::Right
    } else if down {
        Direction::Down
    } else if up {
        Direction::Up
    } else {
        current
    }
}

/// Reads the player's four direction keys into a heading for this tick.
pub fn movement_input(
    up: bool,
    down: bool,
    right: bool,
    left: bool,
    current: Direction,
) -> (d: Direction)
    ensures
        d == input_heading(up, down, right, left, current),
{
    let mut d = current;
    if up {
        d = Direction::Up;
    }
    if down {
        d = Direction::Down;
    }
    if right {
        d = Direction::Right;
    }
    if left {
        d = Direction::Left;
    }
    d
}

/// One step upward along an axis, clamped so the coordinate never crosses
/// the target: snaps to the target when the full step would overshoot it.
pub open spec fn clamp_step_up(x: int, target: int, speed: int) -> int {
    if target < x + speed {
        target
    } else {
        x + speed
    }
}

/// One step downward along an axis, clamped at the target likewise.
pub open spec fn clamp_step_down(x: int, target: int, speed: int) -> int {
    if target > x - speed {
        target
    } else {
        x - speed
    }
}

/// The x coordinate after integrating one tick: displaced only by a `Left`
/// or `Right` heading, clamped at the target's x when one is supplied.
pub open spec fn step_x(p: Point, heading: Direction, speed: int, clamp_target: Option<Point>) -> int {
    match heading {
        Direction::Right => match clamp_target {
            Some(t) => clamp_step_up(p.x as int, t.x as int, speed),
            None => p.x + speed,
        },
        Direction::Left => match clamp_target {
            Some(t) => clamp_step_down(p.x as int, t.x as int, speed),
            None => p.x - speed,
        },
        _ => p.x as int,
    }
}

/// The y coordinate after integrating one tick: displaced only by an `Up`
/// or `Down` heading, clamped at the target's y when one is supplied.
pub open spec fn step_y(p: Point, heading: Direction, speed: int, clamp_target: Option<Point>) -> int {
    match heading {
        Direction::Up => match clamp_target {
            Some(t) => clamp_step_up(p.y as int, t.y as int, speed),
            None => p.y + speed,
        },
        Direction::Down => match clamp_target {
            Some(t) => clamp_step_down(p.y as int, t.y as int, speed),
            None => p.y - speed,
        },
        _ => p.y as int,
    }
}

/// Applies one tick of displacement along `heading` to `pos`.
///
/// With a clamp target the step never crosses the target's coordinate on the
/// moved axis; without one the step is a full `speed`. An `Idle` heading
/// leaves the position unchanged.
pub fn integrate(pos: &mut Point, heading: Direction, speed: i64, clamp_target: Option<Point>)
    requires
        point_in_range(*old(pos)),
        0 <= speed <= MAX_COORD,
        clamp_target matches Some(t) ==> point_in_range(t),
    ensures
        final(pos).x as int == step_x(*old(pos), heading, speed as int, clamp_target),
        final(pos).y as int == step_y(*old(pos), heading, speed as int, clamp_target),
{
    match heading {
        Direction::Right => {
            match clamp_target {
                Some(t) => {
                    if t.x < pos.x + speed {
                        pos.x = t.x;
                    } else {
                        pos.x = pos.x + speed;
                    }
                },
                None => {
                    pos.x = pos.x + speed;
                },
            }
        },
        Direction::Left => {
            match clamp_target {
                Some(t) => {
                    if t.x > pos.x - speed {
                        pos.x = t.x;
                    } else {
                        pos.x = pos.x - speed;
                    }
                },
                None => {
                    pos.x = pos.x - speed;
                },
            }
        },
        Direction::Up => {
            match clamp_target {
                Some(t) => {
                    if t.y < pos.y + speed {
                        pos.y = t.y;
                    } else {
                        pos.y = pos.y + speed;
                    }
                },
                None => {
                    pos.y = pos.y + speed;
                },
            }
        },
        Direction::Down => {
            match clamp_target {
                Some(t) => {
                    if t.y > pos.y - speed {
                        pos.y = t.y;
                    } else {
                        pos.y = pos.y - speed;
                    }
                },
                None => {
                    pos.y = pos.y - speed;
                },
            }
        },
        Direction::Idle => {},
    }
}

/// Moves the player one unclamped step along its heading, records the
/// heading as the orientation when it is not idle, and resets the heading
/// for the next tick.
pub fn player_movement(pos: &mut Point, direction: &mut Direction, orientation: &mut Orientation)
    requires
        point_in_range(*old(pos)),
    ensures
        final(pos).x as int == step_x(*old(pos), *old(direction), PLAYER_SPEED as int, None::<Point>),
        final(pos).y as int == step_y(*old(pos), *old(direction), PLAYER_SPEED as int, None::<Point>),
        *final(direction) == Direction::Idle,
        *final(orientation) == if *old(direction) == Direction::Idle {
            *old(orientation)
        } else {
            Orientation(*old(direction))
        },
{
    integrate(pos, *direction, PLAYER_SPEED, None);
    if !matches!(*direction, Direction::Idle) {
        *orientation = Orientation(*direction);
    }
    *direction = Direction::Idle;
}

/// Movement clamp correctness: a clamped step toward a target that lies
/// strictly closer than one full step lands exactly on the target, never
/// past it, whichever of the four headings points at it.
pub proof fn lemma_clamp_exact(p: Point, t: Point, speed: int)
    requires
        0 < speed,
    ensures
        0 < t.x - p.x < speed ==> step_x(p, Direction::Right, speed, Some(t)) == t.x,
        0 < p.x - t.x < speed ==> step_x(p, Direction::Left, speed, Some(t)) == t.x,
        0 < t.y - p.y < speed ==> step_y(p, Direction::Up, speed, Some(t)) == t.y,
        0 < p.y - t.y < speed ==> step_y(p, Direction::Down, speed, Some(t)) == t.y,
{
}

/// No-heading no-op: integrating with an idle heading leaves both
/// coordinates unchanged, clamped or not.
pub proof fn lemma_idle_no_op(p: Point, speed: int, clamp_target: Option<Point>)
    ensures
        step_x(p, Direction::Idle, speed, clamp_target) == p.x as int,
        step_y(p, Direction::Idle, speed, clamp_target) == p.y as int,
{
}

} // verus!
