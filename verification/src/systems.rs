//! Entity markers and the per-tick system compositions.
//!
//! One simulation tick runs each entity's systems in a strict
//! data-dependency order. For the player: input writes the heading, the
//! collision resolver may cancel it, and, when the frame gate fires, the
//! movement integrator consumes it. For a patrol entity: the patrol
//! controller updates the cursor and derives the heading, then the clamped
//! integrator moves the entity when its frame gate fires.

use vstd::prelude::*;

use crate::ENEMY_SPEED;
use crate::PLAYER_SPEED;
use crate::collision::Collider;
use crate::collision::collision_check;
use crate::collision::resolved;
use crate::motion::Direction;
use crate::motion::Orientation;
use crate::motion::Point;
use crate::motion::input_heading;
use crate::motion::movement_input;
use crate::motion::player_movement;
use crate::motion::point_in_range;
use crate::motion::step_x;
use crate::motion::step_y;
use crate::patrol::Patrol;
use crate::patrol::enemy_movement;
use crate::patrol::heading_toward;
use crate::patrol::next_patrol;
use crate::patrol::patrol_after;
use crate::timing::FrameTimer;
use crate::timing::MAX_TICK_MS;

verus! {

/// Marker for the player entity.
#[derive(Clone, Copy, PartialEq, Eq, Structural, Debug)]
pub struct Player;

/// Marker for a patrol-driven knight entity.
#[derive(Clone, Copy, PartialEq, Eq, Structural, Debug)]
pub struct Knight;

/// Marker for a wall tile of the level's collision layer.
#[derive(Clone, Copy, PartialEq, Eq, Structural, Debug)]
pub struct Wall;

/// One simulation tick of the player: reads the direction keys into a
/// heading, cancels it against the colliders, and — when the frame gate
/// fires — integrates one unclamped step, records the orientation, and
/// resets the heading.
pub fn player_tick(
    pos: &mut Point,
    direction: &mut Direction,
    orientation: &mut Orientation,
    colliders: &Vec<Collider>,
    frame_timer: &mut FrameTimer,
    up: bool,
    down: bool,
    right: bool,
    left: bool,
    delta_ms: u64,
)
    requires
        point_in_range(*old(pos)),
        forall|i: int| 0 <= i < colliders@.len() ==> (#[trigger] colliders@[i]).wf(),
        old(frame_timer).0.wf(),
        delta_ms <= MAX_TICK_MS,
    ensures
        final(frame_timer).0.wf(),
        final(frame_timer).0.period_ms == old(frame_timer).0.period_ms,
        ({
            let d1 = input_heading(up, down, right, left, *old(direction));
            let d2 = resolved(*old(pos), d1, colliders@);
            let fired = old(frame_timer).0.elapsed_ms + delta_ms >= old(
                frame_timer,
            ).0.period_ms;
            if fired {
                &&& final(pos).x as int == step_x(*old(pos), d2, PLAYER_SPEED as int, None::<Point>)
                &&& final(pos).y as int == step_y(*old(pos), d2, PLAYER_SPEED as int, None::<Point>)
                &&& *final(direction) == Direction::Idle
                &&& *final(orientation) == if d2 == Direction::Idle {
                    *old(orientation)
                } else {
                    Orientation(d2)
                }
            } else {
                &&& *final(pos) == *old(pos)
                &&& *final(direction) == d2
                &&& *final(orientation) == *old(orientation)
            }
        }),
{
    *direction = movement_input(up, down, right, left, *direction);
    *direction = collision_check(pos, *direction, colliders);
    if frame_timer.0.tick(delta_ms) {
        player_movement(pos, direction, orientation);
    }
}

/// One simulation tick of a patrol entity: advances the patrol at the
/// current position, stores the derived heading, and — when the frame gate
/// fires — integrates one step clamped at the patrol's target waypoint.
pub fn enemy_tick(
    patrol: &mut Patrol,
    pos: &mut Point,
    direction: &mut Direction,
    frame_timer: &mut FrameTimer,
    delta_ms: u64,
)
    requires
        old(patrol).wf(),
        point_in_range(*old(pos)),
        old(frame_timer).0.wf(),
        delta_ms <= MAX_TICK_MS,
    ensures
        final(frame_timer).0.wf(),
        final(frame_timer).0.period_ms == old(frame_timer).0.period_ms,
        *final(patrol) == patrol_after(*old(patrol), *old(pos)),
        final(patrol).wf(),
        ({
            let d = if old(patrol).points@.len() <= 1 {
                *old(direction)
            } else {
                heading_toward(
                    *old(pos),
                    patrol_after(*old(patrol), *old(pos)).target(),
                    *old(direction),
                )
            };
            let fired = old(frame_timer).0.elapsed_ms + delta_ms >= old(
                frame_timer,
            ).0.period_ms;
            &&& *final(direction) == d
            &&& if fired {
                &&& final(pos).x as int == step_x(
                    *old(pos),
                    d,
                    ENEMY_SPEED as int,
                    Some(final(patrol).target()),
                )
                &&& final(pos).y as int == step_y(
                    *old(pos),
                    d,
                    ENEMY_SPEED as int,
                    Some(final(patrol).target()),
                )
            } else {
                *final(pos) == *old(pos)
            }
        }),
{
    *direction = next_patrol(patrol, *pos, *direction);
    if frame_timer.0.tick(delta_ms) {
        enemy_movement(pos, *direction, patrol);
    }
}

} // verus!
