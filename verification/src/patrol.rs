//! Waypoint patrols with ping-pong traversal, and the clamped enemy step.

use vstd::prelude::*;

use crate::ENEMY_SPEED;
use crate::motion::Direction;
use crate::motion::Point;
use crate::motion::integrate;
use crate::motion::point_in_range;
use crate::motion::step_x;
use crate::motion::step_y;

verus! {

/// An ordered waypoint path owned by one entity: a cursor into the
/// waypoints and the current direction of travel along the list. The first
/// waypoint is the entity's spawn position.
#[derive(Clone, PartialEq, Debug)]
pub struct Patrol {
    pub points: Vec<Point>,
    pub index: usize,
    pub forward: bool,
}

/// An event value carrying the patrol whose waypoint was just reached.
pub struct PatrolPointReached(pub Patrol);

impl Patrol {
    /// A patrol is well formed when it has at least one waypoint, its
    /// cursor indexes a waypoint, and every waypoint is in range.
    pub open spec fn wf(self) -> bool {
        &&& 1 <= self.points@.len()
        &&& self.index < self.points@.len()
        &&& forall|i: int| 0 <= i < self.points@.len() ==> point_in_range(#[trigger] self.points@[i])
    }

    /// The waypoint the patrol currently steers toward.
    pub open spec fn target(self) -> Point {
        self.points@[self.index as int]
    }

    /// Builds a patrol from a spawn position and the further waypoints read
    /// from level data: the spawn is always the first waypoint, and the
    /// cursor starts on the second waypoint when there is one.
    pub fn new(spawn: Point, rest: Vec<Point>) -> (p: Patrol)
        requires
            point_in_range(spawn),
            forall|i: int| 0 <= i < rest@.len() ==> point_in_range(#[trigger] rest@[i]),
            rest@.len() < usize::MAX,
        ensures
            p.points@ == seq![spawn] + rest@,
            p.index == if rest@.len() == 0 {
                0int
            } else {
                1int
            },
            p.forward,
            p.wf(),
    {
        let mut points: Vec<Point> = Vec::new();
        points.push(spawn);
        let mut i: usize = 0;
        while i < rest.len()
            invariant
                0 <= i <= rest@.len(),
                points@ == seq![spawn] + rest@.subrange(0, i as int),
                forall|k: int| 0 <= k < rest@.len() ==> point_in_range(#[trigger] rest@[k]),
                point_in_range(spawn),
            decreases rest@.len() - i,
        {
            points.push(rest[i]);
            proof {
                assert(points@ =~= seq![spawn] + rest@.subrange(0, i + 1 as int));
            }
            i = i + 1;
        }
        proof {
            assert(rest@.subrange(0, rest@.len() as int) =~= rest@);
        }
        let index: usize = if points.len() > 1 {
            1
        } else {
            0
        };
        Patrol { points, index, forward: true }
    }
}

/// The cursor and travel direction after one arrival check at `pos`: when
/// the position has reached the current target the cursor advances, turning
/// around exactly at the two ends of the list; otherwise nothing changes.
/// A single-waypoint patrol never changes.
pub open spec fn patrol_after(p: Patrol, pos: Point) -> Patrol {
    if p.points@.len() <= 1 || pos != p.target() {
        p
    } else if p.index == p.points@.len() - 1 {
        Patrol { index: (p.index - 1) as usize, forward: false, ..p }
    } else if p.index == 0 {
        Patrol { index: 1, forward: true, ..p }
    } else if p.forward {
        Patrol { index: (p.index + 1) as usize, ..p }
    } else {
        Patrol { index: (p.index - 1) as usize, ..p }
    }
}

/// The axis-aligned heading from `pos` toward `target`: the x axis is
/// corrected first, then the y axis, one axis per tick; when the two points
/// coincide the previous heading `current` is kept.
pub open spec fn heading_toward(pos: Point, target: Point, current: Direction) -> Direction {
    if target.x > pos.x {
        Direction::Right
    } else if target.x < pos.x {
        Direction::Left
    } else if target.y > pos.y {
        Direction::Up
    } else if target.y < pos.y {
        Direction::Down
    } else {
        current
    }
}

/// Advances a patrol at position `pos` and derives the heading for this
/// tick: on arrival at the current target the cursor steps along the list,
/// reversing direction at either end; the returned heading steers toward
/// the (possibly updated) target. A single-waypoint patrol is stationary:
/// it keeps `current` unchanged.
pub fn next_patrol(patrol: &mut Patrol, pos: Point, current: Direction) -> (d: Direction)
    requires
        old(patrol).wf(),
    ensures
        *final(patrol) == patrol_after(*old(patrol), pos),
        final(patrol).wf(),
        d == if old(patrol).points@.len() <= 1 {
            current
        } else {
            heading_toward(pos, patrol_after(*old(patrol), pos).target(), current)
        },
{
    if patrol.points.len() > 1 {
        let target = patrol.points[patrol.index];
        if pos.x == target.x && pos.y == target.y {
            if patrol.index == patrol.points.len() - 1 {
                patrol.index = patrol.index - 1;
                patrol.forward = false;
            } else if patrol.index == 0 {
                patrol.index = patrol.index + 1;
                patrol.forward = true;
            } else if patrol.forward {
                patrol.index = patrol.index + 1;
            } else {
                patrol.index = patrol.index - 1;
            }
        }
        let goal = patrol.points[patrol.index];
        if goal.x > pos.x {
            Direction::Right
        } else if goal.x < pos.x {
            Direction::Left
        } else if goal.y > pos.y {
            Direction::Up
        } else if goal.y < pos.y {
            Direction::Down
        } else {
            current
        }
    } else {
        current
    }
}

/// Moves a patrol entity one clamped step along `direction` toward the
/// patrol's current target waypoint, so that it lands exactly on the
/// waypoint rather than stepping past it.
pub fn enemy_movement(pos: &mut Point, direction: Direction, patrol: &Patrol)
    requires
        point_in_range(*old(pos)),
        patrol.wf(),
    ensures
        final(pos).x as int == step_x(
            *old(pos),
            direction,
            ENEMY_SPEED as int,
            Some(patrol.target()),
        ),
        final(pos).y as int == step_y(
            *old(pos),
            direction,
            ENEMY_SPEED as int,
            Some(patrol.target()),
        ),
{
    let target = patrol.points[patrol.index];
    integrate(pos, direction, ENEMY_SPEED, Some(target));
}

/// Patrol ping-pong: the cursor never leaves the waypoint range, and the
/// travel direction flips exactly at the two endpoints — on arrival at the
/// last waypoint the cursor steps back and travel turns backward, on
/// arrival at the first it steps forward and travel turns forward, and on
/// arrival at an interior waypoint it keeps its travel direction.
pub proof fn lemma_patrol_ping_pong(p: Patrol, pos: Point)
    requires
        p.wf(),
        p.points@.len() >= 2,
        pos == p.target(),
    ensures
        patrol_after(p, pos).wf(),
        0 <= patrol_after(p, pos).index < p.points@.len(),
        p.index == p.points@.len() - 1 ==> !patrol_after(p, pos).forward && patrol_after(
            p,
            pos,
        ).index == p.index - 1,
        p.index == 0 ==> patrol_after(p, pos).forward && patrol_after(p, pos).index == 1,
        0 < p.index < p.points@.len() - 1 ==> patrol_after(p, pos).forward == p.forward
            && patrol_after(p, pos).index == if p.forward {
            p.index + 1
        } else {
            p.index - 1
        },
{
    assert(p.points.len() == p.points@.len());
}

} // verus!
