//! Static colliders and the directional collision resolver.
//!
//! A collider is a world-space axis-aligned box. The resolver projects the
//! player's box one step along its heading, classifies every overlap by the
//! least-penetrated face, and cancels the heading only when that face blocks
//! movement in the heading's direction.
//!
//! Box tests run on doubled coordinates (`2 * center ± size`), so half-sizes
//! never need to divide and all arithmetic is exact.

use vstd::prelude::*;

use crate::ENTITY_BOX;
use crate::MAX_COORD;
use crate::PLAYER_SPEED;
use crate::grid::Rect;
use crate::motion::Direction;
use crate::motion::Point;
use crate::motion::point_in_range;

verus! {

/// Which face of a collider an overlapping box penetrates least: `Left`
/// means the moving box straddles the collider's left edge (a wall to the
/// mover's right), and so on; `Inside` means no single face is penetrated.
#[derive(Clone, Copy, PartialEq, Eq, Structural, Debug)]
pub enum Collision {
    Left,
    Right,
    Top,
    Bottom,
    Inside,
}

/// A world-space axis-aligned obstacle: a center position and a size per
/// axis, in subunits.
#[derive(Clone, Copy, PartialEq, Eq, Structural, Debug)]
pub struct Collider {
    pub center: Point,
    pub size_x: i64,
    pub size_y: i64,
}

impl Collider {
    /// A collider is well formed when its center is in range and its sizes
    /// are non-negative and in range.
    pub open spec fn wf(self) -> bool {
        point_in_range(self.center) && 0 <= self.size_x <= MAX_COORD && 0 <= self.size_y
            <= MAX_COORD
    }
}

/// Whether two spans, given by doubled lower and upper bounds, overlap in a
/// strictly interior way (sharing only an edge does not count).
pub open spec fn spans_overlap(amin: int, amax: int, bmin: int, bmax: int) -> bool {
    amin < bmax && amax > bmin
}

/// Whether the box centered at `(ax, ay)` with sizes `(aw, ah)` overlaps the
/// collider's box on both axes.
pub open spec fn boxes_overlap(ax: int, ay: int, aw: int, ah: int, c: Collider) -> bool {
    spans_overlap(2 * ax - aw, 2 * ax + aw, 2 * c.center.x - c.size_x, 2 * c.center.x + c.size_x)
        && spans_overlap(
        2 * ay - ah,
        2 * ay + ah,
        2 * c.center.y - c.size_y,
        2 * c.center.y + c.size_y,
    )
}

/// The face penetrated on one axis: `Some(true)` when the moving span
/// straddles the collider span's lower edge, `Some(false)` for the upper
/// edge, `None` when neither single edge is straddled.
pub open spec fn side_of(amin: int, amax: int, bmin: int, bmax: int) -> Option<bool> {
    if amin < bmin && amax > bmin && amax < bmax {
        Some(true)
    } else if amin > bmin && amin < bmax && amax > bmax {
        Some(false)
    } else {
        None
    }
}

/// The penetration depth on one axis, meaningful when `side_of` is `Some`.
pub open spec fn depth_of(amin: int, amax: int, bmin: int, bmax: int) -> int {
    if amin < bmin && amax > bmin && amax < bmax {
        amax - bmin
    } else {
        bmax - amin
    }
}

/// The overlap classification of the box centered at `(ax, ay)` with sizes
/// `(aw, ah)` against the collider: `None` without overlap; otherwise the
/// least-penetrated face, the x face winning ties, `Inside` when no single
/// face is penetrated on either axis.
pub open spec fn classify(ax: int, ay: int, aw: int, ah: int, c: Collider) -> Option<Collision> {
    let axmin = 2 * ax - aw;
    let axmax = 2 * ax + aw;
    let bxmin = 2 * c.center.x - c.size_x;
    let bxmax = 2 * c.center.x + c.size_x;
    let aymin = 2 * ay - ah;
    let aymax = 2 * ay + ah;
    let bymin = 2 * c.center.y - c.size_y;
    let bymax = 2 * c.center.y + c.size_y;
    if !boxes_overlap(ax, ay, aw, ah, c) {
        None
    } else {
        match (side_of(axmin, axmax, bxmin, bxmax), side_of(aymin, aymax, bymin, bymax)) {
            (Some(xlow), Some(ylow)) => {
                if depth_of(aymin, aymax, bymin, bymax) < depth_of(axmin, axmax, bxmin, bxmax) {
                    Some(
                        if ylow {
                            Collision::Bottom
                        } else {
                            Collision::Top
                        },
                    )
                } else {
                    Some(
                        if xlow {
                            Collision::Left
                        } else {
                            Collision::Right
                        },
                    )
                }
            },
            (Some(xlow), None) => Some(
                if xlow {
                    Collision::Left
                } else {
                    Collision::Right
                },
            ),
            (None, Some(ylow)) => Some(
                if ylow {
                    Collision::Bottom
                } else {
                    Collision::Top
                },
            ),
            (None, None) => Some(Collision::Inside),
        }
    }
}

/// The box-box overlap test between the box centered at `(ax, ay)` with
/// sizes `(aw, ah)` and a collider, classified by the least-penetrated face.
pub fn collide(ax: i64, ay: i64, aw: i64, ah: i64, c: &Collider) -> (r: Option<Collision>)
    requires
        -2 * MAX_COORD <= ax <= 2 * MAX_COORD,
        -2 * MAX_COORD <= ay <= 2 * MAX_COORD,
        0 <= aw <= MAX_COORD,
        0 <= ah <= MAX_COORD,
        c.wf(),
    ensures
        r == classify(ax as int, ay as int, aw as int, ah as int, *c),
{
    let axmin = 2 * ax - aw;
    let axmax = 2 * ax + aw;
    let bxmin = 2 * c.center.x - c.size_x;
    let bxmax = 2 * c.center.x + c.size_x;
    let aymin = 2 * ay - ah;
    let aymax = 2 * ay + ah;
    let bymin = 2 * c.center.y - c.size_y;
    let bymax = 2 * c.center.y + c.size_y;
    if !(axmin < bxmax && axmax > bxmin && aymin < bymax && aymax > bymin) {
        return None;
    }
    let x_low = axmin < bxmin && axmax > bxmin && axmax < bxmax;
    let x_high = axmin > bxmin && axmin < bxmax && axmax > bxmax;
    let y_low = aymin < bymin && aymax > bymin && aymax < bymax;
    let y_high = aymin > bymin && aymin < bymax && aymax > bymax;
    if x_low || x_high {
        if y_low || y_high {
            let x_depth = if x_low {
                axmax - bxmin
            } else {
                bxmax - axmin
            };
            let y_depth = if y_low {
                aymax - bymin
            } else {
                bymax - aymin
            };
            if y_depth < x_depth {
                Some(
                    if y_low {
                        Collision::Bottom
                    } else {
                        Collision::Top
                    },
                )
            } else {
                Some(
                    if x_low {
                        Collision::Left
                    } else {
                        Collision::Right
                    },
                )
            }
        } else {
            Some(
                if x_low {
                    Collision::Left
                } else {
                    Collision::Right
                },
            )
        }
    } else if y_low || y_high {
        Some(
            if y_low {
                Collision::Bottom
            } else {
                Collision::Top
            },
        )
    } else {
        Some(Collision::Inside)
    }
}

/// The x coordinate of the player's box projected one step along `d`.
pub open spec fn projected_x(p: Point, d: Direction) -> int {
    match d {
        Direction::Right => p.x + PLAYER_SPEED,
        Direction::Left => p.x - PLAYER_SPEED,
        _ => p.x as int,
    }
}

/// The y coordinate of the player's box projected one step along `d`.
pub open spec fn projected_y(p: Point, d: Direction) -> int {
    match d {
        Direction::Up => p.y + PLAYER_SPEED,
        Direction::Down => p.y - PLAYER_SPEED,
        _ => p.y as int,
    }
}

/// Whether a collider blocks heading `d` for the projected box at
/// `(px, py)`: the overlap must be classified exactly as the face opposing
/// the heading; a degenerate collider with a non-positive size never blocks.
pub open spec fn blocks(c: Collider, px: int, py: int, d: Direction) -> bool {
    &&& c.size_x > 0
    &&& c.size_y > 0
    &&& match d {
        Direction::Right => classify(px, py, ENTITY_BOX as int, ENTITY_BOX as int, c) == Some(
            Collision::Left,
        ),
        Direction::Left => classify(px, py, ENTITY_BOX as int, ENTITY_BOX as int, c) == Some(
            Collision::Right,
        ),
        Direction::Up => classify(px, py, ENTITY_BOX as int, ENTITY_BOX as int, c) == Some(
            Collision::Bottom,
        ),
        Direction::Down => classify(px, py, ENTITY_BOX as int, ENTITY_BOX as int, c) == Some(
            Collision::Top,
        ),
        Direction::Idle => false,
    }
}

/// The heading after collision resolution: cancelled to `Idle` exactly when
/// some collider blocks it for the projected box, kept otherwise.
pub open spec fn resolved(p: Point, d: Direction, cs: Seq<Collider>) -> Direction {
    if exists|i: int|
        0 <= i < cs.len() && blocks(#[trigger] cs[i], projected_x(p, d), projected_y(p, d), d) {
        Direction::Idle
    } else {
        d
    }
}

/// Resolves the player's heading for this tick against every collider:
/// projects the player's box one step along the heading and cancels the
/// heading if any overlap is classified as the opposing face. All colliders
/// are evaluated; once cancelled the heading stays cancelled.
pub fn collision_check(pos: &Point, direction: Direction, colliders: &Vec<Collider>) -> (r:
    Direction)
    requires
        point_in_range(*pos),
        forall|i: int| 0 <= i < colliders@.len() ==> (#[trigger] colliders@[i]).wf(),
    ensures
        r == resolved(*pos, direction, colliders@),
{
    let px: i64 = match direction {
        Direction::Right => pos.x + PLAYER_SPEED,
        Direction::Left => pos.x - PLAYER_SPEED,
        _ => pos.x,
    };
    let py: i64 = match direction {
        Direction::Up => pos.y + PLAYER_SPEED,
        Direction::Down => pos.y - PLAYER_SPEED,
        _ => pos.y,
    };
    let mut current = direction;
    let mut i: usize = 0;
    while i < colliders.len()
        invariant
            point_in_range(*pos),
            forall|k: int| 0 <= k < colliders@.len() ==> (#[trigger] colliders@[k]).wf(),
            0 <= i <= colliders@.len(),
            px as int == projected_x(*pos, direction),
            py as int == projected_y(*pos, direction),
            current == resolved(*pos, direction, colliders@.subrange(0, i as int)),
        decreases colliders@.len() - i,
    {
        let c = &colliders[i];
        if c.size_x > 0 && c.size_y > 0 {
            let hit = collide(px, py, ENTITY_BOX, ENTITY_BOX, c);
            match hit {
                Some(Collision::Left) => {
                    if matches!(current, Direction::Right) {
                        current = Direction::Idle;
                    }
                },
                Some(Collision::Right) => {
                    if matches!(current, Direction::Left) {
                        current = Direction::Idle;
                    }
                },
                Some(Collision::Top) => {
                    if matches!(current, Direction::Down) {
                        current = Direction::Idle;
                    }
                },
                Some(Collision::Bottom) => {
                    if matches!(current, Direction::Up) {
                        current = Direction::Idle;
                    }
                },
                Some(Collision::Inside) => {},
                None => {},
            }
        }
        proof {
            assert(colliders@.subrange(0, i + 1 as int).drop_last() =~= colliders@.subrange(
                0,
                i as int,
            ));
            assert(colliders@.subrange(0, i + 1 as int).last() == colliders@[i as int]);
        }
        i = i + 1;
    }
    proof {
        assert(colliders@.subrange(0, colliders@.len() as int) =~= colliders@);
    }
    current
}

/// Scales a compacted grid rectangle to a world-space collider: the box
/// spanning the rect's tiles, each tile `grid_size` subunits wide.
pub fn collider_of_rect(r: &Rect, grid_size: i64) -> (c: Collider)
    requires
        0 <= r.left <= r.right,
        0 <= r.bottom <= r.top,
        0 < grid_size,
        (r.right + 1) * grid_size <= MAX_COORD,
        (r.top + 1) * grid_size <= MAX_COORD,
    ensures
        c.center.x as int == (r.left + r.right + 1) * grid_size / 2,
        c.center.y as int == (r.bottom + r.top + 1) * grid_size / 2,
        c.size_x as int == (r.right - r.left + 1) * grid_size,
        c.size_y as int == (r.top - r.bottom + 1) * grid_size,
        c.wf(),
        c.size_x > 0,
        c.size_y > 0,
{
    proof {
        assert((r.left + r.right + 1) * grid_size <= 2 * ((r.right + 1) * grid_size) && (r.left
            + r.right + 1) * grid_size >= grid_size && (r.right - r.left + 1) * grid_size <= (
        r.right + 1) * grid_size && (r.right - r.left + 1) * grid_size >= grid_size)
            by (nonlinear_arith)
            requires
                0 <= r.left <= r.right,
                0 < grid_size,
        ;
        assert((r.bottom + r.top + 1) * grid_size <= 2 * ((r.top + 1) * grid_size) && (r.bottom
            + r.top + 1) * grid_size >= grid_size && (r.top - r.bottom + 1) * grid_size <= (r.top
            + 1) * grid_size && (r.top - r.bottom + 1) * grid_size >= grid_size)
            by (nonlinear_arith)
            requires
                0 <= r.bottom <= r.top,
                0 < grid_size,
        ;
    }
    let cx = (r.left as i64 + r.right as i64 + 1) * grid_size / 2;
    let cy = (r.bottom as i64 + r.top as i64 + 1) * grid_size / 2;
    let sx = (r.right as i64 - r.left as i64 + 1) * grid_size;
    let sy = (r.top as i64 - r.bottom as i64 + 1) * grid_size;
    Collider { center: Point { x: cx, y: cy }, size_x: sx, size_y: sy }
}

/// Collision blocking symmetry: a heading pointed at a collider whose
/// projected overlap straddles the collider's facing edge is cancelled,
/// while an entity wholly on the collider's low-x side moving further away
/// from it is never blocked by it.
pub proof fn lemma_blocking_symmetry(p: Point, c: Collider)
    requires
        c.wf(),
        c.size_x > 0,
        c.size_y > 0,
    ensures
        classify(
            projected_x(p, Direction::Right),
            projected_y(p, Direction::Right),
            ENTITY_BOX as int,
            ENTITY_BOX as int,
            c,
        ) == Some(Collision::Left) ==> resolved(p, Direction::Right, seq![c]) == Direction::Idle,
        2 * p.x + ENTITY_BOX <= 2 * c.center.x - c.size_x ==> resolved(p, Direction::Left, seq![c])
            == Direction::Left,
{
    let cs: Seq<Collider> = seq![c];
    if classify(
        projected_x(p, Direction::Right),
        projected_y(p, Direction::Right),
        ENTITY_BOX as int,
        ENTITY_BOX as int,
        c,
    ) == Some(Collision::Left) {
        assert(blocks(cs[0], projected_x(p, Direction::Right), projected_y(p, Direction::Right),
            Direction::Right));
    }
    if 2 * p.x + ENTITY_BOX <= 2 * c.center.x - c.size_x {
        let px = projected_x(p, Direction::Left);
        let py = projected_y(p, Direction::Left);
        assert(2 * px + ENTITY_BOX < 2 * c.center.x - c.size_x);
        assert(!boxes_overlap(px, py, ENTITY_BOX as int, ENTITY_BOX as int, c));
        assert(forall|i: int| 0 <= i < cs.len() ==> !blocks(#[trigger] cs[i], px, py,
            Direction::Left));
    }
}

} // verus!
