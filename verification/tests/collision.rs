use concord::TILE_SIZE;
use concord::collision::Collider;
use concord::collision::collider_of_rect;
use concord::collision::collision_check;
use concord::grid::Rect;
use concord::motion::Direction;
use concord::motion::Point;

fn wall_tile(x: i32, y: i32) -> Collider {
    collider_of_rect(&Rect { left: x, right: x, top: y, bottom: y }, TILE_SIZE)
}

#[test]
fn collider_of_rect_scales_to_world_units() {
    let c = collider_of_rect(&Rect { left: 1, right: 2, top: 0, bottom: 0 }, TILE_SIZE);
    assert_eq!(c.center, Point { x: 192, y: 48 });
    assert_eq!((c.size_x, c.size_y), (192, 96));
}

#[test]
fn approaching_wall_from_the_left_blocks_rightward_movement() {
    let wall = wall_tile(1, 0);
    let pos = Point { x: 48, y: 48 };
    let d = collision_check(&pos, Direction::Right, &vec![wall]);
    assert_eq!(d, Direction::Idle);
}

#[test]
fn moving_away_from_the_wall_is_never_blocked() {
    let wall = wall_tile(1, 0);
    let pos = Point { x: 48, y: 48 };
    let d = collision_check(&pos, Direction::Left, &vec![wall]);
    assert_eq!(d, Direction::Left);
}

#[test]
fn blocking_is_symmetric_on_the_other_side() {
    let wall = wall_tile(1, 0);
    let pos = Point { x: 240, y: 48 };
    assert_eq!(collision_check(&pos, Direction::Left, &vec![wall]), Direction::Idle);
    assert_eq!(collision_check(&pos, Direction::Right, &vec![wall]), Direction::Right);
}

#[test]
fn vertical_blocking_matches_the_penetrated_face() {
    let wall = wall_tile(0, 1);
    let below = Point { x: 48, y: 48 };
    assert_eq!(collision_check(&below, Direction::Up, &vec![wall]), Direction::Idle);
    assert_eq!(collision_check(&below, Direction::Down, &vec![wall]), Direction::Down);
    let above = Point { x: 48, y: 240 };
    assert_eq!(collision_check(&above, Direction::Down, &vec![wall]), Direction::Idle);
    assert_eq!(collision_check(&above, Direction::Up, &vec![wall]), Direction::Up);
}

#[test]
fn full_overlap_is_not_actionable() {
    let huge = Collider { center: Point { x: 0, y: 0 }, size_x: 2000, size_y: 2000 };
    let pos = Point { x: 0, y: 0 };
    assert_eq!(collision_check(&pos, Direction::Right, &vec![huge]), Direction::Right);
}

#[test]
fn degenerate_collider_is_skipped() {
    let empty = Collider { center: Point { x: 48, y: 48 }, size_x: 0, size_y: 0 };
    let pos = Point { x: 48, y: 48 };
    assert_eq!(collision_check(&pos, Direction::Right, &vec![empty]), Direction::Right);
}

#[test]
fn any_blocking_collider_cancels_even_after_harmless_ones() {
    let far = wall_tile(20, 20);
    let wall = wall_tile(1, 0);
    let pos = Point { x: 48, y: 48 };
    let d = collision_check(&pos, Direction::Right, &vec![far, wall]);
    assert_eq!(d, Direction::Idle);
}

#[test]
fn idle_heading_stays_idle() {
    let wall = wall_tile(1, 0);
    let pos = Point { x: 48, y: 48 };
    assert_eq!(collision_check(&pos, Direction::Idle, &vec![wall]), Direction::Idle);
}
