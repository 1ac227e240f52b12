use concord::motion::Direction;
use concord::motion::Point;
use concord::patrol::Patrol;
use concord::patrol::enemy_movement;
use concord::patrol::next_patrol;

fn point(x: i64, y: i64) -> Point {
    Point { x, y }
}

#[test]
fn new_patrol_starts_toward_second_waypoint() {
    let p = Patrol::new(point(0, 0), vec![point(10, 0), point(20, 0)]);
    assert_eq!(p.points, vec![point(0, 0), point(10, 0), point(20, 0)]);
    assert_eq!(p.index, 1);
    assert!(p.forward);
}

#[test]
fn new_patrol_without_extra_waypoints_stays_on_spawn() {
    let p = Patrol::new(point(3, 4), Vec::new());
    assert_eq!(p.points, vec![point(3, 4)]);
    assert_eq!(p.index, 0);
}

#[test]
fn ping_pong_reverses_exactly_at_both_ends() {
    let a = point(0, 0);
    let b = point(10, 0);
    let c = point(20, 0);
    let mut patrol = Patrol { points: vec![a, b, c], index: 1, forward: true };

    // arriving at B mid-list moving forward: cursor advances to C
    let d = next_patrol(&mut patrol, b, Direction::Idle);
    assert_eq!((patrol.index, patrol.forward), (2, true));
    assert_eq!(d, Direction::Right);

    // arriving at C, the last waypoint: cursor turns back toward B
    let d = next_patrol(&mut patrol, c, Direction::Idle);
    assert_eq!((patrol.index, patrol.forward), (1, false));
    assert_eq!(d, Direction::Left);

    // arriving at B moving backward: cursor continues to A
    let d = next_patrol(&mut patrol, b, Direction::Idle);
    assert_eq!((patrol.index, patrol.forward), (0, false));
    assert_eq!(d, Direction::Left);

    // arriving at A, the first waypoint: cursor turns forward toward B
    let d = next_patrol(&mut patrol, a, Direction::Idle);
    assert_eq!((patrol.index, patrol.forward), (1, true));
    assert_eq!(d, Direction::Right);

    // and forward again toward C
    let d = next_patrol(&mut patrol, b, Direction::Idle);
    assert_eq!((patrol.index, patrol.forward), (2, true));
    assert_eq!(d, Direction::Right);
}

#[test]
fn cursor_stays_in_range_over_many_ticks() {
    let pts = vec![point(0, 0), point(6, 0), point(6, 6)];
    let mut patrol = Patrol { points: pts.clone(), index: 1, forward: true };
    let mut pos = point(0, 0);
    let mut dir = Direction::Idle;
    for _ in 0..500 {
        dir = next_patrol(&mut patrol, pos, dir);
        assert!(patrol.index < patrol.points.len());
        enemy_movement(&mut pos, dir, &patrol);
    }
}

#[test]
fn waypoint_short_of_a_step_is_hit_exactly() {
    let pts = vec![point(0, 0), point(3, 0)];
    let patrol = Patrol { points: pts, index: 1, forward: true };
    let mut pos = point(2, 0);
    // one third of a pixel from the waypoint: the two-subunit step clamps
    enemy_movement(&mut pos, Direction::Right, &patrol);
    assert_eq!(pos, point(3, 0));
}

#[test]
fn single_waypoint_patrol_is_stationary() {
    let mut patrol = Patrol::new(point(5, 5), Vec::new());
    let d = next_patrol(&mut patrol, point(5, 5), Direction::Idle);
    assert_eq!(d, Direction::Idle);
    assert_eq!(patrol.index, 0);
}

#[test]
fn heading_corrects_x_before_y() {
    let mut patrol = Patrol { points: vec![point(0, 0), point(10, 10)], index: 1, forward: true };
    let d = next_patrol(&mut patrol, point(0, 0), Direction::Idle);
    assert_eq!(d, Direction::Right);
    let d = next_patrol(&mut patrol, point(10, 0), Direction::Idle);
    assert_eq!(d, Direction::Up);
}
