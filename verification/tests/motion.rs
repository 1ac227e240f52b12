use concord::PLAYER_SPEED;
use concord::motion::Direction;
use concord::motion::Orientation;
use concord::motion::Point;
use concord::motion::integrate;
use concord::motion::movement_input;
use concord::motion::player_movement;

#[test]
fn no_key_keeps_current_heading() {
    let d = movement_input(false, false, false, false, Direction::Up);
    assert_eq!(d, Direction::Up);
}

#[test]
fn later_polled_keys_win() {
    assert_eq!(movement_input(true, false, false, true, Direction::Idle), Direction::Left);
    assert_eq!(movement_input(true, true, false, false, Direction::Idle), Direction::Down);
    assert_eq!(movement_input(false, false, true, false, Direction::Idle), Direction::Right);
    assert_eq!(movement_input(true, false, false, false, Direction::Idle), Direction::Up);
}

#[test]
fn clamped_step_lands_exactly_on_near_target() {
    // every distance strictly inside one step snaps to the target
    for d in 1..4i64 {
        let mut pos = Point { x: 0, y: 0 };
        let target = Point { x: d, y: 0 };
        integrate(&mut pos, Direction::Right, 4, Some(target));
        assert_eq!(pos, Point { x: d, y: 0 });
    }
    let mut pos = Point { x: 10, y: 20 };
    integrate(&mut pos, Direction::Down, 4, Some(Point { x: 10, y: 17 }));
    assert_eq!(pos, Point { x: 10, y: 17 });
}

#[test]
fn clamped_step_walks_full_speed_toward_far_target() {
    let mut pos = Point { x: 0, y: 0 };
    integrate(&mut pos, Direction::Right, 4, Some(Point { x: 100, y: 0 }));
    assert_eq!(pos, Point { x: 4, y: 0 });
}

#[test]
fn idle_heading_moves_nothing() {
    let mut pos = Point { x: 33, y: -7 };
    integrate(&mut pos, Direction::Idle, 4, None);
    assert_eq!(pos, Point { x: 33, y: -7 });
    integrate(&mut pos, Direction::Idle, 4, Some(Point { x: 0, y: 0 }));
    assert_eq!(pos, Point { x: 33, y: -7 });
}

#[test]
fn unclamped_step_moves_full_speed() {
    let mut pos = Point { x: 0, y: 0 };
    integrate(&mut pos, Direction::Up, PLAYER_SPEED, None);
    assert_eq!(pos, Point { x: 0, y: PLAYER_SPEED });
    integrate(&mut pos, Direction::Left, PLAYER_SPEED, None);
    assert_eq!(pos, Point { x: -PLAYER_SPEED, y: PLAYER_SPEED });
}

#[test]
fn player_movement_records_orientation_and_resets_heading() {
    let mut pos = Point { x: 0, y: 0 };
    let mut dir = Direction::Right;
    let mut orientation = Orientation(Direction::Down);
    player_movement(&mut pos, &mut dir, &mut orientation);
    assert_eq!(pos, Point { x: PLAYER_SPEED, y: 0 });
    assert_eq!(dir, Direction::Idle);
    assert_eq!(orientation, Orientation(Direction::Right));
}

#[test]
fn idle_player_movement_keeps_orientation() {
    let mut pos = Point { x: 5, y: 6 };
    let mut dir = Direction::Idle;
    let mut orientation = Orientation(Direction::Left);
    player_movement(&mut pos, &mut dir, &mut orientation);
    assert_eq!(pos, Point { x: 5, y: 6 });
    assert_eq!(dir, Direction::Idle);
    assert_eq!(orientation, Orientation(Direction::Left));
}
