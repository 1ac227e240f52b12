use concord::TILE_SIZE;
use concord::collision::collider_of_rect;
use concord::grid::Rect;
use concord::motion::Direction;
use concord::motion::Orientation;
use concord::motion::Point;
use concord::patrol::Patrol;
use concord::systems::enemy_tick;
use concord::systems::player_tick;
use concord::timing::FrameTimer;

#[test]
fn player_walks_right_until_the_wall_stops_it() {
    let wall = collider_of_rect(&Rect { left: 3, right: 3, top: 0, bottom: 0 }, TILE_SIZE);
    let colliders = vec![wall];
    let mut pos = Point { x: 48, y: 48 };
    let mut dir = Direction::Idle;
    let mut orientation = Orientation(Direction::Down);
    let mut timer = FrameTimer::default();
    for _ in 0..200 {
        player_tick(
            &mut pos,
            &mut dir,
            &mut orientation,
            &colliders,
            &mut timer,
            false,
            false,
            true,
            false,
            17,
        );
    }
    // the wall tile spans x in [288, 384); with a 90-subunit box the player
    // stops as soon as a further step would cut into it
    assert!(pos.x < 288);
    assert!(pos.x > 48);
    assert_eq!(pos.y, 48);
    let stopped = pos;
    player_tick(
        &mut pos,
        &mut dir,
        &mut orientation,
        &colliders,
        &mut timer,
        false,
        false,
        true,
        false,
        17,
    );
    assert_eq!(pos, stopped);
    assert_eq!(orientation, Orientation(Direction::Right));
}

#[test]
fn idle_player_tick_moves_nothing() {
    let colliders = Vec::new();
    let mut pos = Point { x: 0, y: 0 };
    let mut dir = Direction::Idle;
    let mut orientation = Orientation(Direction::Down);
    let mut timer = FrameTimer::default();
    player_tick(
        &mut pos,
        &mut dir,
        &mut orientation,
        &colliders,
        &mut timer,
        false,
        false,
        false,
        false,
        17,
    );
    assert_eq!(pos, Point { x: 0, y: 0 });
    assert_eq!(orientation, Orientation(Direction::Down));
}

#[test]
fn enemy_ping_pongs_between_its_waypoints() {
    let a = Point { x: 0, y: 0 };
    let b = Point { x: 8, y: 0 };
    let mut patrol = Patrol::new(a, vec![b]);
    let mut pos = a;
    let mut dir = Direction::Idle;
    let mut timer = FrameTimer::default();
    let mut reached_b = false;
    let mut back_at_a = false;
    for _ in 0..40 {
        enemy_tick(&mut patrol, &mut pos, &mut dir, &mut timer, 17);
        assert!(patrol.index < patrol.points.len());
        assert!(0 <= pos.x && pos.x <= 8);
        if pos == b {
            reached_b = true;
        }
        if reached_b && pos == a {
            back_at_a = true;
        }
    }
    // at two subunits per tick the enemy crosses the eight-subunit patrol
    // both ways well within forty ticks, landing exactly on each endpoint
    assert!(reached_b && back_at_a);
}
