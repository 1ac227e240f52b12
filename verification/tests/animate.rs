use concord::animate::animate_player_movement;
use concord::motion::Direction;
use concord::motion::Orientation;

#[test]
fn walking_cycles_through_the_facing_row() {
    assert_eq!(animate_player_movement(Direction::Left, Orientation(Direction::Down), 0), 8);
    assert_eq!(animate_player_movement(Direction::Left, Orientation(Direction::Down), 8), 9);
    assert_eq!(animate_player_movement(Direction::Left, Orientation(Direction::Down), 10), 11);
    assert_eq!(animate_player_movement(Direction::Left, Orientation(Direction::Down), 11), 8);
    assert_eq!(animate_player_movement(Direction::Right, Orientation(Direction::Down), 12), 13);
    assert_eq!(animate_player_movement(Direction::Up, Orientation(Direction::Down), 6), 7);
    assert_eq!(animate_player_movement(Direction::Down, Orientation(Direction::Down), 2), 3);
    assert_eq!(animate_player_movement(Direction::Down, Orientation(Direction::Down), 3), 0);
}

#[test]
fn idle_snaps_to_the_orientation_row() {
    assert_eq!(animate_player_movement(Direction::Idle, Orientation(Direction::Right), 13), 12);
    assert_eq!(animate_player_movement(Direction::Idle, Orientation(Direction::Left), 3), 8);
    assert_eq!(animate_player_movement(Direction::Idle, Orientation(Direction::Up), 0), 4);
    assert_eq!(animate_player_movement(Direction::Idle, Orientation(Direction::Down), 15), 0);
}

#[test]
fn idle_without_orientation_snaps_to_the_row_start() {
    assert_eq!(animate_player_movement(Direction::Idle, Orientation(Direction::Idle), 7), 4);
    assert_eq!(animate_player_movement(Direction::Idle, Orientation(Direction::Idle), 16), 16);
}
