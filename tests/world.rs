use karel::world::{
    enum_variant_eq, Action, ActionError, Config, Direction, Karel, Query, QueryError,
    ToggleWallError,
};

#[test]
fn config_default() {
    let config = Config::default();
    assert_eq!(config.gamefield_width, 10);
    assert_eq!(config.gamefield_height, 10);
    assert_eq!(config.maximum_items_on_ground, 8);
}

#[test]
fn config_new() {
    let config = Config::new(12, 8, 4);
    assert_eq!(config.gamefield_width, 12);
    assert_eq!(config.gamefield_height, 8);
    assert_eq!(config.maximum_items_on_ground, 4);
}

#[test]
fn karel_initialization() {
    let config = Config::default();
    let karel = Karel::new(config);
    assert!(enum_variant_eq(karel.read_karel().1, &Direction::North));
    assert_eq!(karel.read_karel().0, &(0, 0));
}

#[test]
fn karel_rotate() {
    let mut karel = Karel::new(Config::default());
    assert!(karel.action(Action::TurnLeft).is_ok());
    assert!(enum_variant_eq(karel.read_karel().1, &Direction::West));
    assert!(karel.action(Action::TurnLeft).is_ok());
    assert!(enum_variant_eq(karel.read_karel().1, &Direction::South));
    assert!(karel.action(Action::TurnLeft).is_ok());
    assert!(enum_variant_eq(karel.read_karel().1, &Direction::East));
    assert!(karel.action(Action::TurnLeft).is_ok());
    assert!(enum_variant_eq(karel.read_karel().1, &Direction::North));
    assert!(karel.action(Action::TurnLeft).is_ok());
    assert!(enum_variant_eq(karel.read_karel().1, &Direction::West));
}

#[test]
fn outofbounds_fail() {
    let mut karel = Karel::new(Config::default());
    assert!(enum_variant_eq(
        &QueryError::OutOfBounds,
        &karel.query(Query::WallInFrontOfMe).unwrap_err()
    ));
    assert!(enum_variant_eq(
        &ActionError::MoveOutOfBounds,
        &karel.action(Action::Move).unwrap_err()
    ));
}

#[test]
fn enum_variant_equals() {
    assert!(enum_variant_eq(&Direction::South, &Direction::South));
    assert_eq!(
        false,
        enum_variant_eq(&ActionError::ExceedItemLimit, &ActionError::MoveOutOfBounds)
    );
    assert!(enum_variant_eq(
        &Query::Direction(Direction::South),
        &Query::Direction(Direction::North)
    ));
    assert!(enum_variant_eq(
        &Query::Direction(Direction::West),
        &Query::Direction(Direction::West)
    ));
}

#[test]
fn new_grid_is_empty() {
    let karel = Karel::new(Config::new(3, 4, 2));
    assert_eq!(karel.read_gamemap(), &vec![0isize; 12]);
}

#[test]
fn set_then_get_in_bounds() {
    let mut karel = Karel::new(Config::new(3, 4, 8));
    assert_eq!(karel.set_gamefield((2, 3), 5), Ok(()));
    assert_eq!(karel.get_gamefield((2, 3)), Ok(5));
    assert_eq!(karel.read_gamemap()[4 * 2 + 3], 5);
    assert_eq!(karel.get_gamefield((2, 2)), Ok(0));
}

#[test]
fn get_and_set_out_of_bounds() {
    let mut karel = Karel::new(Config::new(3, 4, 8));
    assert_eq!(karel.get_gamefield((3, 0)), Err(QueryError::OutOfBounds));
    assert_eq!(karel.get_gamefield((0, 4)), Err(QueryError::OutOfBounds));
    assert_eq!(karel.set_gamefield((0, 4), 1), Err(QueryError::OutOfBounds));
    assert_eq!(karel.get_gamefield((1, 0)), Ok(0));
    assert_eq!(karel.get_gamefield((usize::MAX, usize::MAX)), Err(QueryError::OutOfBounds));
}

#[test]
fn toggle_wall_twice_restores() {
    let mut karel = Karel::new(Config::default());
    assert_eq!(karel.toggle_wall((1, 1)), Ok(()));
    assert_eq!(karel.get_gamefield((1, 1)), Ok(-1));
    assert_eq!(karel.toggle_wall((1, 1)), Ok(()));
    assert_eq!(karel.get_gamefield((1, 1)), Ok(0));
}

#[test]
fn toggle_wall_errors() {
    let mut karel = Karel::new(Config::default());
    assert_eq!(karel.toggle_wall((0, 0)), Err(ToggleWallError::KarelIsHere));
    assert_eq!(karel.toggle_wall((10, 0)), Err(ToggleWallError::OutOfBounds));
    assert_eq!(karel.set_gamefield((2, 2), 3), Ok(()));
    assert_eq!(karel.toggle_wall((2, 2)), Err(ToggleWallError::ItemOnGround));
    assert_eq!(karel.get_gamefield((2, 2)), Ok(3));
}

#[test]
fn place_until_limit() {
    let mut karel = Karel::new(Config::default());
    for expected in 1..=8 {
        assert_eq!(karel.action(Action::PlaceItem), Ok(()));
        assert_eq!(karel.get_gamefield((0, 0)), Ok(expected));
    }
    assert_eq!(karel.action(Action::PlaceItem), Err(ActionError::ExceedItemLimit));
    assert_eq!(karel.get_gamefield((0, 0)), Ok(8));
    assert_eq!(karel.query(Query::ItemHere), Ok(true));
    assert_eq!(karel.action(Action::RemoveItem), Ok(()));
    assert_eq!(karel.get_gamefield((0, 0)), Ok(7));
}

#[test]
fn remove_from_empty_tile() {
    let mut karel = Karel::new(Config::default());
    assert_eq!(karel.query(Query::ItemHere), Ok(false));
    assert_eq!(karel.action(Action::RemoveItem), Err(ActionError::NoItemHere));
    assert_eq!(karel.get_gamefield((0, 0)), Ok(0));
}

#[test]
fn move_into_wall_keeps_position() {
    let mut karel = Karel::new(Config::default());
    // Facing South, the tile ahead of (0, 0) is (0, 1).
    karel.action(Action::TurnLeft).unwrap();
    karel.action(Action::TurnLeft).unwrap();
    assert_eq!(karel.toggle_wall((0, 1)), Ok(()));
    assert_eq!(karel.query(Query::WallInFrontOfMe), Ok(true));
    assert_eq!(karel.action(Action::Move), Err(ActionError::MoveWall));
    assert_eq!(karel.read_karel().0, &(0, 0));
}

#[test]
fn move_in_each_direction() {
    let mut karel = Karel::new(Config::default());
    // South increases the column.
    karel.action(Action::TurnLeft).unwrap();
    karel.action(Action::TurnLeft).unwrap();
    assert_eq!(karel.action(Action::Move), Ok(()));
    assert_eq!(karel.read_karel().0, &(0, 1));
    // East after one more left turn decreases the row, which is 0.
    karel.action(Action::TurnLeft).unwrap();
    assert_eq!(karel.read_karel().1, &Direction::East);
    assert_eq!(karel.action(Action::Move), Err(ActionError::MoveOutOfBounds));
    // West increases the row.
    karel.action(Action::TurnLeft).unwrap();
    karel.action(Action::TurnLeft).unwrap();
    assert_eq!(karel.read_karel().1, &Direction::West);
    assert_eq!(karel.action(Action::Move), Ok(()));
    assert_eq!(karel.read_karel().0, &(1, 1));
    // North decreases the column.
    karel.action(Action::TurnLeft).unwrap();
    karel.action(Action::TurnLeft).unwrap();
    karel.action(Action::TurnLeft).unwrap();
    assert_eq!(karel.read_karel().1, &Direction::North);
    assert_eq!(karel.action(Action::Move), Ok(()));
    assert_eq!(karel.read_karel().0, &(1, 0));
}

#[test]
fn south_edge_is_out_of_bounds() {
    let mut karel = Karel::new(Config::new(2, 2, 1));
    karel.action(Action::TurnLeft).unwrap();
    karel.action(Action::TurnLeft).unwrap();
    assert_eq!(karel.action(Action::Move), Ok(()));
    assert_eq!(karel.query(Query::WallInFrontOfMe), Err(QueryError::OutOfBounds));
    assert_eq!(karel.action(Action::Move), Err(ActionError::MoveOutOfBounds));
    assert_eq!(karel.query(Query::Direction(Direction::South)), Ok(true));
    assert_eq!(karel.query(Query::Direction(Direction::North)), Ok(false));
}

#[test]
fn error_messages() {
    assert!(ActionError::MoveWall.message().contains("wall"));
    assert!(QueryError::OutOfBounds.message().contains("end of map"));
}

#[test]
fn render_draws_tiles() {
    let mut karel = Karel::new(Config::new(2, 3, 20));
    karel.set_gamefield((0, 1), 12).unwrap();
    karel.toggle_wall((1, 2)).unwrap();
    karel.set_gamefield((1, 0), 7).unwrap();
    let rows: Vec<String> = karel.render().iter().map(|r| r.iter().collect()).collect();
    assert_eq!(rows, vec!["▲12.", "7.#"]);
    karel.action(Action::TurnLeft).unwrap();
    let rows: Vec<String> = karel.render().iter().map(|r| r.iter().collect()).collect();
    assert_eq!(rows[0], "◀12.");
}
