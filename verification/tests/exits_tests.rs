use canvas_vm::{CodelChooser, Direction, Position};

#[test]
fn test_direction_rotation() {
    assert_eq!(Direction::Right.rotate_clockwise(1), Direction::Down);
    assert_eq!(Direction::Down.rotate_clockwise(1), Direction::Left);
    assert_eq!(Direction::Left.rotate_clockwise(1), Direction::Up);
    assert_eq!(Direction::Up.rotate_clockwise(1), Direction::Right);

    assert_eq!(Direction::Right.rotate_clockwise(4), Direction::Right);
    assert_eq!(Direction::Right.rotate_clockwise(-1), Direction::Up);
}

#[test]
fn test_direction_delta() {
    assert_eq!(Direction::Right.delta(), (1, 0));
    assert_eq!(Direction::Down.delta(), (0, 1));
    assert_eq!(Direction::Left.delta(), (-1, 0));
    assert_eq!(Direction::Up.delta(), (0, -1));
}

#[test]
fn test_codel_chooser_toggle() {
    assert_eq!(CodelChooser::Left.toggle(), CodelChooser::Right);
    assert_eq!(CodelChooser::Right.toggle(), CodelChooser::Left);
}

#[test]
fn test_position_step() {
    let pos = Position::new(5, 5);
    assert_eq!(pos.step(Direction::Right, 10, 10), Some(Position::new(6, 5)));
    assert_eq!(pos.step(Direction::Down, 10, 10), Some(Position::new(5, 6)));
    assert_eq!(pos.step(Direction::Left, 10, 10), Some(Position::new(4, 5)));
    assert_eq!(pos.step(Direction::Up, 10, 10), Some(Position::new(5, 4)));

    let edge = Position::new(0, 0);
    assert_eq!(edge.step(Direction::Left, 10, 10), None);
    assert_eq!(edge.step(Direction::Up, 10, 10), None);
}
