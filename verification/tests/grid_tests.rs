use canvas_vm::{CodelChooser, Direction, Grid, PietColor, Position};

#[test]
fn test_grid_creation() {
    let cells = vec![PietColor::Red; 9];
    let grid = Grid::new(3, 3, cells).unwrap();
    assert_eq!(grid.width(), 3);
    assert_eq!(grid.height(), 3);
}

#[test]
fn test_grid_get() {
    let cells = vec![
        PietColor::Red, PietColor::Blue, PietColor::Green,
        PietColor::Yellow, PietColor::White, PietColor::Black,
        PietColor::Red, PietColor::Red, PietColor::Red,
    ];
    let grid = Grid::new(3, 3, cells).unwrap();

    assert_eq!(grid.get(Position::new(0, 0)), Some(PietColor::Red));
    assert_eq!(grid.get(Position::new(1, 0)), Some(PietColor::Blue));
    assert_eq!(grid.get(Position::new(1, 1)), Some(PietColor::White));
    assert_eq!(grid.get(Position::new(3, 3)), None);
}

#[test]
fn test_find_block() {
    let cells = vec![
        PietColor::Red, PietColor::Red, PietColor::Blue,
        PietColor::Red, PietColor::Blue, PietColor::Blue,
        PietColor::Green, PietColor::Blue, PietColor::Blue,
    ];
    let grid = Grid::new(3, 3, cells).unwrap();

    let block = grid.find_block(Position::new(0, 0));
    assert_eq!(block.len(), 3);
    assert!(block.contains(&Position::new(0, 0)));
    assert!(block.contains(&Position::new(1, 0)));
    assert!(block.contains(&Position::new(0, 1)));
}

#[test]
fn test_find_exit() {
    let cells = vec![
        PietColor::Red, PietColor::Red, PietColor::Blue,
        PietColor::Red, PietColor::Blue, PietColor::Blue,
        PietColor::Green, PietColor::Blue, PietColor::Blue,
    ];
    let grid = Grid::new(3, 3, cells).unwrap();

    let block = grid.find_block(Position::new(0, 0));

    let exit = grid.find_exit(&block, Direction::Right, CodelChooser::Left);
    assert_eq!(exit, Some(Position::new(1, 0)));
}

#[test]
fn test_detect_codel_size_1px() {
    let rgba = vec![
        255, 0, 0, 255,  0, 255, 0, 255,  0, 0, 255, 255,
        255, 255, 0, 255,  255, 255, 255, 255,  0, 0, 0, 255,
        0, 0, 0, 255,  255, 0, 0, 255,  0, 255, 0, 255,
    ];
    let cs = Grid::detect_codel_size_from_rgba(3, 3, &rgba);
    assert_eq!(cs, 1);
}

#[test]
fn test_detect_codel_size_2px() {
    let rgba = vec![
        255, 0, 0, 255,  255, 0, 0, 255,  0, 0, 255, 255,  0, 0, 255, 255,
        255, 0, 0, 255,  255, 0, 0, 255,  0, 0, 255, 255,  0, 0, 255, 255,
        0, 255, 0, 255,  0, 255, 0, 255,  255, 255, 0, 255,  255, 255, 0, 255,
        0, 255, 0, 255,  0, 255, 0, 255,  255, 255, 0, 255,  255, 255, 0, 255,
    ];
    let cs = Grid::detect_codel_size_from_rgba(4, 4, &rgba);
    assert_eq!(cs, 2);
}

#[test]
fn test_grid_from_rgba_with_codel_size() {
    let rgba = vec![
        255, 0, 0, 255,  255, 0, 0, 255,  0, 0, 255, 255,  0, 0, 255, 255,
        255, 0, 0, 255,  255, 0, 0, 255,  0, 0, 255, 255,  0, 0, 255, 255,
        0, 255, 0, 255,  0, 255, 0, 255,  255, 255, 0, 255,  255, 255, 0, 255,
        0, 255, 0, 255,  0, 255, 0, 255,  255, 255, 0, 255,  255, 255, 0, 255,
    ];

    let grid = Grid::from_rgba_with_codel_size(4, 4, &rgba, Some(2)).unwrap();
    assert_eq!(grid.width(), 2);
    assert_eq!(grid.height(), 2);
    assert_eq!(grid.get(Position::new(0, 0)), Some(PietColor::Red));
    assert_eq!(grid.get(Position::new(1, 0)), Some(PietColor::Blue));
    assert_eq!(grid.get(Position::new(0, 1)), Some(PietColor::Green));
    assert_eq!(grid.get(Position::new(1, 1)), Some(PietColor::Yellow));
}

#[test]
fn test_grid_from_rgba_auto_detect() {
    let rgba = vec![
        255, 0, 0, 255,  255, 0, 0, 255,  0, 0, 255, 255,  0, 0, 255, 255,
        255, 0, 0, 255,  255, 0, 0, 255,  0, 0, 255, 255,  0, 0, 255, 255,
        0, 255, 0, 255,  0, 255, 0, 255,  255, 255, 0, 255,  255, 255, 0, 255,
        0, 255, 0, 255,  0, 255, 0, 255,  255, 255, 0, 255,  255, 255, 0, 255,
    ];

    let grid = Grid::from_rgba_with_codel_size(4, 4, &rgba, None).unwrap();
    assert_eq!(grid.width(), 2);
    assert_eq!(grid.height(), 2);
}

#[test]
fn test_block_partition_and_exits() {
    // every codel of a block reports the same id, and exits step one codel out
    let cells = vec![
        PietColor::Red, PietColor::Red, PietColor::Blue,
        PietColor::Red, PietColor::Blue, PietColor::Blue,
        PietColor::Green, PietColor::Blue, PietColor::Blue,
    ];
    let grid = Grid::new(3, 3, cells).unwrap();
    let b0 = grid.get_block_id(Position::new(0, 0)).unwrap();
    assert_eq!(grid.get_block_id(Position::new(1, 0)).unwrap(), b0);
    assert_eq!(grid.get_block_id(Position::new(0, 1)).unwrap(), b0);
    let info = grid.get_block_info(b0).unwrap();
    assert_eq!(info.size, 3);
    assert_eq!(info.color, PietColor::Red);
    // DP Right, CC Left: exit codel (1,0), neighbor one step right
    assert_eq!(grid.get_exit(b0, Direction::Right, CodelChooser::Left), Some(Position::new(2, 0)));
    // DP Down, CC Left: exit codel (0,1), neighbor one step down
    assert_eq!(grid.get_exit(b0, Direction::Down, CodelChooser::Left), Some(Position::new(0, 2)));
    // DP Up from the top row would leave the grid
    assert_eq!(grid.get_exit(b0, Direction::Up, CodelChooser::Left), None);
}

#[test]
fn test_detection_gcd_of_runs() {
    // 6x2, uniform 2x2 tiles of three colors: runs of 2 everywhere, and the
    // probed size 2 divides both dimensions with uniform tiles
    let red = [255u8, 0, 0, 255];
    let green = [0u8, 255, 0, 255];
    let blue = [0u8, 0, 255, 255];
    let mut rgba: Vec<u8> = Vec::new();
    for _ in 0..2 {
        for color in [red, green, blue] {
            for _ in 0..2 {
                rgba.extend_from_slice(&color);
            }
        }
    }
    let cs = Grid::detect_codel_size_from_rgba(6, 2, &rgba);
    assert_eq!(cs, 2);
}
