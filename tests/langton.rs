use termflix::langton::{Direction, Langton};

#[test]
fn directions_turn_and_step() {
    assert_eq!(Direction::Up.turn_right(), Direction::Right);
    assert_eq!(Direction::Up.turn_left(), Direction::Left);
    assert_eq!(Direction::Left.turn_left(), Direction::Down);
    assert_eq!((Direction::Left.dx(), Direction::Left.dy()), (-1, 0));
    assert_eq!((Direction::Down.dx(), Direction::Down.dy()), (0, 1));
    assert_eq!(Direction::from_index(2), Direction::Down);
    assert_eq!(Direction::from_index(9), Direction::Left);
}

#[test]
fn ant_turns_flips_and_wraps() {
    let mut l = Langton::new(3, 2, 1, 2, 0, Direction::Up);
    // white cell: turn right, paint black, step off the right edge and wrap
    l.step();
    assert!(l.grid[2]);
    assert_eq!(l.ant_dir, Direction::Right);
    assert_eq!((l.ant_x, l.ant_y), (0, 0));
    l.step();
    assert!(l.grid[0]);
    assert_eq!(l.ant_dir, Direction::Down);
    assert_eq!((l.ant_x, l.ant_y), (0, 1));
    l.advance();
    assert_eq!((l.steps, l.total_steps), (1, 1));
    assert!(!l.needs_reset(3, 2));
    assert!(l.needs_reset(4, 2));
}

#[test]
fn ant_on_black_turns_left_and_clears() {
    let mut l = Langton::new(2, 2, 0, 0, 0, Direction::Up);
    l.grid[0] = true;
    l.step();
    assert!(!l.grid[0]);
    assert_eq!(l.ant_dir, Direction::Left);
    assert_eq!((l.ant_x, l.ant_y), (1, 0));
}
