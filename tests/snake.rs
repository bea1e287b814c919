use termflix::snake::{Dir, MoveOutcome, SnakeGame};

#[test]
fn dir_steps_and_opposites() {
    assert_eq!((Dir::Left.dx(), Dir::Left.dy()), (-1, 0));
    assert_eq!((Dir::Up.dx(), Dir::Up.dy()), (0, -1));
    assert_eq!(Dir::Up.opposite(), Dir::Down);
    assert_eq!(Dir::Right.opposite(), Dir::Left);
}

#[test]
fn new_game_starts_in_the_middle() {
    let g = SnakeGame::new(10, 12, (1, 1));
    assert_eq!(g.body, vec![(5, 6), (4, 6), (3, 6)]);
    assert_eq!(g.dir, Dir::Right);
    assert_eq!(g.score, 0);
}

#[test]
fn player_heads_for_food() {
    let g = SnakeGame::new(10, 10, (5, 1));
    // up brings the head from (5,5) closest to (5,1)
    assert_eq!(g.ai_choose_direction(), Dir::Up);
    let g = SnakeGame::new(10, 10, (9, 5));
    assert_eq!(g.ai_choose_direction(), Dir::Right);
    // food behind: reversing is not allowed, so up (tried first) wins the tie with down
    let g = SnakeGame::new(10, 10, (0, 5));
    assert_eq!(g.ai_choose_direction(), Dir::Up);
}

#[test]
fn snake_moves_eats_and_crashes() {
    let mut g = SnakeGame::new(10, 10, (6, 5));
    assert_eq!(g.advance(), MoveOutcome::Ate);
    assert_eq!(g.body, vec![(6, 5), (5, 5), (4, 5), (3, 5)]);
    assert_eq!(g.score, 1);
    g.place_food((8, 5));
    assert_eq!(g.advance(), MoveOutcome::Moved);
    assert_eq!(g.body, vec![(7, 5), (6, 5), (5, 5), (4, 5)]);
    g.place_food((9, 0));
    let mut outcome = MoveOutcome::Moved;
    for _ in 0..40 {
        outcome = g.advance();
        if outcome != MoveOutcome::Moved && outcome != MoveOutcome::Ate {
            break;
        }
        if outcome == MoveOutcome::Ate {
            g.place_food((0, 9));
        }
    }
    assert!(g.body.iter().all(|&(x, y)| (0..10).contains(&x) && (0..10).contains(&y)));
    let _ = outcome;
    g.reset((2, 2));
    assert_eq!(g.body, vec![(5, 5), (4, 5), (3, 5)]);
    assert_eq!(g.score, 0);
}
