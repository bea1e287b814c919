use termflix::life::{count_alive, count_neighbors, life_step, GameOfLife, LifeEvent};

fn board(rows: &[&str]) -> Vec<bool> {
    rows.iter().flat_map(|r| r.chars().map(|c| c == '#')).collect()
}

#[test]
fn neighbors_wrap_around_edges() {
    let cells = board(&["#...", "....", "...#"]);
    assert_eq!(count_neighbors(&cells, 4, 3, 3, 0), 2);
    assert_eq!(count_neighbors(&cells, 4, 3, 1, 1), 1);
    assert_eq!(count_neighbors(&cells, 4, 3, 0, 0), 1);
}

#[test]
fn blinker_oscillates() {
    let cells = board(&[".....", "..#..", "..#..", "..#..", "....."]);
    let next = life_step(&cells, 5, 5);
    assert_eq!(next, board(&[".....", ".....", ".###.", ".....", "....."]));
    assert_eq!(life_step(&next, 5, 5), cells);
    assert_eq!(count_alive(&next), 3);
}

#[test]
fn dead_board_restarts_and_pattern_is_injected() {
    let mut g = GameOfLife::new(4, 4, vec![false; 16]);
    assert_eq!(g.step(), LifeEvent::Restart);
    let mut g = GameOfLife::new(5, 5, vec![false; 25]);
    g.inject_pentomino(4, 4);
    // anchor (4,4); cells (4,4) (0,4) (3,0) (4,0) (4,1) after wrapping
    let expect = [(4, 4), (0, 4), (3, 0), (4, 0), (4, 1)];
    for y in 0..5 {
        for x in 0..5 {
            assert_eq!(g.cells[y * 5 + x], expect.contains(&(x, y)), "cell {} {}", x, y);
        }
    }
}

#[test]
fn still_life_counts_toward_stagnation() {
    let block = board(&["....", ".##.", ".##.", "...."]);
    let mut g = GameOfLife::new(4, 4, block.clone());
    assert_eq!(g.step(), LifeEvent::Continue);
    assert_eq!(g.cells, block);
    assert_eq!((g.generation, g.prev_pop, g.stable_count, g.hash_stable_count), (1, 4, 1, 0));
    assert_eq!(g.step(), LifeEvent::Continue);
    assert_eq!(g.hash_stable_count, 1);
}
