//! Conway's Game of Life on a grid whose edges wrap around.
use vstd::prelude::*;
use crate::langton::wrap;

verus! {

/// The largest side a board may have.
pub const MAX_SIDE: usize = 0xffff;

/// Whether the neighbor of (`x`, `y`) at offset (`dx`, `dy`) is alive.
pub open spec fn alive_at(cells: Seq<bool>, w: int, h: int, x: int, y: int, dx: int, dy: int) -> bool {
    cells[wrap(y + dy, h) * w + wrap(x + dx, w)]
}

/// 1 for a live cell, 0 for a dead one.
pub open spec fn count(b: bool) -> nat {
    if b {
        1
    } else {
        0
    }
}

/// The number of live cells among the eight around (`x`, `y`).
pub open spec fn neighbors(cells: Seq<bool>, w: int, h: int, x: int, y: int) -> nat {
    count(alive_at(cells, w, h, x, y, -1, -1)) + count(alive_at(cells, w, h, x, y, 0, -1)) + count(
        alive_at(cells, w, h, x, y, 1, -1),
    ) + count(alive_at(cells, w, h, x, y, -1, 0)) + count(alive_at(cells, w, h, x, y, 1, 0))
        + count(alive_at(cells, w, h, x, y, -1, 1)) + count(alive_at(cells, w, h, x, y, 0, 1))
        + count(alive_at(cells, w, h, x, y, 1, 1))
}

/// The rule: a live cell with two or three live neighbors lives on; a dead
/// cell with exactly three comes alive; every other cell is dead.
pub open spec fn next_alive(alive: bool, n: nat) -> bool {
    (alive && (n == 2 || n == 3)) || (!alive && n == 3)
}

/// Whether a board of `w` x `h` cells fits the limits.
pub open spec fn board_ok(cells: Seq<bool>, w: int, h: int) -> bool {
    0 < w <= MAX_SIDE && 0 < h <= MAX_SIDE && cells.len() == w * h
}

proof fn lemma_wrap_in(v: int, n: int)
    requires
        n > 0,
        -1 <= v <= n,
    ensures
        0 <= wrap(v, n) < n,
{
}

proof fn lemma_index(x: int, y: int, w: int, h: int)
    requires
        0 <= x < w,
        0 <= y < h,
    ensures
        0 <= y * w + x < w * h,
{
    assert(0 <= y * w + x < w * h) by (nonlinear_arith)
        requires
            0 <= x < w,
            0 <= y < h,
    ;
}

fn wrap_exec(v: i64, n: i64) -> (r: usize)
    requires
        0 < n <= MAX_SIDE,
        -1 <= v <= n,
    ensures
        r == wrap(v as int, n as int),
{
    if v < 0 {
        (v + n) as usize
    } else if v >= n {
        (v - n) as usize
    } else {
        v as usize
    }
}

/// The number of live neighbors of cell (`x`, `y`).
pub fn count_neighbors(cells: &Vec<bool>, w: usize, h: usize, x: usize, y: usize) -> (n: u8)
    requires
        board_ok(cells@, w as int, h as int),
        x < w,
        y < h,
    ensures
        n == neighbors(cells@, w as int, h as int, x as int, y as int),
{
    let mut n: u8 = 0;
    let mut dy: i64 = -1;
    let ghost mut acc: nat = 0;
    while dy <= 1
        invariant
            -1 <= dy <= 2,
            board_ok(cells@, w as int, h as int),
            x < w,
            y < h,
            n <= 3 * (dy + 1),
            n as nat == acc,
            acc == (if dy <= -1 {
                0
            } else {
                count(alive_at(cells@, w as int, h as int, x as int, y as int, -1, -1)) + count(
                    alive_at(cells@, w as int, h as int, x as int, y as int, 0, -1),
                ) + count(alive_at(cells@, w as int, h as int, x as int, y as int, 1, -1))
            }) + (if dy <= 0 {
                0
            } else {
                count(alive_at(cells@, w as int, h as int, x as int, y as int, -1, 0)) + count(
                    alive_at(cells@, w as int, h as int, x as int, y as int, 1, 0),
                )
            }) + (if dy <= 1 {
                0
            } else {
                count(alive_at(cells@, w as int, h as int, x as int, y as int, -1, 1)) + count(
                    alive_at(cells@, w as int, h as int, x as int, y as int, 0, 1),
                ) + count(alive_at(cells@, w as int, h as int, x as int, y as int, 1, 1))
            }),
        decreases 2 - dy,
    {
        let ny = wrap_exec(y as i64 + dy, h as i64);
        let mut dx: i64 = -1;
        let ghost row_start = acc;
        while dx <= 1
            invariant
                -1 <= dx <= 2,
                -1 <= dy <= 1,
                board_ok(cells@, w as int, h as int),
                x < w,
                y < h,
                ny == wrap(y + dy, h as int),
                ny < h,
                n as nat == acc,
                acc <= row_start + (dx + 1),
                row_start <= 3 * (dy + 1),
                acc == row_start + (if dx > -1 {
                    count(alive_at(cells@, w as int, h as int, x as int, y as int, -1, dy as int))
                } else {
                    0
                }) + (if dx > 0 && dy != 0 {
                    count(alive_at(cells@, w as int, h as int, x as int, y as int, 0, dy as int))
                } else {
                    0
                }) + (if dx > 1 {
                    count(alive_at(cells@, w as int, h as int, x as int, y as int, 1, dy as int))
                } else {
                    0
                }),
            decreases 2 - dx,
        {
            if !(dx == 0 && dy == 0) {
                let nx = wrap_exec(x as i64 + dx, w as i64);
                proof {
                    lemma_index(nx as int, ny as int, w as int, h as int);
                    assert(ny * w <= ny * w + nx);
                    assert(cells.len() == w * h);
                }
                if cells[ny * w + nx] {
                    n = n + 1;
                }
                proof {
                    acc = acc + count(cells@[ny * w + nx]);
                }
            }
            dx += 1;
        }
        dy += 1;
    }
    n
}

/// One generation: every cell of the next board follows the rule.
pub fn life_step(cells: &Vec<bool>, w: usize, h: usize) -> (next: Vec<bool>)
    requires
        board_ok(cells@, w as int, h as int),
    ensures
        next.len() == cells.len(),
        forall|x: int, y: int|
            0 <= x < w && 0 <= y < h ==> #[trigger] next@[y * w + x] == next_alive(
                cells@[y * w + x],
                neighbors(cells@, w as int, h as int, x, y),
            ),
{
    let mut next: Vec<bool> = Vec::new();
    let mut y: usize = 0;
    while y < h
        invariant
            board_ok(cells@, w as int, h as int),
            y <= h,
            next.len() == y * w,
            forall|px: int, py: int|
                0 <= px < w && 0 <= py < y ==> #[trigger] next@[py * w + px] == next_alive(
                    cells@[py * w + px],
                    neighbors(cells@, w as int, h as int, px, py),
                ),
        decreases h - y,
    {
        let mut x: usize = 0;
        while x < w
            invariant
                board_ok(cells@, w as int, h as int),
                y < h,
                x <= w,
                next.len() == y * w + x,
                forall|px: int, py: int|
                    0 <= px < w && 0 <= py < y ==> #[trigger] next@[py * w + px] == next_alive(
                        cells@[py * w + px],
                        neighbors(cells@, w as int, h as int, px, py),
                    ),
                forall|px: int|
                    0 <= px < x ==> #[trigger] next@[y * w + px] == next_alive(
                        cells@[y * w + px],
                        neighbors(cells@, w as int, h as int, px, y as int),
                    ),
            decreases w - x,
        {
            proof {
                lemma_index(x as int, y as int, w as int, h as int);
                assert(cells.len() == w * h);
            }
            let n = count_neighbors(cells, w, h, x, y);
            let alive = cells[y * w + x];
            let lives = (alive && (n == 2 || n == 3)) || (!alive && n == 3);
            let ghost before = next@;
            next.push(lives);
            proof {
                assert forall|px: int, py: int|
                    0 <= px < w && 0 <= py < y implies #[trigger] next@[py * w + px] == next_alive(
                        cells@[py * w + px],
                        neighbors(cells@, w as int, h as int, px, py),
                    ) by {
                    lemma_index(px, py, w as int, y as int);
                    assert(w * y == y * w) by (nonlinear_arith);
                    assert(next@[py * w + px] == before[py * w + px]);
                }
                assert forall|px: int|
                    0 <= px < x + 1 implies #[trigger] next@[y * w + px] == next_alive(
                        cells@[y * w + px],
                        neighbors(cells@, w as int, h as int, px, y as int),
                    ) by {
                    if px < x {
                        assert(next@[y * w + px] == before[y * w + px]);
                    }
                }
            }
            x += 1;
        }
        proof {
            assert((y + 1) * w == y * w + w) by (nonlinear_arith);
        }
        y += 1;
    }
    proof {
        assert(h * w == w * h) by (nonlinear_arith);
    }
    next
}

/// The number of live cells.
pub open spec fn population(cells: Seq<bool>) -> nat
    decreases cells.len(),
{
    if cells.len() == 0 {
        0
    } else {
        population(cells.drop_last()) + count(cells.last())
    }
}

/// Counts the live cells.
pub fn count_alive(cells: &Vec<bool>) -> (n: usize)
    ensures
        n == population(cells@),
{
    let mut n: usize = 0;
    let mut i: usize = 0;
    while i < cells.len()
        invariant
            i <= cells.len(),
            n == population(cells@.subrange(0, i as int)),
            n <= i,
        decreases cells.len() - i,
    {
        assert(cells@.subrange(0, i + 1).drop_last() =~= cells@.subrange(0, i as int));
        if cells[i] {
            n += 1;
        }
        i += 1;
    }
    assert(cells@.subrange(0, i as int) =~= cells@);
    n
}

/// What the board asks of its owner after a generation.
#[derive(Clone, Copy, Debug, PartialEq, Eq, Structural)]
pub enum LifeEvent {
    /// Nothing: keep going.
    Continue,
    /// The board stagnated or died: start over with a fresh random board.
    Restart,
    /// Time to drop a new pattern at a random spot (`inject_pentomino`).
    Inject,
}

/// Conway's Game of Life with stagnation detection.
pub struct GameOfLife {
    pub width: usize,
    pub height: usize,
    pub cells: Vec<bool>,
    pub generation: u64,
    pub prev_pop: usize,
    pub stable_count: u32,
    pub prev_hash: u64,
    pub hash_stable_count: u32,
}

/// Every this many generations a new pattern is dropped in.
pub const INJECT_EVERY: u64 = 300;

/// The cells of the R-pentomino, relative to its anchor.
pub open spec fn pentomino(i: int) -> (int, int) {
    if i == 0 {
        (0, 0)
    } else if i == 1 {
        (1, 0)
    } else if i == 2 {
        (-1, 1)
    } else if i == 3 {
        (0, 1)
    } else {
        (0, 2)
    }
}

fn pentomino_exec(i: usize) -> (d: (i64, i64))
    requires
        i < 5,
    ensures
        (d.0 as int, d.1 as int) == pentomino(i as int),
{
    if i == 0 {
        (0, 0)
    } else if i == 1 {
        (1, 0)
    } else if i == 2 {
        (-1, 1)
    } else if i == 3 {
        (0, 1)
    } else {
        (0, 2)
    }
}

impl GameOfLife {
    pub open spec fn wf(&self) -> bool {
        board_ok(self.cells@, self.width as int, self.height as int)
    }

    /// A board with the given cells, at generation 0.
    pub fn new(width: usize, height: usize, cells: Vec<bool>) -> (g: GameOfLife)
        requires
            board_ok(cells@, width as int, height as int),
        ensures
            g.wf(),
            g.width == width,
            g.height == height,
            g.cells@ == cells@,
            g.generation == 0,
            g.prev_pop == population(cells@),
            g.stable_count == 0,
            g.prev_hash == 0,
            g.hash_stable_count == 0,
    {
        let pop = count_alive(&cells);
        GameOfLife {
            width,
            height,
            cells,
            generation: 0,
            prev_pop: pop,
            stable_count: 0,
            prev_hash: 0,
            hash_stable_count: 0,
        }
    }

    /// Advances one generation and says whether the board stagnated (its
    /// population unchanged, or zero, for more than 60 generations; the same
    /// population more than 10 times in a row; or no live cell) or is due for
    /// a new pattern.
    pub fn step(&mut self) -> (e: LifeEvent)
        requires
            old(self).wf(),
        ensures
            final(self).wf(),
            final(self).width == old(self).width,
            final(self).height == old(self).height,
            forall|x: int, y: int|
                0 <= x < old(self).width && 0 <= y < old(self).height ==> #[trigger] final(self).cells@[y * old(self).width + x] == next_alive(
                    old(self).cells@[y * old(self).width + x],
                    neighbors(
                        old(self).cells@,
                        old(self).width as int,
                        old(self).height as int,
                        x,
                        y,
                    ),
                ),
            final(self).generation == if old(self).generation == u64::MAX {
                u64::MAX as int
            } else {
                old(self).generation + 1
            },
            final(self).prev_pop == population(final(self).cells@),
            final(self).stable_count == if final(self).prev_pop == old(self).prev_pop
                || final(self).prev_pop == 0 {
                if old(self).stable_count == u32::MAX {
                    u32::MAX as int
                } else {
                    old(self).stable_count + 1
                }
            } else {
                0
            },
            final(self).prev_hash == final(self).prev_pop,
            final(self).hash_stable_count == if final(self).prev_hash == old(self).prev_hash {
                if old(self).hash_stable_count == u32::MAX {
                    u32::MAX as int
                } else {
                    old(self).hash_stable_count + 1
                }
            } else {
                0
            },
            e == if final(self).stable_count > 60 || final(self).hash_stable_count > 10
                || final(self).prev_pop == 0 {
                LifeEvent::Restart
            } else if final(self).generation % INJECT_EVERY == 0 {
                LifeEvent::Inject
            } else {
                LifeEvent::Continue
            },
    {
        let next = life_step(&self.cells, self.width, self.height);
        self.cells = next;
        self.generation = self.generation.saturating_add(1);
        let pop = count_alive(&self.cells);
        if pop == self.prev_pop || pop == 0 {
            self.stable_count = self.stable_count.saturating_add(1);
        } else {
            self.stable_count = 0;
        }
        self.prev_pop = pop;
        let hash = pop as u64;
        if hash == self.prev_hash {
            self.hash_stable_count = self.hash_stable_count.saturating_add(1);
        } else {
            self.hash_stable_count = 0;
        }
        self.prev_hash = hash;
        if self.stable_count > 60 || self.hash_stable_count > 10 || pop == 0 {
            LifeEvent::Restart
        } else if self.generation % INJECT_EVERY == 0 {
            LifeEvent::Inject
        } else {
            LifeEvent::Continue
        }
    }

    /// Brings the R-pentomino to life anchored at (`cx`, `cy`), wrapping
    /// around the edges.
    pub fn inject_pentomino(&mut self, cx: usize, cy: usize)
        requires
            old(self).wf(),
            cx <= MAX_SIDE,
            cy <= MAX_SIDE,
        ensures
            final(self).wf(),
            final(self).width == old(self).width,
            final(self).height == old(self).height,
            forall|k: int|
                0 <= k < final(self).cells.len() ==> #[trigger] final(self).cells@[k] == (
                old(self).cells@[k] || exists|i: int|
                    0 <= i < 5 && k == ((cy + pentomino(i).1) % (old(self).height as int)) * (old(self).width as int) + (cx + pentomino(i).0) % (old(self).width as int)),
    {
        let w = self.width;
        let h = self.height;
        let mut i: usize = 0;
        while i < 5
            invariant
                board_ok(self.cells@, w as int, h as int),
                w == self.width == old(self).width,
                h == self.height == old(self).height,
                cx <= MAX_SIDE,
                cy <= MAX_SIDE,
                i <= 5,
                self.cells.len() == old(self).cells.len(),
                forall|k: int|
                    0 <= k < self.cells.len() ==> #[trigger] self.cells@[k] == (old(self).cells@[k]
                        || exists|j: int|
                        0 <= j < i && k == ((cy + pentomino(j).1) % (h as int)) * (w as int) + (cx
                            + pentomino(j).0) % (w as int)),
            decreases 5 - i,
        {
            let (dx, dy) = pentomino_exec(i);
            let x = ((cx as i64 + dx + w as i64) as u64 % w as u64) as usize;
            let y = ((cy as i64 + dy + h as i64) as u64 % h as u64) as usize;
            proof {
                assert(x == (cx + dx) % (w as int)) by {
                    vstd::arithmetic::div_mod::lemma_mod_add_multiples_vanish(
                        cx + dx,
                        w as int,
                    );
                }
                assert(y == (cy + dy) % (h as int)) by {
                    vstd::arithmetic::div_mod::lemma_mod_add_multiples_vanish(
                        cy + dy,
                        h as int,
                    );
                }
                lemma_index(x as int, y as int, w as int, h as int);
                assert(self.cells.len() == w * h);
            }
            let ghost before = self.cells@;
            self.cells.set(y * w + x, true);
            proof {
                let idx = y * w + x;
                assert forall|k: int| 0 <= k < self.cells.len() implies #[trigger] self.cells@[k] == (
                old(self).cells@[k] || exists|j: int|
                    0 <= j < i + 1 && k == ((cy + pentomino(j).1) % (h as int)) * (w as int) + (cx
                        + pentomino(j).0) % (w as int)) by {
                    if k == idx {
                        assert(0 <= i < i + 1 && k == ((cy + pentomino(i as int).1) % (h as int)) * (
                        w as int) + (cx + pentomino(i as int).0) % (w as int));
                    } else {
                        assert(self.cells@[k] == before[k]);
                        if exists|j: int|
                            0 <= j < i + 1 && k == ((cy + pentomino(j).1) % (h as int)) * (w as int)
                                + (cx + pentomino(j).0) % (w as int) {
                            let j = choose|j: int|
                                0 <= j < i + 1 && k == ((cy + pentomino(j).1) % (h as int)) * (
                                w as int) + (cx + pentomino(j).0) % (w as int);
                            assert(j != i);
                        }
                    }
                }
            }
            i += 1;
        }
    }
}

} // verus!
