//! A self-playing game of Snake: the snake heads for the food by the safe
//! move that brings it closest, grows when it eats, and stops on a crash.
use vstd::prelude::*;

verus! {

/// A heading on the board.
#[derive(Clone, Copy, Debug, PartialEq, Eq, Structural)]
pub enum Dir {
    Up,
    Down,
    Left,
    Right,
}

impl Dir {
    pub open spec fn step_x(self) -> int {
        match self {
            Dir::Left => -1,
            Dir::Right => 1,
            _ => 0,
        }
    }

    pub open spec fn step_y(self) -> int {
        match self {
            Dir::Up => -1,
            Dir::Down => 1,
            _ => 0,
        }
    }

    pub open spec fn reverse(self) -> Dir {
        match self {
            Dir::Up => Dir::Down,
            Dir::Down => Dir::Up,
            Dir::Left => Dir::Right,
            Dir::Right => Dir::Left,
        }
    }

    /// The column step of one move.
    pub fn dx(self) -> (v: i32)
        ensures
            v == self.step_x(),
    {
        match self {
            Dir::Left => -1,
            Dir::Right => 1,
            _ => 0,
        }
    }

    /// The row step of one move.
    pub fn dy(self) -> (v: i32)
        ensures
            v == self.step_y(),
    {
        match self {
            Dir::Up => -1,
            Dir::Down => 1,
            _ => 0,
        }
    }

    /// The way back.
    pub fn opposite(self) -> (d: Dir)
        ensures
            d == self.reverse(),
    {
        match self {
            Dir::Up => Dir::Down,
            Dir::Down => Dir::Up,
            Dir::Left => Dir::Right,
            Dir::Right => Dir::Left,
        }
    }
}

/// The largest side a board may have.
pub const MAX_SIDE: i32 = 0xffff;

/// The smallest side a board may have.
pub const MIN_SIDE: i32 = 10;

/// Whether cell (`x`, `y`) is part of the snake.
pub open spec fn occupied(body: Seq<(i32, i32)>, x: int, y: int) -> bool {
    exists|i: int| 0 <= i < body.len() && body[i].0 == x && body[i].1 == y
}

/// The candidate moves, in the order they are tried.
pub open spec fn candidate(i: int) -> Dir {
    if i == 0 {
        Dir::Up
    } else if i == 1 {
        Dir::Down
    } else if i == 2 {
        Dir::Left
    } else {
        Dir::Right
    }
}

/// The distance between two cells, moving along rows and columns.
pub open spec fn manhattan(ax: int, ay: int, bx: int, by: int) -> int {
    (if ax >= bx {
        ax - bx
    } else {
        bx - ax
    }) + (if ay >= by {
        ay - by
    } else {
        by - ay
    })
}

/// A three-cell snake in the middle of a `w` x `h` board, head on the right.
pub open spec fn start_body(w: i32, h: i32) -> Seq<(i32, i32)> {
    seq![
        ((w / 2) as i32, (h / 2) as i32),
        ((w / 2 - 1) as i32, (h / 2) as i32),
        ((w / 2 - 2) as i32, (h / 2) as i32),
    ]
}

/// The game: a `width` x `height` board, the snake's cells from head to
/// tail, its heading, the food's cell and the score.
pub struct SnakeGame {
    pub width: i32,
    pub height: i32,
    pub body: Vec<(i32, i32)>,
    pub dir: Dir,
    pub food: (i32, i32),
    pub score: usize,
}

/// What one move did.
#[derive(Clone, Copy, Debug, PartialEq, Eq, Structural)]
pub enum MoveOutcome {
    /// The snake moved on.
    Moved,
    /// The snake ate the food and grew: new food must be placed.
    Ate,
    /// The move would hit a wall or the snake itself: the game is over.
    Crashed,
}

impl SnakeGame {
    pub open spec fn wf(&self) -> bool {
        &&& MIN_SIDE <= self.width <= MAX_SIDE
        &&& MIN_SIDE <= self.height <= MAX_SIDE
        &&& self.body.len() > 0
        &&& forall|i: int|
            0 <= i < self.body.len() ==> 0 <= (#[trigger] self.body@[i]).0 <= MAX_SIDE && 0
                <= self.body@[i].1 <= MAX_SIDE
    }

    /// Whether the snake may move `d` from its head: not back on itself, not
    /// off the board, not into its body.
    pub open spec fn safe(&self, d: Dir) -> bool {
        let (hx, hy) = self.body@[0];
        let nx = hx + d.step_x();
        let ny = hy + d.step_y();
        d != self.dir.reverse() && 0 <= nx < self.width && 0 <= ny < self.height && !occupied(
            self.body@,
            nx,
            ny,
        )
    }

    /// The move picked among candidates `i..4`, given the best so far.
    pub open spec fn pick_from(&self, i: int, best: Dir, best_dist: int) -> Dir
        decreases 4 - i,
    {
        if i >= 4 || i < 0 {
            best
        } else {
            let d = candidate(i);
            let (hx, hy) = self.body@[0];
            let dist = manhattan(hx + d.step_x(), hy + d.step_y(), self.food.0 as int, self.food.1 as int);
            if self.safe(d) && dist < best_dist {
                self.pick_from(i + 1, d, dist)
            } else {
                self.pick_from(i + 1, best, best_dist)
            }
        }
    }

    /// The move the player makes: the first safe candidate that comes
    /// closest to the food, or straight on when none is safe.
    pub open spec fn choice(&self) -> Dir {
        self.pick_from(0, self.dir, i32::MAX as int)
    }

    /// A new game on a `width` x `height` board: a three-cell snake in the
    /// middle heading right, and the food at `food`.
    pub fn new(width: i32, height: i32, food: (i32, i32)) -> (g: SnakeGame)
        requires
            MIN_SIDE <= width <= MAX_SIDE,
            MIN_SIDE <= height <= MAX_SIDE,
        ensures
            g.wf(),
            g.width == width,
            g.height == height,
            g.body@ == start_body(width, height),
            g.dir == Dir::Right,
            g.food == food,
            g.score == 0,
    {
        let cx = width / 2;
        let cy = height / 2;
        let mut body: Vec<(i32, i32)> = Vec::new();
        body.push((cx, cy));
        body.push((cx - 1, cy));
        body.push((cx - 2, cy));
        assert(body@ =~= start_body(width, height));
        SnakeGame { width, height, body, dir: Dir::Right, food, score: 0 }
    }

    /// Whether the snake covers cell (`x`, `y`).
    pub fn covers(&self, x: i32, y: i32) -> (b: bool)
        ensures
            b == occupied(self.body@, x as int, y as int),
    {
        let mut i: usize = 0;
        while i < self.body.len()
            invariant
                i <= self.body.len(),
                forall|k: int| 0 <= k < i ==> !(#[trigger] self.body@[k].0 == x && self.body@[k].1 == y),
            decreases self.body.len() - i,
        {
            if self.body[i].0 == x && self.body[i].1 == y {
                return true;
            }
            i += 1;
        }
        false
    }

    /// The move the player makes.
    pub fn ai_choose_direction(&self) -> (d: Dir)
        requires
            self.wf(),
        ensures
            d == self.choice(),
    {
        let head = self.body[0];
        let fx = self.food.0 as i64;
        let fy = self.food.1 as i64;
        let mut best = self.dir;
        let mut best_dist: i64 = i32::MAX as i64;
        let mut i: usize = 0;
        let back = self.dir.opposite();
        while i < 4
            invariant
                self.wf(),
                i <= 4,
                head == self.body@[0],
                fx == self.food.0,
                fy == self.food.1,
                back == self.dir.reverse(),
                best_dist <= i32::MAX,
                self.pick_from(i as int, best, best_dist as int) == self.choice(),
            decreases 4 - i,
        {
            let d = if i == 0 {
                Dir::Up
            } else if i == 1 {
                Dir::Down
            } else if i == 2 {
                Dir::Left
            } else {
                Dir::Right
            };
            let nx = head.0 as i64 + d.dx() as i64;
            let ny = head.1 as i64 + d.dy() as i64;
            let dist = (if nx >= fx {
                nx - fx
            } else {
                fx - nx
            }) + (if ny >= fy {
                ny - fy
            } else {
                fy - ny
            });
            let ok = d != back && 0 <= nx && nx < self.width as i64 && 0 <= ny && ny
                < self.height as i64 && !self.covers(nx as i32, ny as i32);
            assert(ok == self.safe(d));
            if ok && dist < best_dist {
                best = d;
                best_dist = dist;
            }
            i += 1;
        }
        best
    }

    /// Sets the board size.
    pub fn resize(&mut self, width: i32, height: i32)
        requires
            old(self).wf(),
            MIN_SIDE <= width <= MAX_SIDE,
            MIN_SIDE <= height <= MAX_SIDE,
        ensures
            final(self).wf(),
            final(self).width == width,
            final(self).height == height,
            final(self).body@ == old(self).body@,
            final(self).dir == old(self).dir,
            final(self).food == old(self).food,
            final(self).score == old(self).score,
    {
        self.width = width;
        self.height = height;
    }

    /// One move: the player picks a heading; a crash leaves the snake where
    /// it is; otherwise the new head is added, and the tail is dropped unless
    /// the food was there, which scores a point.
    pub fn advance(&mut self) -> (o: MoveOutcome)
        requires
            old(self).wf(),
        ensures
            final(self).wf(),
            final(self).width == old(self).width,
            final(self).height == old(self).height,
            final(self).food == old(self).food,
            final(self).dir == old(self).choice(),
            ({
                let d = old(self).choice();
                let (hx, hy) = old(self).body@[0];
                let nx = hx + d.step_x();
                let ny = hy + d.step_y();
                let crash = !(0 <= nx < old(self).width && 0 <= ny < old(self).height) || occupied(
                    old(self).body@,
                    nx,
                    ny,
                );
                if crash {
                    &&& o == MoveOutcome::Crashed
                    &&& final(self).body@ == old(self).body@
                    &&& final(self).score == old(self).score
                } else if nx == old(self).food.0 && ny == old(self).food.1 {
                    &&& o == MoveOutcome::Ate
                    &&& final(self).body@ == seq![(nx as i32, ny as i32)] + old(self).body@
                    &&& final(self).score == if old(self).score == usize::MAX {
                        usize::MAX as int
                    } else {
                        old(self).score + 1
                    }
                } else {
                    &&& o == MoveOutcome::Moved
                    &&& final(self).body@ == seq![(nx as i32, ny as i32)] + old(self).body@.drop_last()
                    &&& final(self).score == old(self).score
                }
            }),
    {
        let d = self.ai_choose_direction();
        self.dir = d;
        let head = self.body[0];
        let nx = head.0 as i64 + d.dx() as i64;
        let ny = head.1 as i64 + d.dy() as i64;
        if nx < 0 || nx >= self.width as i64 || ny < 0 || ny >= self.height as i64 {
            return MoveOutcome::Crashed;
        }
        let nx = nx as i32;
        let ny = ny as i32;
        if self.covers(nx, ny) {
            return MoveOutcome::Crashed;
        }
        let ghost before = self.body@;
        self.body.insert(0, (nx, ny));
        assert(self.body@ =~= seq![(nx, ny)] + before);
        if nx == self.food.0 && ny == self.food.1 {
            self.score = self.score.saturating_add(1);
            MoveOutcome::Ate
        } else {
            self.body.pop();
            assert(self.body@ =~= seq![(nx, ny)] + before.drop_last());
            MoveOutcome::Moved
        }
    }

    /// Starts over on the same board with the food at `food`.
    pub fn reset(&mut self, food: (i32, i32))
        requires
            old(self).wf(),
        ensures
            final(self).wf(),
            final(self).width == old(self).width,
            final(self).height == old(self).height,
            final(self).body@ == start_body(old(self).width, old(self).height),
            final(self).dir == Dir::Right,
            final(self).food == food,
            final(self).score == 0,
    {
        *self = SnakeGame::new(self.width, self.height, food);
    }

    /// Puts the food at `food`.
    pub fn place_food(&mut self, food: (i32, i32))
        requires
            old(self).wf(),
        ensures
            final(self).wf(),
            final(self).food == food,
            final(self).width == old(self).width,
            final(self).height == old(self).height,
            final(self).body@ == old(self).body@,
            final(self).dir == old(self).dir,
            final(self).score == old(self).score,
    {
        self.food = food;
    }
}

} // verus!
