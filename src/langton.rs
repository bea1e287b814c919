//! Langton's ant: on a white cell the ant turns right, on a black cell left;
//! it flips the cell and steps forward, wrapping around the grid's edges.
use vstd::prelude::*;

verus! {

/// The direction the ant faces.
#[derive(Clone, Copy, Debug, PartialEq, Eq, Structural)]
pub enum Direction {
    Up,
    Right,
    Down,
    Left,
}

impl Direction {
    pub open spec fn right_of(self) -> Direction {
        match self {
            Direction::Up => Direction::Right,
            Direction::Right => Direction::Down,
            Direction::Down => Direction::Left,
            Direction::Left => Direction::Up,
        }
    }

    pub open spec fn left_of(self) -> Direction {
        match self {
            Direction::Up => Direction::Left,
            Direction::Left => Direction::Down,
            Direction::Down => Direction::Right,
            Direction::Right => Direction::Up,
        }
    }

    pub open spec fn step_x(self) -> int {
        match self {
            Direction::Left => -1,
            Direction::Right => 1,
            _ => 0,
        }
    }

    pub open spec fn step_y(self) -> int {
        match self {
            Direction::Up => -1,
            Direction::Down => 1,
            _ => 0,
        }
    }

    /// A quarter turn clockwise.
    pub fn turn_right(self) -> (d: Direction)
        ensures
            d == self.right_of(),
    {
        match self {
            Direction::Up => Direction::Right,
            Direction::Right => Direction::Down,
            Direction::Down => Direction::Left,
            Direction::Left => Direction::Up,
        }
    }

    /// A quarter turn counter-clockwise.
    pub fn turn_left(self) -> (d: Direction)
        ensures
            d == self.left_of(),
    {
        match self {
            Direction::Up => Direction::Left,
            Direction::Left => Direction::Down,
            Direction::Down => Direction::Right,
            Direction::Right => Direction::Up,
        }
    }

    /// The column step of one move.
    pub fn dx(self) -> (v: i32)
        ensures
            v == self.step_x(),
    {
        match self {
            Direction::Left => -1,
            Direction::Right => 1,
            _ => 0,
        }
    }

    /// The row step of one move.
    pub fn dy(self) -> (v: i32)
        ensures
            v == self.step_y(),
    {
        match self {
            Direction::Up => -1,
            Direction::Down => 1,
            _ => 0,
        }
    }

    /// The direction numbered `n` (up, right, down, then left for the rest).
    pub fn from_index(n: u8) -> (d: Direction)
        ensures
            d == (if n == 0 {
                Direction::Up
            } else if n == 1 {
                Direction::Right
            } else if n == 2 {
                Direction::Down
            } else {
                Direction::Left
            }),
    {
        if n == 0 {
            Direction::Up
        } else if n == 1 {
            Direction::Right
        } else if n == 2 {
            Direction::Down
        } else {
            Direction::Left
        }
    }
}

/// `v` moved back into `0..n` after a step of at most one past either end.
pub open spec fn wrap(v: int, n: int) -> int {
    if v < 0 {
        v + n
    } else if v >= n {
        v - n
    } else {
        v
    }
}

/// What one move changes: the grid, the ant's cell, and its heading.
pub struct AntState {
    pub grid: Seq<bool>,
    pub x: int,
    pub y: int,
    pub dir: Direction,
}

/// One move on a `w`-wide, `h`-high grid: the ant turns left on a black cell
/// and right on a white one, flips the cell, and steps forward, wrapping.
pub open spec fn ant_step(a: AntState, w: int, h: int) -> AntState {
    let k = a.y * w + a.x;
    let black = a.grid[k];
    let d = if black {
        a.dir.left_of()
    } else {
        a.dir.right_of()
    };
    AntState {
        grid: a.grid.update(k, !black),
        x: wrap(a.x + d.step_x(), w),
        y: wrap(a.y + d.step_y(), h),
        dir: d,
    }
}

/// `n` moves.
pub open spec fn ant_steps(a: AntState, w: int, h: int, n: nat) -> AntState
    decreases n,
{
    if n == 0 {
        a
    } else {
        ant_step(ant_steps(a, w, h, (n - 1) as nat), w, h)
    }
}

/// The ant's world: a `width * height` grid of black (`true`) and white cells
/// stored row by row, the ant's cell and heading, and step counters.
pub struct Langton {
    pub width: usize,
    pub height: usize,
    pub grid: Vec<bool>,
    pub ant_x: i32,
    pub ant_y: i32,
    pub ant_dir: Direction,
    pub steps: usize,
    pub steps_per_frame: usize,
    pub total_steps: usize,
}

/// The largest side the world may have.
pub const MAX_SIDE: usize = 0xffff;

impl Langton {
    /// The grid, the ant's cell and its heading.
    pub open spec fn ant(&self) -> AntState {
        AntState { grid: self.grid@, x: self.ant_x as int, y: self.ant_y as int, dir: self.ant_dir }
    }

    /// The invariant: the grid matches the size, and the ant stands on it.
    pub open spec fn wf(&self) -> bool {
        &&& 0 < self.width <= MAX_SIDE
        &&& 0 < self.height <= MAX_SIDE
        &&& self.grid.len() == self.width * self.height
        &&& 0 <= self.ant_x < self.width
        &&& 0 <= self.ant_y < self.height
    }

    /// A white world with the ant at (`ant_x`, `ant_y`) facing `dir`.
    pub fn new(width: usize, height: usize, steps_per_frame: usize, ant_x: i32, ant_y: i32, dir: Direction) -> (l: Langton)
        requires
            0 < width <= MAX_SIDE,
            0 < height <= MAX_SIDE,
            0 <= ant_x < width,
            0 <= ant_y < height,
        ensures
            l.wf(),
            l.width == width,
            l.height == height,
            forall|i: int| 0 <= i < l.grid.len() ==> !#[trigger] l.grid@[i],
            l.ant_x == ant_x,
            l.ant_y == ant_y,
            l.ant_dir == dir,
            l.steps == 0,
            l.total_steps == 0,
            l.steps_per_frame == steps_per_frame,
    {
        proof {
            assert(width * height <= MAX_SIDE * MAX_SIDE) by (nonlinear_arith)
                requires
                    width <= MAX_SIDE,
                    height <= MAX_SIDE,
            ;
        }
        let n = width * height;
        let mut grid: Vec<bool> = Vec::new();
        let mut i: usize = 0;
        while i < n
            invariant
                i <= n,
                grid.len() == i,
                forall|k: int| 0 <= k < i ==> !#[trigger] grid@[k],
            decreases n - i,
        {
            grid.push(false);
            i += 1;
        }
        Langton {
            width,
            height,
            grid,
            ant_x,
            ant_y,
            ant_dir: dir,
            steps: 0,
            steps_per_frame,
            total_steps: 0,
        }
    }

    /// Whether the world must start over: its size changed, or the ant has
    /// walked more than three times its area.
    pub fn needs_reset(&self, width: usize, height: usize) -> (b: bool)
        requires
            self.wf(),
        ensures
            b == (width != self.width || height != self.height || self.total_steps > self.width
                * self.height * 3),
    {
        proof {
            assert(self.width * self.height * 3 <= MAX_SIDE * MAX_SIDE * 3) by (nonlinear_arith)
                requires
                    self.width <= MAX_SIDE,
                    self.height <= MAX_SIDE,
            ;
        }
        width != self.width || height != self.height || self.total_steps as u64 > self.width as u64
            * self.height as u64 * 3
    }

    /// One move: the ant turns by the color of its cell, flips it, and steps
    /// forward, wrapping around the edges.
    pub fn step(&mut self)
        requires
            old(self).wf(),
        ensures
            final(self).wf(),
            final(self).ant() == ant_step(old(self).ant(), old(self).width as int, old(self).height as int),
            final(self).width == old(self).width,
            final(self).height == old(self).height,
            final(self).steps_per_frame == old(self).steps_per_frame,
            final(self).steps == old(self).steps,
            final(self).total_steps == old(self).total_steps,
    {
        let ax = self.ant_x as usize;
        let ay = self.ant_y as usize;
        proof {
            crate::delta::lemma_cell_index(ay as nat, ax as nat, self.height as nat, self.width as nat);
            assert(self.height * self.width == self.width * self.height) by (nonlinear_arith);
        }
        let idx = ay * self.width + ax;
        let cell = self.grid[idx];
        if cell {
            self.ant_dir = self.ant_dir.turn_left();
            self.grid.set(idx, false);
        } else {
            self.ant_dir = self.ant_dir.turn_right();
            self.grid.set(idx, true);
        }
        assert(self.grid@ == old(self).grid@.update(idx as int, !cell));
        let mut x = self.ant_x + self.ant_dir.dx();
        let mut y = self.ant_y + self.ant_dir.dy();
        if x < 0 {
            x = x + self.width as i32;
        }
        if x >= self.width as i32 {
            x = x - self.width as i32;
        }
        if y < 0 {
            y = y + self.height as i32;
        }
        if y >= self.height as i32 {
            y = y - self.height as i32;
        }
        self.ant_x = x;
        self.ant_y = y;
    }

    /// A frame's worth of moves, counted in both step counters (which stop
    /// at their largest value).
    pub fn advance(&mut self)
        requires
            old(self).wf(),
        ensures
            final(self).wf(),
            final(self).width == old(self).width,
            final(self).height == old(self).height,
            final(self).steps_per_frame == old(self).steps_per_frame,
            final(self).ant() == ant_steps(
                old(self).ant(),
                old(self).width as int,
                old(self).height as int,
                old(self).steps_per_frame as nat,
            ),
            final(self).steps == if old(self).steps + old(self).steps_per_frame > usize::MAX {
                usize::MAX as int
            } else {
                old(self).steps + old(self).steps_per_frame
            },
            final(self).total_steps == if old(self).total_steps + old(self).steps_per_frame
                > usize::MAX {
                usize::MAX as int
            } else {
                old(self).total_steps + old(self).steps_per_frame
            },
    {
        let n = self.steps_per_frame;
        let mut i: usize = 0;
        while i < n
            invariant
                self.wf(),
                i <= n,
                self.width == old(self).width,
                self.height == old(self).height,
                self.steps_per_frame == n,
                n == old(self).steps_per_frame,
                self.ant() == ant_steps(
                    old(self).ant(),
                    old(self).width as int,
                    old(self).height as int,
                    i as nat,
                ),
                self.steps == if old(self).steps + i > usize::MAX {
                    usize::MAX as int
                } else {
                    old(self).steps + i
                },
                self.total_steps == if old(self).total_steps + i > usize::MAX {
                    usize::MAX as int
                } else {
                    old(self).total_steps + i
                },
            decreases n - i,
        {
            self.step();
            self.steps = self.steps.saturating_add(1);
            self.total_steps = self.total_steps.saturating_add(1);
            i += 1;
        }
    }
}

} // verus!
