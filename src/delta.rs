//! Frame-to-frame delta rendering: an encoded frame is decoded back into a
//! grid of cells by a small terminal model, compared with the previous grid,
//! and only the changed stretches are sent again.
use vstd::prelude::*;
use crate::text::{
    chars_of, copy_chars, copy_range, dec, parse_usize, parse_usize_range, push_all, push_dec,
    same_chars, string_of,
};

verus! {

/// The escape character that starts a control sequence.
pub open spec fn esc() -> char {
    '\x1b'
}

/// The characters that end a control sequence for the terminal model.
pub open spec fn is_final(c: char) -> bool {
    c == 'm' || c == 'H' || c == 'J' || c == 'h' || c == 'l'
}

/// The first index `>= j` of `s` holding a final character, or `s.len()`.
pub open spec fn final_at(s: Seq<char>, j: int) -> int
    decreases s.len() - j,
{
    if j < 0 || j >= s.len() {
        s.len() as int
    } else if is_final(s[j]) {
        j
    } else {
        final_at(s, j + 1)
    }
}

/// The first index `>= j` of `s` holding `c`, or `s.len()`.
pub open spec fn index_of(s: Seq<char>, c: char, j: int) -> int
    decreases s.len() - j,
{
    if j < 0 || j >= s.len() {
        s.len() as int
    } else if s[j] == c {
        j
    } else {
        index_of(s, c, j + 1)
    }
}

/// One terminal cell: its glyph and the graphic-rendition parameters in force.
pub type CellView = (char, Seq<char>);

/// The state of the terminal model: a `rows * cols` grid stored row by row,
/// the cursor, and the rendition parameters in force.
pub struct Pen {
    pub grid: Seq<CellView>,
    pub rows: nat,
    pub cols: nat,
    pub row: nat,
    pub col: nat,
    pub sgr: Seq<char>,
}

/// The rendition in force after `ESC [ params m`: `0` or nothing resets it.
pub open spec fn sgr_after(params: Seq<char>) -> Seq<char> {
    if params.len() == 0 || params == seq!['0'] {
        Seq::empty()
    } else {
        params
    }
}

/// A one-based coordinate turned zero-based; what does not parse counts as 1.
pub open spec fn zero_based(s: Seq<char>) -> nat {
    match parse_usize(s) {
        Some(v) => if v > 0 {
            (v - 1) as nat
        } else {
            0
        },
        None => 0,
    }
}

/// Where `ESC [ params H` puts the cursor (row, column), zero-based.
pub open spec fn cursor_to(params: Seq<char>) -> (nat, nat) {
    let semi = index_of(params, ';', 0);
    if semi < params.len() {
        (
            zero_based(params.subrange(0, semi)),
            zero_based(params.subrange(semi + 1, params.len() as int)),
        )
    } else if params.len() == 0 {
        (0, 0)
    } else {
        (zero_based(params), 0)
    }
}

/// The effect of the control sequence `ESC [ params t`.
pub open spec fn control(p: Pen, params: Seq<char>, t: char) -> Pen {
    if t == 'm' {
        Pen { sgr: sgr_after(params), ..p }
    } else if t == 'H' {
        Pen { row: cursor_to(params).0, col: cursor_to(params).1, ..p }
    } else {
        p
    }
}

/// The effect of printing `c`: it lands at the cursor if that is on the grid,
/// and the cursor moves one column right.
pub open spec fn put(p: Pen, c: char) -> Pen {
    let grid = if p.row < p.rows && p.col < p.cols {
        p.grid.update((p.row * p.cols + p.col) as int, (c, p.sgr))
    } else {
        p.grid
    };
    Pen { grid, col: if p.col < usize::MAX { p.col + 1 } else { p.col }, ..p }
}

/// The terminal model run over `s` from index `i`. A control sequence that is
/// never finished ends the run.
pub open spec fn paint_from(p: Pen, s: Seq<char>, i: int) -> Pen
    decreases s.len() - i,
{
    if i < 0 || i >= s.len() {
        p
    } else if s[i] == esc() && i + 1 < s.len() && s[i + 1] == '[' {
        let k = final_at(s, i + 2);
        if k >= s.len() || k < i + 2 {
            p
        } else {
            paint_from(control(p, s.subrange(i + 2, k), s[k]), s, k + 1)
        }
    } else {
        paint_from(put(p, s[i]), s, i + 1)
    }
}

/// The terminal model run over all of `s`.
pub open spec fn paint(p: Pen, s: Seq<char>) -> Pen {
    paint_from(p, s, 0)
}

/// An empty `rows * cols` grid: spaces with no rendition.
pub open spec fn blank_grid(cols: nat, rows: nat) -> Seq<CellView> {
    Seq::new(rows * cols, |k: int| (' ', Seq::<char>::empty()))
}

/// A fresh terminal model: empty grid, cursor home, no rendition.
pub open spec fn fresh(cols: nat, rows: nat) -> Pen {
    Pen { grid: blank_grid(cols, rows), rows, cols, row: 0, col: 0, sgr: Seq::empty() }
}

/// The grid that an encoded frame draws on an empty `rows * cols` screen.
pub open spec fn decode(f: Seq<char>, cols: nat, rows: nat) -> Seq<CellView> {
    paint(fresh(cols, rows), f).grid
}

/// One decoded terminal cell.
pub struct Cell {
    pub ch: char,
    pub sgr: Vec<char>,
}

impl View for Cell {
    type V = CellView;

    open spec fn view(&self) -> CellView {
        (self.ch, self.sgr@)
    }
}

/// The view of a grid of cells.
pub open spec fn cells_view(g: Seq<Cell>) -> Seq<CellView> {
    g.map_values(|c: Cell| c@)
}

pub proof fn lemma_cell_index(row: nat, col: nat, rows: nat, cols: nat)
    requires
        row < rows,
        col < cols,
    ensures
        row * cols + col < rows * cols,
{
    assert(row * cols + col < rows * cols) by (nonlinear_arith)
        requires
            row < rows,
            col < cols,
    ;
}

fn same_cell(a: &Cell, b: &Cell) -> (r: bool)
    ensures
        r == (a@ == b@),
{
    a.ch == b.ch && same_chars(&a.sgr, &b.sgr)
}

fn zero_based_exec(v: Option<usize>) -> (r: usize)
    ensures
        forall|s: Seq<char>| parse_usize(s) == v ==> r as nat == zero_based(s),
{
    match v {
        Some(v) => v.saturating_sub(1),
        None => 0,
    }
}

/// The index of the first final character at or after `from`, or `f.len()`.
fn find_final(f: &Vec<char>, from: usize) -> (r: usize)
    requires
        from <= f.len(),
    ensures
        r as int == final_at(f@, from as int),
        from <= r <= f.len(),
{
    let mut j: usize = from;
    while j < f.len() && !(f[j] == 'm' || f[j] == 'H' || f[j] == 'J' || f[j] == 'h' || f[j]
        == 'l')
        invariant
            from <= j <= f.len(),
            final_at(f@, j as int) == final_at(f@, from as int),
        decreases f.len() - j,
    {
        j += 1;
    }
    j
}

/// The rendition that `ESC [ f[lo..hi] m` leaves in force.
fn sgr_of(f: &Vec<char>, lo: usize, hi: usize) -> (r: Vec<char>)
    requires
        lo <= hi <= f.len(),
    ensures
        r@ == sgr_after(f@.subrange(lo as int, hi as int)),
{
    let ghost params = f@.subrange(lo as int, hi as int);
    if hi == lo {
        assert(params.len() == 0);
        Vec::new()
    } else if hi == lo + 1 && f[lo] == '0' {
        assert(params =~= seq!['0']);
        Vec::new()
    } else {
        proof {
            if params =~= seq!['0'] {
                assert(params[0] == f@[lo as int]);
            }
        }
        copy_range(f, lo, hi)
    }
}

/// Where `ESC [ f[lo..hi] H` puts the cursor.
fn cursor_of(f: &Vec<char>, lo: usize, hi: usize) -> (r: (usize, usize))
    requires
        lo <= hi <= f.len(),
    ensures
        (r.0 as nat, r.1 as nat) == cursor_to(f@.subrange(lo as int, hi as int)),
{
    let ghost params = f@.subrange(lo as int, hi as int);
    let mut semi: usize = lo;
    while semi < hi && f[semi] != ';'
        invariant
            lo <= semi <= hi <= f.len(),
            params == f@.subrange(lo as int, hi as int),
            index_of(params, ';', semi - lo) == index_of(params, ';', 0),
        decreases hi - semi,
    {
        semi += 1;
    }
    if semi < hi {
        assert(params.subrange(0, semi - lo) =~= f@.subrange(lo as int, semi as int));
        assert(params.subrange(semi + 1 - lo, params.len() as int) =~= f@.subrange(
            semi + 1,
            hi as int,
        ));
        let r = zero_based_exec(parse_usize_range(f, lo, semi));
        let c = zero_based_exec(parse_usize_range(f, semi + 1, hi));
        (r, c)
    } else if hi == lo {
        (0, 0)
    } else {
        let r = zero_based_exec(parse_usize_range(f, lo, hi));
        (r, 0)
    }
}

/// The view of the parser's state as a terminal model.
pub open spec fn pen_of(
    grid: Seq<Cell>,
    rows: usize,
    cols: usize,
    row: usize,
    col: usize,
    sgr: Seq<char>,
) -> Pen {
    Pen {
        grid: cells_view(grid),
        rows: rows as nat,
        cols: cols as nat,
        row: row as nat,
        col: col as nat,
        sgr,
    }
}

/// An empty grid of `n` cells.
fn blank_cells(n: usize, cols: usize, rows: usize) -> (g: Vec<Cell>)
    requires
        n == rows * cols,
    ensures
        g.len() == n,
        cells_view(g@) == blank_grid(cols as nat, rows as nat),
{
    let mut grid: Vec<Cell> = Vec::new();
    let mut k: usize = 0;
    while k < n
        invariant
            k <= n,
            n == rows * cols,
            grid.len() == k,
            forall|q: int| 0 <= q < k ==> (#[trigger] grid@[q])@ == (' ', Seq::<char>::empty()),
        decreases n - k,
    {
        grid.push(Cell { ch: ' ', sgr: Vec::new() });
        k += 1;
    }
    assert(cells_view(grid@) =~= blank_grid(cols as nat, rows as nat));
    grid
}

/// Decodes an encoded frame into a `rows * cols` grid of cells.
pub fn parse_frame(f: &Vec<char>, cols: usize, rows: usize) -> (g: Vec<Cell>)
    requires
        rows * cols <= usize::MAX,
    ensures
        g.len() == rows * cols,
        cells_view(g@) == decode(f@, cols as nat, rows as nat),
{
    let mut grid = blank_cells(rows * cols, cols, rows);
    let mut row: usize = 0;
    let mut col: usize = 0;
    let mut sgr: Vec<char> = Vec::new();
    let len = f.len();
    let mut i: usize = 0;
    assert(pen_of(grid@, rows, cols, row, col, sgr@) == fresh(cols as nat, rows as nat));
    while i < len
        invariant
            i <= len == f.len(),
            grid.len() == rows * cols,
            paint_from(pen_of(grid@, rows, cols, row, col, sgr@), f@, i as int) == paint(
                fresh(cols as nat, rows as nat),
                f@,
            ),
        ensures
            grid.len() == rows * cols,
            paint(fresh(cols as nat, rows as nat), f@) == pen_of(grid@, rows, cols, row, col, sgr@),
        decreases len - i,
    {
        let ghost p = pen_of(grid@, rows, cols, row, col, sgr@);
        if f[i] == '\x1b' && i + 1 < len && f[i + 1] == '[' {
            let j = find_final(f, i + 2);
            if j >= len {
                assert(paint_from(p, f@, i as int) == p);
                break;
            }
            if f[j] == 'm' {
                sgr = sgr_of(f, i + 2, j);
            } else if f[j] == 'H' {
                let (r, c) = cursor_of(f, i + 2, j);
                row = r;
                col = c;
            }
            assert(pen_of(grid@, rows, cols, row, col, sgr@) == control(
                p,
                f@.subrange(i + 2, j as int),
                f@[j as int],
            ));
            i = j + 1;
        } else {
            let ch = f[i];
            if row < rows && col < cols {
                proof {
                    lemma_cell_index(row as nat, col as nat, rows as nat, cols as nat);
                }
                let idx = row * cols + col;
                grid[idx] = Cell { ch, sgr: copy_chars(&sgr) };
                assert(cells_view(grid@) =~= p.grid.update(idx as int, (ch, sgr@)));
            }
            col = col.saturating_add(1);
            assert(pen_of(grid@, rows, cols, row, col, sgr@) == put(p, ch));
            i += 1;
        }
    }
    grid
}

/// The number of unchanged cells from column `c` of row `r` up to the first
/// changed one or the end of the row.
pub open spec fn unchanged_run(
    prev: Seq<CellView>,
    cur: Seq<CellView>,
    cols: nat,
    r: nat,
    c: nat,
) -> nat
    decreases cols - c,
{
    if c >= cols {
        0
    } else if prev[(r * cols + c) as int] != cur[(r * cols + c) as int] {
        0
    } else {
        1 + unchanged_run(prev, cur, cols, r, c + 1)
    }
}

/// The shortest run of unchanged cells that is skipped with a cursor move
/// rather than sent again.
pub const MIN_SKIP_RUN: usize = 4;

/// Whether the patch sends cell (`r`, `c`): it changed, or it lies in a short
/// gap of unchanged cells between changed cells of a stretch being sent.
pub open spec fn emitted(
    prev: Seq<CellView>,
    cur: Seq<CellView>,
    cols: nat,
    r: nat,
    c: nat,
    in_run: bool,
) -> bool {
    let k = (r * cols + c) as int;
    prev[k] != cur[k] || (in_run && unchanged_run(prev, cur, cols, r, c) < MIN_SKIP_RUN
        && c + unchanged_run(prev, cur, cols, r, c) < cols)
}

/// `ESC [ row+1 ; col+1 H`: the cursor move to the zero-based cell (`r`, `c`).
pub open spec fn move_to(r: nat, c: nat) -> Seq<char> {
    seq![esc(), '['] + dec(r + 1) + seq![';'] + dec(c + 1) + seq!['H']
}

/// The sequence that puts rendition `s` in force.
pub open spec fn sgr_code(s: Seq<char>) -> Seq<char> {
    if s.len() == 0 {
        seq![esc(), '[', '0', 'm']
    } else {
        seq![esc(), '['] + s + seq!['m']
    }
}

/// The text that sends cell (`r`, `c`) of `cur`: a cursor move when it starts a
/// stretch, its rendition when that differs from the last one sent, its glyph.
pub open spec fn cell_text(
    cur: Seq<CellView>,
    cols: nat,
    r: nat,
    c: nat,
    in_run: bool,
    last: Seq<char>,
) -> Seq<char> {
    let cell = cur[(r * cols + c) as int];
    (if in_run {
        Seq::empty()
    } else {
        move_to(r, c)
    }) + (if cell.1 == last {
        Seq::empty()
    } else {
        sgr_code(cell.1)
    }) + seq![cell.0]
}

/// The patch text from cell (`r`, `c`) on, scanning row by row, with whether
/// the previous cell of the row was sent and the last rendition sent; paired
/// with the last rendition sent at the end.
pub open spec fn patch_at(
    prev: Seq<CellView>,
    cur: Seq<CellView>,
    rows: nat,
    cols: nat,
    r: nat,
    c: nat,
    in_run: bool,
    last: Seq<char>,
) -> (Seq<char>, Seq<char>)
    decreases rows - r, cols - c,
{
    if r >= rows {
        (Seq::empty(), last)
    } else if c >= cols {
        patch_at(prev, cur, rows, cols, r + 1, 0, false, last)
    } else if emitted(prev, cur, cols, r, c, in_run) {
        let rest = patch_at(
            prev,
            cur,
            rows,
            cols,
            r,
            c + 1,
            true,
            cur[(r * cols + c) as int].1,
        );
        (cell_text(cur, cols, r, c, in_run, last) + rest.0, rest.1)
    } else {
        patch_at(prev, cur, rows, cols, r, c + 1, false, last)
    }
}

/// The patch that turns grid `prev` into grid `cur`, ending with a reset when
/// a rendition is left in force.
pub open spec fn patch(prev: Seq<CellView>, cur: Seq<CellView>, rows: nat, cols: nat) -> Seq<
    char,
> {
    let (t, l) = patch_at(prev, cur, rows, cols, 0, 0, false, Seq::empty());
    if l.len() > 0 {
        t + seq![esc(), '[', '0', 'm']
    } else {
        t
    }
}

/// The number of positions below `n` where the two grids differ.
pub open spec fn changed_count(prev: Seq<CellView>, cur: Seq<CellView>, n: nat) -> nat
    decreases n,
{
    if n == 0 {
        0
    } else {
        changed_count(prev, cur, (n - 1) as nat) + if prev[n - 1] != cur[n - 1] {
            1nat
        } else {
            0nat
        }
    }
}

/// `ESC [ H`: cursor home.
pub open spec fn home() -> Seq<char> {
    seq![esc(), '[', 'H']
}

/// Whether more than 70% of the cells changed, so that the whole frame is
/// cheaper to send than a patch.
pub open spec fn mostly_changed(prev: Seq<CellView>, cur: Seq<CellView>, rows: nat, cols: nat) -> bool {
    changed_count(prev, cur, rows * cols) * 100 > 70 * (rows * cols)
}

/// What the delta renderer writes for frame `f` of `cols * rows` cells when
/// it remembers `st`.
pub open spec fn delta_output(st: DeltaState, f: Seq<char>, cols: nat, rows: nat) -> Seq<char> {
    let cur = decode(f, cols, rows);
    if st.force_full || st.cols != cols || st.rows != rows || mostly_changed(
        st.prev,
        cur,
        rows,
        cols,
    ) {
        home() + f
    } else {
        patch(st.prev, cur, rows, cols)
    }
}

/// What the delta renderer remembers between frames.
pub struct DeltaState {
    pub prev: Seq<CellView>,
    pub cols: nat,
    pub rows: nat,
    pub force_full: bool,
}

/// Sends only what changed since the previous frame, falling back to the whole
/// frame on the first frame, after invalidation, on a size change, or when
/// most cells changed.
pub struct DeltaRenderer {
    prev: Vec<Cell>,
    term_cols: usize,
    term_rows: usize,
    force_full: bool,
}

impl View for DeltaRenderer {
    type V = DeltaState;

    closed spec fn view(&self) -> DeltaState {
        DeltaState {
            prev: cells_view(self.prev@),
            cols: self.term_cols as nat,
            rows: self.term_rows as nat,
            force_full: self.force_full,
        }
    }
}

fn push_move(out: &mut Vec<char>, r: usize, c: usize)
    requires
        r < usize::MAX,
        c < usize::MAX,
    ensures
        final(out)@ == old(out)@ + move_to(r as nat, c as nat),
{
    out.push('\x1b');
    out.push('[');
    push_dec(out, (r + 1) as u64);
    out.push(';');
    push_dec(out, (c + 1) as u64);
    out.push('H');
    assert(final(out)@ =~= old(out)@ + move_to(r as nat, c as nat));
}

fn push_sgr(out: &mut Vec<char>, s: &Vec<char>)
    ensures
        final(out)@ == old(out)@ + sgr_code(s@),
{
    out.push('\x1b');
    out.push('[');
    if s.len() == 0 {
        out.push('0');
    } else {
        push_all(out, s);
    }
    out.push('m');
    assert(final(out)@ =~= old(out)@ + sgr_code(s@));
}

fn push_home(out: &mut Vec<char>)
    ensures
        final(out)@ == old(out)@ + home(),
{
    out.push('\x1b');
    out.push('[');
    out.push('H');
    assert(final(out)@ =~= old(out)@ + home());
}

/// The length of the unchanged run from column `c` of row `r`.
fn unchanged_run_exec(prev: &Vec<Cell>, cur: &Vec<Cell>, rows: usize, cols: usize, r: usize, c: usize) -> (n: usize)
    requires
        prev.len() == rows * cols,
        cur.len() == rows * cols,
        r < rows,
        c <= cols,
    ensures
        n as nat == unchanged_run(
            cells_view(prev@),
            cells_view(cur@),
            cols as nat,
            r as nat,
            c as nat,
        ),
        c + n <= cols,
{
    let ghost pv = cells_view(prev@);
    let ghost cv = cells_view(cur@);
    let mut j: usize = c;
    while j < cols
        invariant
            c <= j <= cols,
            r < rows,
            prev.len() == rows * cols,
            cur.len() == rows * cols,
            pv == cells_view(prev@),
            cv == cells_view(cur@),
            unchanged_run(pv, cv, cols as nat, r as nat, c as nat) == (j - c) + unchanged_run(
                pv,
                cv,
                cols as nat,
                r as nat,
                j as nat,
            ),
        ensures
            unchanged_run(pv, cv, cols as nat, r as nat, c as nat) == (j - c),
            j <= cols,
        decreases cols - j,
    {
        proof {
            lemma_cell_index(r as nat, j as nat, rows as nat, cols as nat);
        }
        let k = r * cols + j;
        assert(pv[k as int] == prev@[k as int]@ && cv[k as int] == cur@[k as int]@);
        if !same_cell(&cur[k], &prev[k]) {
            break;
        }
        j += 1;
    }
    j - c
}

/// The number of positions where the two grids differ.
fn count_changed(prev: &Vec<Cell>, cur: &Vec<Cell>) -> (n: usize)
    requires
        prev.len() == cur.len(),
    ensures
        n as nat == changed_count(cells_view(prev@), cells_view(cur@), cur.len() as nat),
        n <= cur.len(),
{
    let ghost pv = cells_view(prev@);
    let ghost cv = cells_view(cur@);
    let mut n: usize = 0;
    let mut k: usize = 0;
    while k < cur.len()
        invariant
            k <= cur.len() == prev.len(),
            pv == cells_view(prev@),
            cv == cells_view(cur@),
            n as nat == changed_count(pv, cv, k as nat),
            n <= k,
        decreases cur.len() - k,
    {
        assert(pv[k as int] == prev@[k as int]@ && cv[k as int] == cur@[k as int]@);
        if !same_cell(&prev[k], &cur[k]) {
            n += 1;
        }
        k += 1;
    }
    n
}

/// Builds the run-skipping patch from grid `prev` to grid `cur`.
fn build_patch(prev: &Vec<Cell>, cur: &Vec<Cell>, rows: usize, cols: usize) -> (out: Vec<char>)
    requires
        prev.len() == rows * cols,
        cur.len() == rows * cols,
    ensures
        out@ == patch(cells_view(prev@), cells_view(cur@), rows as nat, cols as nat),
{
    let ghost pv = cells_view(prev@);
    let ghost cv = cells_view(cur@);
    let ghost total = patch_at(pv, cv, rows as nat, cols as nat, 0, 0, false, Seq::empty());
    let mut out: Vec<char> = Vec::new();
    let mut last: Vec<char> = Vec::new();
    let mut r: usize = 0;
    while r < rows
        invariant
            r <= rows,
            prev.len() == rows * cols,
            cur.len() == rows * cols,
            pv == cells_view(prev@),
            cv == cells_view(cur@),
            total == patch_at(pv, cv, rows as nat, cols as nat, 0, 0, false, Seq::empty()),
            out@ + patch_at(pv, cv, rows as nat, cols as nat, r as nat, 0, false, last@).0
                == total.0,
            patch_at(pv, cv, rows as nat, cols as nat, r as nat, 0, false, last@).1 == total.1,
        decreases rows - r,
    {
        let mut c: usize = 0;
        let mut in_run = false;
        while c < cols
            invariant
                r < rows,
                c <= cols,
                prev.len() == rows * cols,
                cur.len() == rows * cols,
                pv == cells_view(prev@),
                cv == cells_view(cur@),
                out@ + patch_at(pv, cv, rows as nat, cols as nat, r as nat, c as nat, in_run, last@).0
                    == total.0,
                patch_at(pv, cv, rows as nat, cols as nat, r as nat, c as nat, in_run, last@).1
                    == total.1,
            decreases cols - c,
        {
            proof {
                lemma_cell_index(r as nat, c as nat, rows as nat, cols as nat);
            }
            let k = r * cols + c;
            assert(pv[k as int] == prev@[k as int]@ && cv[k as int] == cur@[k as int]@);
            let changed = !same_cell(&cur[k], &prev[k]);
            let emit = if changed {
                true
            } else if in_run {
                let n = unchanged_run_exec(prev, cur, rows, cols, r, c);
                n < MIN_SKIP_RUN && c + n < cols
            } else {
                false
            };
            assert(emit == emitted(pv, cv, cols as nat, r as nat, c as nat, in_run));
            if emit {
                let ghost before = out@;
                let ghost old_last = last@;
                if !in_run {
                    push_move(&mut out, r, c);
                }
                if !same_chars(&cur[k].sgr, &last) {
                    push_sgr(&mut out, &cur[k].sgr);
                    last = copy_chars(&cur[k].sgr);
                }
                out.push(cur[k].ch);
                assert(out@ =~= before + cell_text(cv, cols as nat, r as nat, c as nat, in_run, old_last));
                assert(last@ == cv[k as int].1);
            }
            in_run = emit;
            c += 1;
        }
        r += 1;
    }
    let ghost (t, l) = total;
    if last.len() > 0 {
        out.push('\x1b');
        out.push('[');
        out.push('0');
        out.push('m');
        assert(out@ =~= t + seq![esc(), '[', '0', 'm']);
    } else {
        assert(out@ =~= t);
    }
    out
}

impl DeltaRenderer {
    /// The invariant: the remembered grid has one cell per terminal cell.
    pub closed spec fn wf(&self) -> bool {
        self.prev.len() == self.term_cols * self.term_rows
    }

    /// A renderer with no history: its first frame goes out whole.
    pub fn new() -> (d: DeltaRenderer)
        ensures
            d.wf(),
            d@.force_full,
            d@.prev.len() == 0,
            d@.cols == 0,
            d@.rows == 0,
    {
        DeltaRenderer { prev: Vec::new(), term_cols: 0, term_rows: 0, force_full: true }
    }

    /// Forgets the history, so that the next frame goes out whole.
    pub fn invalidate(&mut self)
        requires
            old(self).wf(),
        ensures
            final(self).wf(),
            final(self)@ == (DeltaState { force_full: true, ..old(self)@ }),
    {
        self.force_full = true;
    }

    /// Turns an encoded frame into what must be written to show it, given what
    /// the previous call showed: the frame itself after cursor home when there
    /// is no usable history or more than 70% of the cells changed, else the
    /// run-skipping patch. The frame's grid becomes the history.
    pub fn render_delta(&mut self, full_frame: &str, term_cols: usize, term_rows: usize) -> (out:
        String)
        requires
            old(self).wf(),
            term_cols * term_rows * 100 <= usize::MAX,
        ensures
            final(self).wf(),
            final(self)@ == (DeltaState {
                prev: decode(full_frame@, term_cols as nat, term_rows as nat),
                cols: term_cols as nat,
                rows: term_rows as nat,
                force_full: false,
            }),
            out@ == delta_output(old(self)@, full_frame@, term_cols as nat, term_rows as nat),
    {
        let frame = chars_of(full_frame);
        proof {
            assert(term_cols * term_rows == term_rows * term_cols) by (nonlinear_arith);
            assert(term_cols * term_rows <= term_cols * term_rows * 100) by (nonlinear_arith);
        }
        let current = parse_frame(&frame, term_cols, term_rows);
        if term_cols != self.term_cols || term_rows != self.term_rows {
            self.term_cols = term_cols;
            self.term_rows = term_rows;
            self.force_full = true;
        }
        let total_cells = term_cols * term_rows;
        let full = if self.force_full {
            true
        } else {
            let changed = count_changed(&self.prev, &current);
            proof {
                assert(changed * 100 <= total_cells * 100) by (nonlinear_arith)
                    requires
                        changed <= total_cells,
                ;
                assert(70 * total_cells <= total_cells * 100) by (nonlinear_arith);
            }
            changed * 100 > 70 * total_cells
        };
        if full {
            self.prev = current;
            self.force_full = false;
            let mut out: Vec<char> = Vec::new();
            push_home(&mut out);
            push_all(&mut out, &frame);
            return string_of(&out);
        }
        let out = build_patch(&self.prev, &current, term_rows, term_cols);
        self.prev = current;
        string_of(&out)
    }
}

} // verus!
