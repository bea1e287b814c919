//! What the delta renderer's output does on a terminal: sending a frame twice
//! sends nothing the second time, and a patch drawn over the previous frame
//! gives the same screen as the new frame drawn whole.
use vstd::prelude::*;
use crate::delta::{
    cell_text, changed_count, control, cursor_to, decode, delta_output, emitted, esc, final_at,
    index_of, is_final, move_to, mostly_changed, paint, paint_from, patch, patch_at, put,
    sgr_after, sgr_code, unchanged_run, CellView, DeltaState, Pen,
};
use crate::text::{dec, lemma_dec_digits, lemma_parse_dec, is_digit};

verus! {

/// Fallback: when more than 70% of the cells of a frame differ from the
/// remembered grid, the renderer sends the frame whole after cursor home.
pub proof fn lemma_mostly_changed_sends_whole_frame(
    st: DeltaState,
    f: Seq<char>,
    cols: nat,
    rows: nat,
)
    requires
        mostly_changed(st.prev, decode(f, cols, rows), rows, cols),
    ensures
        delta_output(st, f, cols, rows) == crate::delta::home() + f,
{
}

proof fn lemma_unchanged_run_same(g: Seq<CellView>, cols: nat, r: nat, c: nat)
    requires
        c <= cols,
    ensures
        unchanged_run(g, g, cols, r, c) == cols - c,
    decreases cols - c,
{
    if c < cols {
        lemma_unchanged_run_same(g, cols, r, c + 1);
    }
}

proof fn lemma_patch_at_same(
    g: Seq<CellView>,
    rows: nat,
    cols: nat,
    r: nat,
    c: nat,
    in_run: bool,
    last: Seq<char>,
)
    requires
        c <= cols,
    ensures
        patch_at(g, g, rows, cols, r, c, in_run, last) == (Seq::<char>::empty(), last),
    decreases rows - r, cols - c,
{
    if r >= rows {
    } else if c >= cols {
        lemma_patch_at_same(g, rows, cols, r + 1, 0, false, last);
    } else {
        lemma_unchanged_run_same(g, cols, r, c);
        assert(!emitted(g, g, cols, r, c, in_run));
        lemma_patch_at_same(g, rows, cols, r, c + 1, false, last);
    }
}

proof fn lemma_changed_count_same(g: Seq<CellView>, n: nat)
    ensures
        changed_count(g, g, n) == 0,
    decreases n,
{
    if n > 0 {
        lemma_changed_count_same(g, (n - 1) as nat);
    }
}

/// Sending the same frame twice in a row: once the renderer has shown frame
/// `f`, showing `f` again writes nothing.
pub proof fn lemma_same_frame_twice_sends_nothing(f: Seq<char>, cols: nat, rows: nat)
    ensures
        delta_output(
            DeltaState { prev: decode(f, cols, rows), cols, rows, force_full: false },
            f,
            cols,
            rows,
        ) == Seq::<char>::empty(),
{
    let g = decode(f, cols, rows);
    lemma_changed_count_same(g, rows * cols);
    assert(!mostly_changed(g, g, rows, cols));
    lemma_patch_at_same(g, rows, cols, 0, 0, false, Seq::empty());
}

/// A cell that the terminal model can have produced: its rendition holds no
/// final character and is not the reset code `0`.
pub open spec fn plain_sgr(s: Seq<char>) -> bool {
    (forall|i: int| 0 <= i < s.len() ==> !is_final(#[trigger] s[i])) && s != seq!['0']
}

proof fn lemma_final_at_shift(a: Seq<char>, b: Seq<char>, j: int)
    requires
        0 <= j <= b.len(),
    ensures
        final_at(a + b, a.len() + j) == a.len() + final_at(b, j),
    decreases b.len() - j,
{
    if j < b.len() {
        assert((a + b)[a.len() + j] == b[j]);
        lemma_final_at_shift(a, b, j + 1);
    }
}

/// Running the model over `a + b` from inside `b` ignores `a`.
proof fn lemma_paint_shift(p: Pen, a: Seq<char>, b: Seq<char>, j: int)
    requires
        0 <= j <= b.len(),
    ensures
        paint_from(p, a + b, a.len() + j) == paint_from(p, b, j),
    decreases b.len() - j,
{
    let s = a + b;
    let i = a.len() + j;
    if j < b.len() {
        assert(s[i] == b[j]);
        if j + 1 < b.len() {
            assert(s[i + 1] == b[j + 1]);
        }
        if b[j] == esc() && j + 1 < b.len() && b[j + 1] == '[' {
            lemma_final_at_shift(a, b, j + 2);
            let k = final_at(b, j + 2);
            if k < b.len() && k >= j + 2 {
                assert(s.subrange(i + 2, a.len() + k) =~= b.subrange(j + 2, k));
                assert(s[a.len() + k] == b[k]);
                lemma_paint_shift(control(p, b.subrange(j + 2, k), b[k]), a, b, k + 1);
            }
        } else {
            lemma_paint_shift(put(p, b[j]), a, b, j + 1);
        }
    }
}

/// A printable character followed by more text.
proof fn lemma_paint_char(p: Pen, c: char, b: Seq<char>)
    requires
        c != esc(),
    ensures
        paint(p, seq![c] + b) == paint(put(p, c), b),
{
    let s = seq![c] + b;
    assert(s[0] == c);
    lemma_paint_shift(put(p, c), seq![c], b, 0);
}

proof fn lemma_final_at_plain(s: Seq<char>, j: int, m: int)
    requires
        0 <= j <= m < s.len(),
        is_final(s[m]),
        forall|i: int| j <= i < m ==> !is_final(#[trigger] s[i]),
    ensures
        final_at(s, j) == m,
    decreases m - j,
{
    if j < m {
        lemma_final_at_plain(s, j + 1, m);
    }
}

/// A complete control sequence followed by more text.
proof fn lemma_paint_control(p: Pen, params: Seq<char>, t: char, b: Seq<char>)
    requires
        is_final(t),
        forall|i: int| 0 <= i < params.len() ==> !is_final(#[trigger] params[i]),
    ensures
        paint(p, seq![esc(), '['] + params + seq![t] + b) == paint(control(p, params, t), b),
{
    let a = seq![esc(), '['] + params + seq![t];
    let s = a + b;
    assert(seq![esc(), '['] + params + seq![t] + b == s);
    let m = params.len() + 2int;
    assert(s[0] == esc() && s[1] == '[');
    assert(s[m] == t);
    assert forall|i: int| 2 <= i < m implies !is_final(#[trigger] s[i]) by {
        assert(s[i] == params[i - 2]);
    }
    lemma_final_at_plain(s, 2, m);
    assert(s.subrange(2, m) =~= params);
    assert(a.len() == m + 1);
    lemma_paint_shift(control(p, params, t), a, b, 0);
    assert(a + b.subrange(0, b.len() as int) =~= s);
}

proof fn lemma_index_of_digits(s: Seq<char>, j: int, m: int)
    requires
        0 <= j <= m < s.len(),
        s[m] == ';',
        forall|i: int| j <= i < m ==> #[trigger] s[i] != ';',
    ensures
        index_of(s, ';', j) == m,
    decreases m - j,
{
    if j < m {
        lemma_index_of_digits(s, j + 1, m);
    }
}

/// The cursor move to (`r`, `c`) puts the model's cursor there.
proof fn lemma_paint_move(p: Pen, r: nat, c: nat, b: Seq<char>)
    requires
        r < usize::MAX,
        c < usize::MAX,
    ensures
        paint(p, move_to(r, c) + b) == paint(Pen { row: r, col: c, ..p }, b),
{
    let dr = dec(r + 1);
    let dc = dec(c + 1);
    let params = dr + seq![';'] + dc;
    lemma_dec_digits(r + 1);
    lemma_dec_digits(c + 1);
    lemma_parse_dec((r + 1) as usize);
    lemma_parse_dec((c + 1) as usize);
    assert forall|i: int| 0 <= i < params.len() implies !is_final(#[trigger] params[i]) by {
        if i < dr.len() {
            assert(params[i] == dr[i]);
            assert(is_digit(dr[i]));
        } else if i > dr.len() {
            assert(params[i] == dc[i - dr.len() - 1]);
            assert(is_digit(dc[i - dr.len() - 1]));
        }
    }
    assert forall|i: int| 0 <= i < dr.len() implies #[trigger] params[i] != ';' by {
        assert(params[i] == dr[i]);
        assert(is_digit(dr[i]));
    }
    lemma_index_of_digits(params, 0, dr.len() as int);
    assert(params.subrange(0, dr.len() as int) =~= dr);
    assert(params.subrange(dr.len() + 1int, params.len() as int) =~= dc);
    assert(cursor_to(params) == (r, c));
    assert(move_to(r, c) + b =~= seq![esc(), '['] + params + seq!['H'] + b);
    lemma_paint_control(p, params, 'H', b);
}

/// Putting rendition `s` in force.
proof fn lemma_paint_sgr(p: Pen, s: Seq<char>, b: Seq<char>)
    requires
        plain_sgr(s),
    ensures
        paint(p, sgr_code(s) + b) == paint(Pen { sgr: s, ..p }, b),
{
    if s.len() == 0 {
        assert(sgr_code(s) + b =~= seq![esc(), '['] + seq!['0'] + seq!['m'] + b);
        assert forall|i: int| 0 <= i < 1 implies !is_final(#[trigger] seq!['0'][i]) by {}
        lemma_paint_control(p, seq!['0'], 'm', b);
        assert(sgr_after(seq!['0']) =~= s);
    } else {
        assert(sgr_code(s) + b =~= seq![esc(), '['] + s + seq!['m'] + b);
        lemma_paint_control(p, s, 'm', b);
    }
}

proof fn lemma_empty_plain()
    ensures
        plain_sgr(Seq::<char>::empty()),
{
    assert(seq!['0'].len() == 1);
    assert(Seq::<char>::empty() != seq!['0']);
}

proof fn lemma_final_at_skips(s: Seq<char>, j: int, i: int)
    requires
        0 <= j <= i < final_at(s, j),
    ensures
        !is_final(s[i]),
    decreases i - j,
{
    if j < i {
        lemma_final_at_skips(s, j + 1, i);
    }
}

/// A pen whose rendition and cells all carry plain renditions.
pub open spec fn plain_pen(p: Pen) -> bool {
    p.grid.len() == p.rows * p.cols && plain_sgr(p.sgr) && forall|k: int| 0 <= k < p.grid.len() ==> plain_sgr(#[trigger] p.grid[k].1)
}

proof fn lemma_paint_plain(p: Pen, s: Seq<char>, i: int)
    requires
        plain_pen(p),
    ensures
        plain_pen(paint_from(p, s, i)),
        paint_from(p, s, i).grid.len() == p.grid.len(),
        paint_from(p, s, i).rows == p.rows,
        paint_from(p, s, i).cols == p.cols,
    decreases s.len() - i,
{
    if i < 0 || i >= s.len() {
    } else if s[i] == esc() && i + 1 < s.len() && s[i + 1] == '[' {
        let k = final_at(s, i + 2);
        if k < s.len() && k >= i + 2 {
            let params = s.subrange(i + 2, k);
            assert forall|q: int| 0 <= q < params.len() implies !is_final(#[trigger] params[q]) by {
                lemma_final_at_skips(s, i + 2, i + 2 + q);
            }
            let p2 = control(p, params, s[k]);
            lemma_empty_plain();
            assert(plain_sgr(sgr_after(params)));
            assert(plain_pen(p2));
            lemma_paint_plain(p2, s, k + 1);
        }
    } else {
        let p2 = put(p, s[i]);
        if p.row < p.rows && p.col < p.cols {
            crate::delta::lemma_cell_index(p.row, p.col, p.rows, p.cols);
        }
        assert(p2.grid.len() == p.grid.len());
        assert forall|q: int| 0 <= q < p2.grid.len() implies plain_sgr(#[trigger] p2.grid[q].1) by {
            if p.row < p.rows && p.col < p.cols && q == p.row * p.cols + p.col {
            } else {
                assert(p2.grid[q] == p.grid[q]);
            }
        }
        lemma_paint_plain(p2, s, i + 1);
    }
}

/// Every cell of a decoded grid carries a plain rendition.
pub proof fn lemma_decode_plain(f: Seq<char>, cols: nat, rows: nat)
    ensures
        decode(f, cols, rows).len() == rows * cols,
        forall|k: int|
            0 <= k < rows * cols ==> plain_sgr(#[trigger] decode(f, cols, rows)[k].1),
{
    let p = crate::delta::fresh(cols, rows);
    lemma_empty_plain();
    assert(plain_pen(p));
    lemma_paint_plain(p, f, 0);
}

proof fn lemma_pos_bounds(r: nat, c: nat, rows: nat, cols: nat)
    ensures
        r >= rows ==> r * cols + c >= rows * cols,
        c == cols ==> r * cols + c == (r + 1) * cols,
{
    assert(r >= rows ==> r * cols >= rows * cols) by (nonlinear_arith);
    assert((r + 1) * cols == r * cols + cols) by (nonlinear_arith);
}

/// Sending one cell: the text of cell (`r`, `c`) lands its glyph and
/// rendition there and leaves the cursor just after it.
proof fn lemma_paint_cell(
    cur: Seq<CellView>,
    rows: nat,
    cols: nat,
    r: nat,
    c: nat,
    in_run: bool,
    last: Seq<char>,
    p: Pen,
    b: Seq<char>,
)
    requires
        rows < usize::MAX,
        cols < usize::MAX,
        r < rows,
        c < cols,
        cur.len() == rows * cols,
        p.rows == rows,
        p.cols == cols,
        p.grid.len() == rows * cols,
        p.sgr == last,
        in_run ==> p.row == r && p.col == c,
        plain_sgr(cur[(r * cols + c) as int].1),
        cur[(r * cols + c) as int].0 != esc(),
    ensures
        paint(p, cell_text(cur, cols, r, c, in_run, last) + b) == paint(
            Pen {
                grid: p.grid.update((r * cols + c) as int, cur[(r * cols + c) as int]),
                row: r,
                col: c + 1,
                sgr: cur[(r * cols + c) as int].1,
                ..p
            },
            b,
        ),
{
    crate::delta::lemma_cell_index(r, c, rows, cols);
    let k = (r * cols + c) as int;
    let cell = cur[k];
    let p1 = Pen { row: r, col: c, ..p };
    let mv: Seq<char> = if in_run {
        Seq::empty()
    } else {
        move_to(r, c)
    };
    let sg: Seq<char> = if cell.1 == last {
        Seq::empty()
    } else {
        sgr_code(cell.1)
    };
    let tail = seq![cell.0] + b;
    assert(cell_text(cur, cols, r, c, in_run, last) + b =~= mv + (sg + tail));
    if in_run {
        assert(p1 == p);
        assert(mv + (sg + tail) =~= sg + tail);
    } else {
        lemma_paint_move(p, r, c, sg + tail);
    }
    let p2 = Pen { sgr: cell.1, ..p1 };
    if cell.1 == last {
        assert(p2 == p1);
        assert(sg + tail =~= tail);
    } else {
        lemma_paint_sgr(p1, cell.1, tail);
    }
    lemma_paint_char(p2, cell.0, b);
}

/// The patch from cell (`r`, `c`) on, painted over a screen that already shows
/// `cur` before that cell and `prev` from it on, finishes showing `cur`; and
/// what follows it is painted from where it left off.
proof fn lemma_patch_at_paints(
    prev: Seq<CellView>,
    cur: Seq<CellView>,
    rows: nat,
    cols: nat,
    r: nat,
    c: nat,
    in_run: bool,
    last: Seq<char>,
    p: Pen,
    b: Seq<char>,
)
    requires
        rows < usize::MAX,
        cols < usize::MAX,
        c <= cols,
        prev.len() == rows * cols,
        cur.len() == rows * cols,
        p.rows == rows,
        p.cols == cols,
        p.grid.len() == rows * cols,
        p.sgr == last,
        plain_sgr(last),
        in_run ==> p.row == r && p.col == c,
        forall|k: int| 0 <= k < rows * cols ==> plain_sgr(#[trigger] cur[k].1),
        forall|k: int| 0 <= k < rows * cols ==> (#[trigger] cur[k]).0 != esc(),
        forall|k: int|
            0 <= k < rows * cols ==> #[trigger] p.grid[k] == if k < r * cols + c {
                cur[k]
            } else {
                prev[k]
            },
    ensures
        paint(p, patch_at(prev, cur, rows, cols, r, c, in_run, last).0).grid == cur,
        paint(p, patch_at(prev, cur, rows, cols, r, c, in_run, last).0 + b) == paint(
            paint(p, patch_at(prev, cur, rows, cols, r, c, in_run, last).0),
            b,
        ),
    decreases rows - r, cols - c,
{
    lemma_pos_bounds(r, c, rows, cols);
    let text = patch_at(prev, cur, rows, cols, r, c, in_run, last).0;
    if r >= rows {
        assert(p.grid =~= cur);
        assert(text + b =~= b);
        assert(paint(p, text) == p);
    } else if c >= cols {
        lemma_patch_at_paints(prev, cur, rows, cols, r + 1, 0, false, last, p, b);
    } else {
        crate::delta::lemma_cell_index(r, c, rows, cols);
        let k = (r * cols + c) as int;
        let cell = cur[k];
        if emitted(prev, cur, cols, r, c, in_run) {
            let rest = patch_at(prev, cur, rows, cols, r, c + 1, true, cell.1).0;
            let ct = cell_text(cur, cols, r, c, in_run, last);
            let p3 = Pen { grid: p.grid.update(k, cell), row: r, col: c + 1, sgr: cell.1, ..p };
            assert(text == ct + rest);
            assert(text + b =~= ct + (rest + b));
            lemma_paint_cell(cur, rows, cols, r, c, in_run, last, p, rest + b);
            lemma_paint_cell(cur, rows, cols, r, c, in_run, last, p, rest);
            assert forall|q: int| 0 <= q < rows * cols implies #[trigger] p3.grid[q] == if q < r
                * cols + (c + 1) {
                cur[q]
            } else {
                prev[q]
            } by {
                if q != k {
                    assert(p3.grid[q] == p.grid[q]);
                }
            }
            lemma_patch_at_paints(prev, cur, rows, cols, r, c + 1, true, cell.1, p3, b);
        } else {
            assert(prev[k] == cur[k]);
            assert forall|q: int| 0 <= q < rows * cols implies #[trigger] p.grid[q] == if q < r
                * cols + (c + 1) {
                cur[q]
            } else {
                prev[q]
            } by {}
            lemma_patch_at_paints(prev, cur, rows, cols, r, c + 1, false, last, p, b);
        }
    }
}

/// Patch validity: on a screen that shows frame `f1` with no rendition in
/// force, the patch from `f1` to `f2` leaves exactly the grid that `f2`
/// draws on an empty screen, whenever no cell of `f2` holds the escape
/// character as its glyph.
pub proof fn lemma_patch_reproduces_frame(
    f1: Seq<char>,
    f2: Seq<char>,
    cols: nat,
    rows: nat,
    p: Pen,
)
    requires
        rows < usize::MAX,
        cols < usize::MAX,
        p.rows == rows,
        p.cols == cols,
        p.grid == decode(f1, cols, rows),
        p.sgr == Seq::<char>::empty(),
        forall|k: int|
            0 <= k < rows * cols ==> (#[trigger] decode(f2, cols, rows)[k]).0 != esc(),
    ensures
        paint(p, patch(decode(f1, cols, rows), decode(f2, cols, rows), rows, cols)).grid
            == decode(f2, cols, rows),
{
    let prev = decode(f1, cols, rows);
    let cur = decode(f2, cols, rows);
    lemma_decode_plain(f1, cols, rows);
    lemma_decode_plain(f2, cols, rows);
    lemma_empty_plain();
    let reset = seq![esc(), '[', '0', 'm'];
    lemma_patch_at_paints(prev, cur, rows, cols, 0, 0, false, Seq::empty(), p, reset);
    let (t, l) = patch_at(prev, cur, rows, cols, 0, 0, false, Seq::empty());
    if l.len() > 0 {
        let p1 = paint(p, t);
        assert(reset =~= seq![esc(), '['] + seq!['0'] + seq!['m'] + Seq::<char>::empty());
        assert forall|i: int| 0 <= i < 1 implies !is_final(#[trigger] seq!['0'][i]) by {}
        lemma_paint_control(p1, seq!['0'], 'm', Seq::empty());
        assert(paint(control(p1, seq!['0'], 'm'), Seq::<char>::empty()) == control(
            p1,
            seq!['0'],
            'm',
        ));
    }
}

} // verus!
