//! The half-block encoder: each terminal cell shows two stacked pixels as an
//! upper half block whose foreground is the top pixel and whose background is
//! the bottom pixel, each color scaled by its pixel's brightness.
use vstd::prelude::*;
use crate::canvas::{
    bg_code, color_for, color_to_bg, color_to_fg, fg_code, Canvas, ColorMode, FULL_BRIGHTNESS,
};
use crate::delta::esc;
use crate::text::{dec, push_all, push_dec, same_chars};

verus! {

/// A pixel darker than this (thousandths) counts as background.
pub const DARK_THRESHOLD: u16 = 20;

/// Channel `c` scaled by brightness `v` (clamped to full).
pub open spec fn scale(c: u8, v: u16) -> u8 {
    let v = if v > FULL_BRIGHTNESS {
        FULL_BRIGHTNESS
    } else {
        v
    };
    (c * v / FULL_BRIGHTNESS as int) as u8
}

/// The pixel indices of the top and bottom halves of cell (`row`, `col`).
pub open spec fn halves(c: &Canvas, row: nat, col: nat) -> (int, int) {
    ((row * 2 * c.width + col) as int, ((row * 2 + 1) * c.width + col) as int)
}

/// The terminal color of pixel `k`, its channels scaled by its brightness.
pub open spec fn scaled_color(c: &Canvas, k: int) -> crate::canvas::TermColor {
    let (r, g, b) = c.colors@[k];
    let v = c.pixels@[k];
    color_for(c.color_mode, c.color_quant, scale(r, v), scale(g, v), scale(b, v))
}

/// The foreground and background parameters of cell (`row`, `col`).
pub open spec fn half_colors(c: &Canvas, row: nat, col: nat) -> (Seq<char>, Seq<char>) {
    let (t, b) = halves(c, row, col);
    (fg_code(scaled_color(c, t)), bg_code(scaled_color(c, b)))
}

/// The encoder's memory along a row: the foreground and background
/// parameters in force, and whether any color is in force.
pub struct HalfState {
    pub fg: Seq<char>,
    pub bg: Seq<char>,
    pub in_color: bool,
}

/// No color in force.
pub open spec fn no_color() -> HalfState {
    HalfState { fg: Seq::empty(), bg: Seq::empty(), in_color: false }
}

/// The reset sequence.
pub open spec fn reset() -> Seq<char> {
    seq![esc(), '[', '0', 'm']
}

/// The text of cell (`row`, `col`) after state `st`, and the state after it.
pub open spec fn half_cell(c: &Canvas, row: nat, col: nat, st: HalfState) -> (Seq<char>, HalfState) {
    let (t, b) = halves(c, row, col);
    let top_dark = c.pixels@[t] < DARK_THRESHOLD;
    let bot_dark = c.pixels@[b] < DARK_THRESHOLD;
    if c.color_mode == ColorMode::Mono {
        let ch = if !top_dark && !bot_dark {
            '█'
        } else if !top_dark {
            '▀'
        } else if !bot_dark {
            '▄'
        } else {
            ' '
        };
        (seq![ch], st)
    } else if top_dark && bot_dark {
        if st.in_color {
            (reset() + seq![' '], no_color())
        } else {
            (seq![' '], st)
        }
    } else {
        let (fg, bg) = half_colors(c, row, col);
        let fg_changed = fg != st.fg;
        let bg_changed = bg != st.bg;
        let code = if fg_changed && bg_changed {
            seq![esc(), '['] + fg + seq![';'] + bg + seq!['m']
        } else if fg_changed {
            seq![esc(), '['] + fg + seq!['m']
        } else if bg_changed {
            seq![esc(), '['] + bg + seq!['m']
        } else {
            Seq::empty()
        };
        (code + seq!['▀'], HalfState { fg, bg, in_color: true })
    }
}

/// What ends row `row`: a reset if a color is in force, then a move to the
/// start of the next row.
pub open spec fn half_row_end(row: nat, st: HalfState) -> Seq<char> {
    (if st.in_color {
        reset()
    } else {
        Seq::empty()
    }) + seq![esc(), '['] + dec(row + 2) + seq![';', '1', 'H']
}

/// The encoding from cell (`row`, `col`) on.
pub open spec fn half_from(
    c: &Canvas,
    cols: nat,
    rows: nat,
    row: nat,
    col: nat,
    st: HalfState,
) -> Seq<char>
    decreases rows - row, cols - col,
{
    if row >= rows {
        Seq::empty()
    } else if col >= cols {
        half_row_end(row, st) + half_from(
            c,
            cols,
            rows,
            row + 1,
            0,
            if st.in_color {
                no_color()
            } else {
                st
            },
        )
    } else {
        let (t, s) = half_cell(c, row, col, st);
        t + half_from(c, cols, rows, row, col + 1, s)
    }
}

/// The whole half-block encoding of a canvas.
pub open spec fn half_text(c: &Canvas) -> Seq<char> {
    half_from(c, c.width as nat, (c.height / 2) as nat, 0, 0, no_color())
}

fn scale_exec(ch: u8, v: u16) -> (r: u8)
    ensures
        r == scale(ch, v),
{
    let v: u32 = if v > FULL_BRIGHTNESS {
        FULL_BRIGHTNESS as u32
    } else {
        v as u32
    };
    proof {
        assert(ch * v <= 255 * 1000) by (nonlinear_arith)
            requires
                ch <= 255,
                v <= 1000,
        ;
        assert(ch * v / 1000 <= 255) by (nonlinear_arith)
            requires
                ch <= 255,
                v <= 1000,
        ;
    }
    ((ch as u32 * v) / 1000) as u8
}

fn scaled_color_exec(c: &Canvas, k: usize) -> (t: crate::canvas::TermColor)
    requires
        c.wf(),
        k < c.width * c.height,
    ensures
        t == scaled_color(c, k as int),
{
    let (r, g, b) = c.colors[k];
    let v = c.pixels[k];
    c.map_color(scale_exec(r, v), scale_exec(g, v), scale_exec(b, v))
}

proof fn lemma_halves_in(c: &Canvas, row: nat, col: nat)
    requires
        c.wf(),
        row < c.height / 2,
        col < c.width,
    ensures
        0 <= halves(c, row, col).0 < c.width * c.height,
        0 <= halves(c, row, col).1 < c.width * c.height,
{
    crate::delta::lemma_cell_index(row * 2, col, c.height as nat, c.width as nat);
    crate::delta::lemma_cell_index(row * 2 + 1, col, c.height as nat, c.width as nat);
    assert(c.height * c.width == c.width * c.height) by (nonlinear_arith);
}

/// Encodes a canvas in half blocks: in color modes each cell is an upper half
/// block with its top pixel as foreground and its bottom pixel as background,
/// sending only the colors that changed since the previous cell, and a plain
/// space (after a reset) where both pixels are dark; in mono mode the block
/// glyph shows which halves are lit. Each row ends with an absolute move to
/// the next row.
pub fn render(c: &Canvas) -> (out: String)
    requires
        c.wf(),
    ensures
        out@ == half_text(c),
{
    let term_cols = c.width;
    let term_rows = c.height / 2;
    let ghost total = half_text(c);
    let mut out: Vec<char> = Vec::new();
    let mut last_fg: Vec<char> = Vec::new();
    let mut last_bg: Vec<char> = Vec::new();
    let mut in_color = false;
    let mut row: usize = 0;
    while row < term_rows
        invariant
            c.wf(),
            term_cols == c.width,
            term_rows == c.height / 2,
            row <= term_rows,
            total == half_text(c),
            out@ + half_from(
                c,
                term_cols as nat,
                term_rows as nat,
                row as nat,
                0,
                HalfState { fg: last_fg@, bg: last_bg@, in_color },
            ) == total,
        decreases term_rows - row,
    {
        let mut col: usize = 0;
        while col < term_cols
            invariant
                c.wf(),
                term_cols == c.width,
                term_rows == c.height / 2,
                row < term_rows,
                col <= term_cols,
                total == half_text(c),
                out@ + half_from(
                    c,
                    term_cols as nat,
                    term_rows as nat,
                    row as nat,
                    col as nat,
                    HalfState { fg: last_fg@, bg: last_bg@, in_color },
                ) == total,
            decreases term_cols - col,
        {
            let ghost before = out@;
            let ghost st = HalfState { fg: last_fg@, bg: last_bg@, in_color };
            proof {
                lemma_halves_in(c, row as nat, col as nat);
            }
            let top_idx = row * 2 * c.width + col;
            let bot_idx = (row * 2 + 1) * c.width + col;
            let top_v = c.pixels[top_idx];
            let bot_v = c.pixels[bot_idx];
            let top_dark = top_v < DARK_THRESHOLD;
            let bot_dark = bot_v < DARK_THRESHOLD;
            if c.color_mode == ColorMode::Mono {
                if !top_dark && !bot_dark {
                    out.push('█');
                } else if !top_dark {
                    out.push('▀');
                } else if !bot_dark {
                    out.push('▄');
                } else {
                    out.push(' ');
                }
            } else if top_dark && bot_dark {
                if in_color {
                    out.push('\x1b');
                    out.push('[');
                    out.push('0');
                    out.push('m');
                    in_color = false;
                    last_fg = Vec::new();
                    last_bg = Vec::new();
                }
                out.push(' ');
            } else {
                let fg = color_to_fg(scaled_color_exec(c, top_idx));
                let bg = color_to_bg(scaled_color_exec(c, bot_idx));
                let fg_changed = !same_chars(&fg, &last_fg);
                let bg_changed = !same_chars(&bg, &last_bg);
                if fg_changed && bg_changed {
                    out.push('\x1b');
                    out.push('[');
                    push_all(&mut out, &fg);
                    out.push(';');
                    push_all(&mut out, &bg);
                    out.push('m');
                } else if fg_changed {
                    out.push('\x1b');
                    out.push('[');
                    push_all(&mut out, &fg);
                    out.push('m');
                } else if bg_changed {
                    out.push('\x1b');
                    out.push('[');
                    push_all(&mut out, &bg);
                    out.push('m');
                }
                last_fg = fg;
                last_bg = bg;
                in_color = true;
                out.push('▀');
            }
            let ghost piece = half_cell(c, row as nat, col as nat, st);
            assert(out@ =~= before + piece.0);
            assert(HalfState { fg: last_fg@, bg: last_bg@, in_color } == piece.1);
            col += 1;
        }
        let ghost before = out@;
        let ghost st = HalfState { fg: last_fg@, bg: last_bg@, in_color };
        if in_color {
            out.push('\x1b');
            out.push('[');
            out.push('0');
            out.push('m');
            in_color = false;
            last_fg = Vec::new();
            last_bg = Vec::new();
        }
        out.push('\x1b');
        out.push('[');
        push_dec(&mut out, (row + 2) as u64);
        out.push(';');
        out.push('1');
        out.push('H');
        assert(out@ =~= before + half_row_end(row as nat, st));
        assert(HalfState { fg: last_fg@, bg: last_bg@, in_color } == (if st.in_color {
            no_color()
        } else {
            st
        }));
        row += 1;
    }
    crate::text::string_of(&out)
}

/// In true-color and 256-color modes, a cell with a lit half is an upper
/// half block whose foreground parameters are a `38;` color and whose
/// background parameters are a distinct `48;` color; after a reset both are
/// sent together right before the glyph.
pub proof fn lemma_lit_cell_is_split_block(c: &Canvas, row: nat, col: nat, st: HalfState)
    requires
        c.color_mode == ColorMode::TrueColor || c.color_mode == ColorMode::Ansi256,
        c.pixels@[halves(c, row, col).0] >= DARK_THRESHOLD || c.pixels@[halves(c, row, col).1]
            >= DARK_THRESHOLD,
    ensures
        ({
            let (text, _) = half_cell(c, row, col, st);
            let (fg, bg) = half_colors(c, row, col);
            &&& text.len() > 0
            &&& text.last() == '▀'
            &&& fg.subrange(0, 3) == seq!['3', '8', ';']
            &&& bg.subrange(0, 3) == seq!['4', '8', ';']
            &&& fg != bg
            &&& st == no_color() ==> text == seq![esc(), '['] + fg + seq![';'] + bg + seq![
                'm',
                '▀',
            ]
        }),
{
    let (text, _) = half_cell(c, row, col, st);
    let (fg, bg) = half_colors(c, row, col);
    assert(fg.subrange(0, 3) =~= seq!['3', '8', ';']);
    assert(bg.subrange(0, 3) =~= seq!['4', '8', ';']);
    assert(fg[0] != bg[0]);
    if st == no_color() {
        assert(fg.len() > 0 && bg.len() > 0);
        assert(fg != st.fg);
        assert(bg != st.bg);
        assert(text =~= seq![esc(), '['] + fg + seq![';'] + bg + seq!['m', '▀']);
    }
}

} // verus!
