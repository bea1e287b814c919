//! The ASCII encoder: one pixel per cell, shown as its explicit glyph or as a
//! character picked from a density ramp by its brightness.
use vstd::prelude::*;
use crate::braille::row_end;
use crate::canvas::{color_for, color_to_fg, fg_code, Canvas, ColorMode, FULL_BRIGHTNESS};
use crate::delta::esc;
use crate::text::{push_all, push_dec, same_chars};

verus! {

/// The density ramp, from darkest to brightest.
pub open spec fn ramp() -> Seq<char> {
    seq![' ', '.', ':', '-', '=', '+', '*', '#', '%', '@']
}

/// The ramp position of brightness `v` (clamped to full): `floor(v * 9)`.
pub open spec fn ramp_index(v: u16) -> int {
    let v = if v > FULL_BRIGHTNESS {
        FULL_BRIGHTNESS
    } else {
        v
    };
    v * 9 / FULL_BRIGHTNESS as int
}

/// The glyph of pixel `k`: its explicit glyph, else the ramp character.
pub open spec fn ascii_glyph(c: &Canvas, k: int) -> char {
    if c.char_override@[k] != '\0' {
        c.char_override@[k]
    } else {
        ramp()[ramp_index(c.pixels@[k])]
    }
}

/// The text of cell (`row`, `col`) after foreground `last`, and the
/// foreground left in force.
pub open spec fn ascii_cell(c: &Canvas, row: nat, col: nat, last: Seq<char>) -> (Seq<char>, Seq<char>) {
    let k = (row * c.width + col) as int;
    let ch = ascii_glyph(c, k);
    if c.color_mode != ColorMode::Mono {
        let (r, g, b) = c.colors@[k];
        let fg = fg_code(color_for(c.color_mode, c.color_quant, r, g, b));
        (
            (if fg == last {
                Seq::empty()
            } else {
                seq![esc(), '['] + fg + seq!['m']
            }) + seq![ch],
            fg,
        )
    } else {
        (seq![ch], last)
    }
}

/// The encoding from cell (`row`, `col`) on.
pub open spec fn ascii_from(
    c: &Canvas,
    cols: nat,
    rows: nat,
    row: nat,
    col: nat,
    last: Seq<char>,
) -> Seq<char>
    decreases rows - row, cols - col,
{
    if row >= rows {
        Seq::empty()
    } else if col >= cols {
        row_end(row) + ascii_from(c, cols, rows, row + 1, 0, Seq::empty())
    } else {
        let (t, l) = ascii_cell(c, row, col, last);
        t + ascii_from(c, cols, rows, row, col + 1, l)
    }
}

/// The whole ASCII encoding of a canvas.
pub open spec fn ascii_text(c: &Canvas) -> Seq<char> {
    ascii_from(c, c.width as nat, c.height as nat, 0, 0, Seq::empty())
}

fn ramp_char(i: usize) -> (ch: char)
    requires
        i < 10,
    ensures
        ch == ramp()[i as int],
{
    if i == 0 {
        ' '
    } else if i == 1 {
        '.'
    } else if i == 2 {
        ':'
    } else if i == 3 {
        '-'
    } else if i == 4 {
        '='
    } else if i == 5 {
        '+'
    } else if i == 6 {
        '*'
    } else if i == 7 {
        '#'
    } else if i == 8 {
        '%'
    } else {
        '@'
    }
}

/// Encodes a canvas as ASCII: each pixel's glyph, with its color sent only
/// when it differs from the previous cell's; each row ends with a reset and
/// an absolute move to the next row.
pub fn render(c: &Canvas) -> (out: String)
    requires
        c.wf(),
        c.height <= usize::MAX - 2,
    ensures
        out@ == ascii_text(c),
{
    let cols = c.width;
    let rows = c.height;
    let ghost total = ascii_text(c);
    let use_color = c.color_mode != ColorMode::Mono;
    let mut out: Vec<char> = Vec::new();
    let mut last: Vec<char> = Vec::new();
    let mut row: usize = 0;
    while row < rows
        invariant
            c.wf(),
            c.height <= usize::MAX - 2,
            cols == c.width,
            rows == c.height,
            row <= rows,
            use_color == (c.color_mode != ColorMode::Mono),
            total == ascii_text(c),
            out@ + ascii_from(c, cols as nat, rows as nat, row as nat, 0, last@) == total,
        decreases rows - row,
    {
        let mut col: usize = 0;
        while col < cols
            invariant
                c.wf(),
                c.height <= usize::MAX - 2,
                cols == c.width,
                rows == c.height,
                row < rows,
                col <= cols,
                use_color == (c.color_mode != ColorMode::Mono),
                total == ascii_text(c),
                out@ + ascii_from(c, cols as nat, rows as nat, row as nat, col as nat, last@)
                    == total,
            decreases cols - col,
        {
            let ghost before = out@;
            let ghost old_last = last@;
            proof {
                crate::delta::lemma_cell_index(row as nat, col as nat, rows as nat, cols as nat);
                assert(rows * cols == cols * rows) by (nonlinear_arith);
            }
            let idx = row * cols + col;
            let v: u16 = if c.pixels[idx] > FULL_BRIGHTNESS {
                FULL_BRIGHTNESS
            } else {
                c.pixels[idx]
            };
            let co = c.char_override[idx];
            let ch = if co != '\0' {
                co
            } else {
                proof {
                    assert(v * 9 / 1000 < 10) by (nonlinear_arith)
                        requires
                            v <= 1000,
                    ;
                }
                ramp_char((v as usize * 9) / 1000)
            };
            if use_color {
                let (r, g, b) = c.colors[idx];
                let fg = color_to_fg(c.map_color(r, g, b));
                if !same_chars(&fg, &last) {
                    out.push('\x1b');
                    out.push('[');
                    push_all(&mut out, &fg);
                    out.push('m');
                    last = fg;
                }
            }
            out.push(ch);
            let ghost piece = ascii_cell(c, row as nat, col as nat, old_last);
            assert(out@ =~= before + piece.0);
            assert(last@ == piece.1);
            col += 1;
        }
        let ghost before = out@;
        out.push('\x1b');
        out.push('[');
        out.push('0');
        out.push('m');
        out.push('\x1b');
        out.push('[');
        push_dec(&mut out, (row + 2) as u64);
        out.push(';');
        out.push('1');
        out.push('H');
        assert(out@ =~= before + row_end(row as nat));
        last = Vec::new();
        row += 1;
    }
    crate::text::string_of(&out)
}

} // verus!
