//! The Braille encoder: each terminal cell shows a 2 x 4 block of pixels as
//! the dots of one Braille character, colored by the mean of its lit dots.
use vstd::prelude::*;
use crate::canvas::{color_for, fg_code, Canvas, ColorMode, color_to_fg};
use crate::delta::esc;
use crate::text::{dec, push_all, push_dec, same_chars};

verus! {

/// A dot is lit when its pixel's brightness exceeds this (thousandths).
pub const THRESHOLD: u16 = 300;

/// Column offset, row offset and bit of dot `i` of a cell: dots 1-3 and 4-6
/// run down the left and right columns, dots 7 and 8 form the bottom row.
pub open spec fn dot(i: nat) -> (nat, nat, nat) {
    if i == 0 {
        (0, 0, 0x01)
    } else if i == 1 {
        (0, 1, 0x02)
    } else if i == 2 {
        (0, 2, 0x04)
    } else if i == 3 {
        (1, 0, 0x08)
    } else if i == 4 {
        (1, 1, 0x10)
    } else if i == 5 {
        (1, 2, 0x20)
    } else if i == 6 {
        (0, 3, 0x40)
    } else {
        (1, 3, 0x80)
    }
}

/// The pixel index of dot `i` of cell (`row`, `col`), if it is on the canvas.
pub open spec fn dot_index(c: &Canvas, row: nat, col: nat, i: nat) -> Option<int> {
    let x = col * 2 + dot(i).0;
    let y = row * 4 + dot(i).1;
    if x < c.width && y < c.height {
        Some(y * c.width + x)
    } else {
        None
    }
}

/// Whether dot `i` of cell (`row`, `col`) is lit.
pub open spec fn dot_lit(c: &Canvas, row: nat, col: nat, i: nat) -> bool {
    match dot_index(c, row, col, i) {
        Some(k) => c.pixels@[k] > THRESHOLD,
        None => false,
    }
}

/// Over the first `n` dots of cell (`row`, `col`): the bitmask of lit dots,
/// the sums of their red, green and blue channels, and how many are lit.
pub open spec fn dots(c: &Canvas, row: nat, col: nat, n: nat) -> (nat, nat, nat, nat, nat)
    decreases n,
{
    if n == 0 {
        (0, 0, 0, 0, 0)
    } else {
        let a = dots(c, row, col, (n - 1) as nat);
        let i = (n - 1) as nat;
        if dot_lit(c, row, col, i) {
            let k = dot_index(c, row, col, i)->0;
            let (r, g, b) = c.colors@[k];
            (a.0 + dot(i).2, a.1 + r as nat, a.2 + g as nat, a.3 + b as nat, a.4 + 1)
        } else {
            a
        }
    }
}

/// The character whose code is `code`.
pub open spec fn char_of(code: nat) -> char {
    (code as u32) as char
}

proof fn lemma_char_code(ch: char)
    ensures
        char_of(ch as nat) == ch,
{
}

/// The glyph of cell (`row`, `col`): the Braille pattern of its lit dots.
pub open spec fn braille_glyph(c: &Canvas, row: nat, col: nat) -> char {
    char_of(0x2800 + dots(c, row, col, 8).0)
}

/// The text of cell (`row`, `col`) after rendition `last`, with the rendition
/// left in force.
pub open spec fn braille_cell(c: &Canvas, row: nat, col: nat, last: Seq<char>) -> (Seq<char>, Seq<char>) {
    let (_, sr, sg, sb, n) = dots(c, row, col, 8);
    let ch = braille_glyph(c, row, col);
    if c.color_mode != ColorMode::Mono && n > 0 {
        let fg = fg_code(
            color_for(c.color_mode, c.color_quant, (sr / n) as u8, (sg / n) as u8, (sb / n) as u8),
        );
        (
            (if fg == last {
                Seq::empty()
            } else {
                seq![esc(), '['] + fg + seq!['m']
            }) + seq![ch],
            fg,
        )
    } else {
        (
            (if last.len() > 0 {
                seq![esc(), '[', '0', 'm']
            } else {
                Seq::empty()
            }) + seq![ch],
            Seq::empty(),
        )
    }
}

/// What ends row `row`: a reset, then a move to the start of the next row
/// (one-based, below a one-line header).
pub open spec fn row_end(row: nat) -> Seq<char> {
    seq![esc(), '[', '0', 'm', esc(), '['] + dec(row + 2) + seq![';', '1', 'H']
}

/// The encoding from cell (`row`, `col`) on, of a `cols` x `rows` cell grid.
pub open spec fn braille_from(
    c: &Canvas,
    cols: nat,
    rows: nat,
    row: nat,
    col: nat,
    last: Seq<char>,
) -> Seq<char>
    decreases rows - row, cols - col,
{
    if row >= rows {
        Seq::empty()
    } else if col >= cols {
        row_end(row) + braille_from(c, cols, rows, row + 1, 0, Seq::empty())
    } else {
        let (t, l) = braille_cell(c, row, col, last);
        t + braille_from(c, cols, rows, row, col + 1, l)
    }
}

/// The whole Braille encoding of a canvas.
pub open spec fn braille_text(c: &Canvas) -> Seq<char> {
    braille_from(c, (c.width / 2) as nat, (c.height / 4) as nat, 0, 0, Seq::empty())
}

/// Relies on `char::from_u32`: `Some` of the character with that code for
/// every code that is a Unicode scalar value.
#[verifier::external_body]
fn char_from_code(code: u32) -> (r: Option<char>)
    ensures
        r is Some <==> (code < 0xD800 || (0xDFFF < code && code <= 0x10FFFF)),
        r is Some ==> r->0 as nat == code,
{
    char::from_u32(code)
}

fn dot_exec(i: usize) -> (d: (usize, usize, u32))
    requires
        i < 8,
    ensures
        (d.0 as nat, d.1 as nat, d.2 as nat) == dot(i as nat),
{
    if i == 0 {
        (0, 0, 0x01)
    } else if i == 1 {
        (0, 1, 0x02)
    } else if i == 2 {
        (0, 2, 0x04)
    } else if i == 3 {
        (1, 0, 0x08)
    } else if i == 4 {
        (1, 1, 0x10)
    } else if i == 5 {
        (1, 2, 0x20)
    } else if i == 6 {
        (0, 3, 0x40)
    } else {
        (1, 3, 0x80)
    }
}

proof fn lemma_dots_bounds(c: &Canvas, row: nat, col: nat, n: nat)
    requires
        n <= 8,
    ensures
        dots(c, row, col, n).0 < 256,
        dots(c, row, col, n).1 <= 255 * dots(c, row, col, n).4,
        dots(c, row, col, n).2 <= 255 * dots(c, row, col, n).4,
        dots(c, row, col, n).3 <= 255 * dots(c, row, col, n).4,
        dots(c, row, col, n).4 <= n,
        dots(c, row, col, n).0 < pow2_nat(n),
    decreases n,
{
    if n > 0 {
        lemma_dots_bounds(c, row, col, (n - 1) as nat);
    }
}

/// 2 to the `n`, for the bit positions of the first dots.
pub open spec fn pow2_nat(n: nat) -> nat {
    if n == 0 {
        1
    } else if n == 1 {
        2
    } else if n == 2 {
        4
    } else if n == 3 {
        8
    } else if n == 4 {
        16
    } else if n == 5 {
        32
    } else if n == 6 {
        64
    } else if n == 7 {
        128
    } else {
        256
    }
}

/// The bitmask and channel sums of cell (`row`, `col`).
fn cell_dots(c: &Canvas, row: usize, col: usize) -> (a: (u32, u32, u32, u32, u32))
    requires
        c.wf(),
        col < c.width / 2,
        row < c.height / 4,
    ensures
        (a.0 as nat, a.1 as nat, a.2 as nat, a.3 as nat, a.4 as nat) == dots(
            c,
            row as nat,
            col as nat,
            8,
        ),
{
    let mut bits: u32 = 0;
    let mut tr: u32 = 0;
    let mut tg: u32 = 0;
    let mut tb: u32 = 0;
    let mut lit: u32 = 0;
    let mut i: usize = 0;
    while i < 8
        invariant
            c.wf(),
            col < c.width / 2,
            row < c.height / 4,
            i <= 8,
            (bits as nat, tr as nat, tg as nat, tb as nat, lit as nat) == dots(
                c,
                row as nat,
                col as nat,
                i as nat,
            ),
        decreases 8 - i,
    {
        proof {
            lemma_dots_bounds(c, row as nat, col as nat, i as nat);
        }
        let (dx, dy, bit) = dot_exec(i);
        let x = col * 2 + dx;
        let y = row * 4 + dy;
        if x < c.width && y < c.height {
            proof {
                crate::delta::lemma_cell_index(y as nat, x as nat, c.height as nat, c.width as nat);
                assert(c.height * c.width == c.width * c.height) by (nonlinear_arith);
            }
            let idx = y * c.width + x;
            if c.pixels[idx] > THRESHOLD {
                let (r, g, b) = c.colors[idx];
                bits = bits + bit;
                tr = tr + r as u32;
                tg = tg + g as u32;
                tb = tb + b as u32;
                lit = lit + 1;
            }
        }
        i += 1;
    }
    (bits, tr, tg, tb, lit)
}

/// Encodes a canvas in Braille: for each cell row, each cell's glyph with its
/// color sent only when it differs from the previous cell's; each row ends
/// with a reset and an absolute move to the next row.
pub fn render(c: &Canvas) -> (out: String)
    requires
        c.wf(),
    ensures
        out@ == braille_text(c),
{
    let term_cols = c.width / 2;
    let term_rows = c.height / 4;
    let ghost total = braille_text(c);
    let mut out: Vec<char> = Vec::new();
    let use_color = c.color_mode != ColorMode::Mono;
    let mut last: Vec<char> = Vec::new();
    let mut row: usize = 0;
    while row < term_rows
        invariant
            c.wf(),
            term_cols == c.width / 2,
            term_rows == c.height / 4,
            row <= term_rows,
            use_color == (c.color_mode != ColorMode::Mono),
            total == braille_text(c),
            out@ + braille_from(c, term_cols as nat, term_rows as nat, row as nat, 0, last@)
                == total,
            last@ == Seq::<char>::empty(),
        decreases term_rows - row,
    {
        let mut col: usize = 0;
        while col < term_cols
            invariant
                c.wf(),
                term_cols == c.width / 2,
                term_rows == c.height / 4,
                row < term_rows,
                col <= term_cols,
                use_color == (c.color_mode != ColorMode::Mono),
                total == braille_text(c),
                out@ + braille_from(c, term_cols as nat, term_rows as nat, row as nat, col as nat, last@)
                    == total,
            decreases term_cols - col,
        {
            let ghost before = out@;
            let ghost old_last = last@;
            let (bits, tr, tg, tb, lit) = cell_dots(c, row, col);
            proof {
                lemma_dots_bounds(c, row as nat, col as nat, 8);
            }
            let ch = match char_from_code(0x2800 + bits) {
                Some(ch) => ch,
                None => ' ',
            };
            proof {
                lemma_char_code(ch);
            }
            assert(ch == braille_glyph(c, row as nat, col as nat));
            if use_color && lit > 0 {
                let color = c.map_color((tr / lit) as u8, (tg / lit) as u8, (tb / lit) as u8);
                let fg = color_to_fg(color);
                if !same_chars(&fg, &last) {
                    out.push('\x1b');
                    out.push('[');
                    push_all(&mut out, &fg);
                    out.push('m');
                    last = fg;
                }
                out.push(ch);
            } else {
                if last.len() > 0 {
                    out.push('\x1b');
                    out.push('[');
                    out.push('0');
                    out.push('m');
                    last = Vec::new();
                }
                out.push(ch);
            }
            let ghost piece = braille_cell(c, row as nat, col as nat, old_last);
            assert(out@ =~= before + piece.0);
            assert(last@ == piece.1);
            col += 1;
        }
        let ghost before = out@;
        out.push('\x1b');
        out.push('[');
        out.push('0');
        out.push('m');
        out.push('\x1b');
        out.push('[');
        push_dec(&mut out, (row + 2) as u64);
        out.push(';');
        out.push('1');
        out.push('H');
        assert(out@ =~= before + row_end(row as nat));
        last = Vec::new();
        row += 1;
    }
    crate::text::string_of(&out)
}

/// A fully lit block (all eight dots above the threshold) is the full
/// Braille pattern U+28FF; a block with no dot above it is the blank U+2800.
pub proof fn lemma_full_and_empty_blocks(c: &Canvas, row: nat, col: nat)
    ensures
        (forall|i: nat| i < 8 ==> #[trigger] dot_lit(c, row, col, i)) ==> braille_glyph(c, row, col)
            == char_of(0x28FF),
        (forall|i: nat| i < 8 ==> !#[trigger] dot_lit(c, row, col, i)) ==> braille_glyph(c, row, col)
            == char_of(0x2800),
{
    reveal_with_fuel(dots, 9);
    if forall|i: nat| i < 8 ==> #[trigger] dot_lit(c, row, col, i) {
        assert(dot_lit(c, row, col, 0) && dot_lit(c, row, col, 1) && dot_lit(c, row, col, 2)
            && dot_lit(c, row, col, 3) && dot_lit(c, row, col, 4) && dot_lit(c, row, col, 5)
            && dot_lit(c, row, col, 6) && dot_lit(c, row, col, 7));
        assert(dots(c, row, col, 8).0 == 255);
    }
    if forall|i: nat| i < 8 ==> !#[trigger] dot_lit(c, row, col, i) {
        assert(!dot_lit(c, row, col, 0) && !dot_lit(c, row, col, 1) && !dot_lit(c, row, col, 2)
            && !dot_lit(c, row, col, 3) && !dot_lit(c, row, col, 4) && !dot_lit(c, row, col, 5)
            && !dot_lit(c, row, col, 6) && !dot_lit(c, row, col, 7));
        assert(dots(c, row, col, 8).0 == 0);
    }
}

} // verus!
