//! The sub-cell pixel canvas and the mapping of its colors onto what the
//! terminal can show.
use vstd::prelude::*;
use crate::text::{dec, push_all, push_dec};

verus! {

/// How sub-cell pixels are packed into terminal characters.
#[derive(Clone, Copy, Debug, PartialEq, Eq, Structural)]
pub enum RenderMode {
    /// Braille dots: 2 x 4 pixels per cell.
    Braille,
    /// Upper half blocks with separate colors: 1 x 2 pixels per cell.
    HalfBlock,
    /// Characters picked by density: 1 x 1 pixel per cell.
    Ascii,
}

/// The colors the terminal is asked to show.
#[derive(Clone, Copy, Debug, PartialEq, Eq, Structural)]
pub enum ColorMode {
    Mono,
    Ansi16,
    Ansi256,
    TrueColor,
}

/// A terminal color.
#[derive(Clone, Copy, Debug, PartialEq, Eq, Structural)]
pub enum TermColor {
    Reset,
    Black,
    DarkGrey,
    Red,
    DarkRed,
    Green,
    DarkGreen,
    Yellow,
    DarkYellow,
    Blue,
    DarkBlue,
    Magenta,
    DarkMagenta,
    Cyan,
    DarkCyan,
    White,
    Grey,
    Rgb { r: u8, g: u8, b: u8 },
    AnsiValue(u8),
}

/// Full brightness: a pixel's brightness is stored in thousandths.
pub const FULL_BRIGHTNESS: u16 = 1000;

/// `v` rounded to the nearest multiple of `q` (halves round up), at most 255;
/// unchanged when `q <= 1`.
pub open spec fn quantize(v: u8, q: u8) -> u8 {
    if q > 1 {
        let x = (v + q / 2) / q as int * q;
        if x > 255 {
            255
        } else {
            x as u8
        }
    } else {
        v
    }
}

/// The 16-color choice: dark pixels are black; otherwise the strictly
/// dominant channel picks red, green or blue, else white or grey; the bright
/// variant above an average of 180.
pub open spec fn ansi16(r: u8, g: u8, b: u8) -> TermColor {
    let brightness = (r + g + b) / 3;
    if brightness < 64 {
        TermColor::Black
    } else if r > g && r > b {
        if brightness > 180 {
            TermColor::Red
        } else {
            TermColor::DarkRed
        }
    } else if g > r && g > b {
        if brightness > 180 {
            TermColor::Green
        } else {
            TermColor::DarkGreen
        }
    } else if b > r && b > g {
        if brightness > 180 {
            TermColor::Blue
        } else {
            TermColor::DarkBlue
        }
    } else if brightness > 180 {
        TermColor::White
    } else {
        TermColor::Grey
    }
}

/// An RGB color projected into color mode `mode`.
pub open spec fn project(mode: ColorMode, r: u8, g: u8, b: u8) -> TermColor {
    match mode {
        ColorMode::Mono => TermColor::White,
        ColorMode::TrueColor => TermColor::Rgb { r, g, b },
        ColorMode::Ansi256 => TermColor::AnsiValue(
            (16 + 36 * (r / 51) + 6 * (g / 51) + b / 51) as u8,
        ),
        ColorMode::Ansi16 => ansi16(r, g, b),
    }
}

/// The terminal color for RGB under color mode `mode` and quantization step `q`.
pub open spec fn color_for(mode: ColorMode, q: u8, r: u8, g: u8, b: u8) -> TermColor {
    project(mode, quantize(r, q), quantize(g, q), quantize(b, q))
}

/// The SGR number of a named foreground color.
pub open spec fn named_fg(c: TermColor) -> nat {
    match c {
        TermColor::Black => 30,
        TermColor::DarkRed => 31,
        TermColor::DarkGreen => 32,
        TermColor::DarkYellow => 33,
        TermColor::DarkBlue => 34,
        TermColor::DarkMagenta => 35,
        TermColor::DarkCyan => 36,
        TermColor::Grey => 37,
        TermColor::DarkGrey => 90,
        TermColor::Red => 91,
        TermColor::Green => 92,
        TermColor::Yellow => 93,
        TermColor::Blue => 94,
        TermColor::Magenta => 95,
        TermColor::Cyan => 96,
        TermColor::White => 97,
        _ => 37,
    }
}

/// The SGR parameters for `c` as a foreground (`layer` 3) or background
/// (`layer` 4) color.
pub open spec fn color_code(c: TermColor, layer: char) -> Seq<char> {
    match c {
        TermColor::Rgb { r, g, b } => seq![layer, '8', ';', '2', ';'] + dec(r as nat) + seq![';']
            + dec(g as nat) + seq![';'] + dec(b as nat),
        TermColor::AnsiValue(v) => seq![layer, '8', ';', '5', ';'] + dec(v as nat),
        TermColor::Reset => if layer == '3' {
            seq!['3', '7']
        } else {
            seq!['4', '0']
        },
        _ => if layer == '3' {
            dec(named_fg(c))
        } else {
            dec(named_fg(c) + 10)
        },
    }
}

/// The foreground SGR parameters for `c`.
pub open spec fn fg_code(c: TermColor) -> Seq<char> {
    color_code(c, '3')
}

/// The background SGR parameters for `c`.
pub open spec fn bg_code(c: TermColor) -> Seq<char> {
    color_code(c, '4')
}

fn quantize_exec(v: u8, q: u8) -> (r: u8)
    ensures
        r == quantize(v, q),
{
    if q > 1 {
        let qq = q as u16;
        let f: u16 = (v as u16 + qq / 2) / qq;
        proof {
            assert(f * qq <= v + q / 2) by (nonlinear_arith)
                requires
                    q > 1,
                    v >= 0,
                    qq == q,
                    f == (v + q / 2) / q as int,
            ;
        }
        let x: u16 = f * qq;
        if x > 255 {
            255
        } else {
            x as u8
        }
    } else {
        v
    }
}

fn ansi16_exec(r: u8, g: u8, b: u8) -> (c: TermColor)
    ensures
        c == ansi16(r, g, b),
{
    let brightness = (r as u16 + g as u16 + b as u16) / 3;
    if brightness < 64 {
        TermColor::Black
    } else if r > g && r > b {
        if brightness > 180 {
            TermColor::Red
        } else {
            TermColor::DarkRed
        }
    } else if g > r && g > b {
        if brightness > 180 {
            TermColor::Green
        } else {
            TermColor::DarkGreen
        }
    } else if b > r && b > g {
        if brightness > 180 {
            TermColor::Blue
        } else {
            TermColor::DarkBlue
        }
    } else if brightness > 180 {
        TermColor::White
    } else {
        TermColor::Grey
    }
}

/// Maps an RGB color onto color mode `mode` after quantizing each channel
/// with step `q`.
pub fn map_color_in(mode: ColorMode, q: u8, r: u8, g: u8, b: u8) -> (c: TermColor)
    ensures
        c == color_for(mode, q, r, g, b),
{
    let r = quantize_exec(r, q);
    let g = quantize_exec(g, q);
    let b = quantize_exec(b, q);
    match mode {
        ColorMode::Mono => TermColor::White,
        ColorMode::TrueColor => TermColor::Rgb { r, g, b },
        ColorMode::Ansi256 => {
            let idx: u16 = 16 + (36 * (r as u16 / 51)) + (6 * (g as u16 / 51)) + (b as u16 / 51);
            TermColor::AnsiValue(idx as u8)
        },
        ColorMode::Ansi16 => ansi16_exec(r, g, b),
    }
}

fn named_fg_exec(c: TermColor) -> (n: usize)
    ensures
        n == named_fg(c),
{
    match c {
        TermColor::Black => 30,
        TermColor::DarkRed => 31,
        TermColor::DarkGreen => 32,
        TermColor::DarkYellow => 33,
        TermColor::DarkBlue => 34,
        TermColor::DarkMagenta => 35,
        TermColor::DarkCyan => 36,
        TermColor::Grey => 37,
        TermColor::DarkGrey => 90,
        TermColor::Red => 91,
        TermColor::Green => 92,
        TermColor::Yellow => 93,
        TermColor::Blue => 94,
        TermColor::Magenta => 95,
        TermColor::Cyan => 96,
        TermColor::White => 97,
        _ => 37,
    }
}

/// The SGR parameters of `c` on layer `layer` ('3' foreground, '4' background).
pub fn color_code_exec(c: TermColor, layer: char) -> (v: Vec<char>)
    requires
        layer == '3' || layer == '4',
    ensures
        v@ == color_code(c, layer),
{
    let mut v: Vec<char> = Vec::new();
    match c {
        TermColor::Rgb { r, g, b } => {
            v.push(layer);
            v.push('8');
            v.push(';');
            v.push('2');
            v.push(';');
            push_dec(&mut v, r as u64);
            v.push(';');
            push_dec(&mut v, g as u64);
            v.push(';');
            push_dec(&mut v, b as u64);
            assert(v@ =~= color_code(c, layer));
        },
        TermColor::AnsiValue(x) => {
            v.push(layer);
            v.push('8');
            v.push(';');
            v.push('5');
            v.push(';');
            push_dec(&mut v, x as u64);
            assert(v@ =~= color_code(c, layer));
        },
        TermColor::Reset => {
            if layer == '3' {
                v.push('3');
                v.push('7');
            } else {
                v.push('4');
                v.push('0');
            }
            assert(v@ =~= color_code(c, layer));
        },
        _ => {
            let n = named_fg_exec(c);
            if layer == '3' {
                push_dec(&mut v, n as u64);
            } else {
                push_dec(&mut v, (n + 10) as u64);
            }
            assert(v@ =~= color_code(c, layer));
        },
    }
    v
}

/// The foreground SGR parameters for a color.
pub fn color_to_fg(c: TermColor) -> (v: Vec<char>)
    ensures
        v@ == fg_code(c),
{
    color_code_exec(c, '3')
}

/// The background SGR parameters for a color.
pub fn color_to_bg(c: TermColor) -> (v: Vec<char>)
    ensures
        v@ == bg_code(c),
{
    color_code_exec(c, '4')
}

/// The hue of an RGB color in hundredths of a degree, on the hexagonal
/// model (0 for grays).
pub open spec fn hue_of(r: u8, g: u8, b: u8) -> int {
    let max = if r >= g && r >= b {
        r as int
    } else if g >= b {
        g as int
    } else {
        b as int
    };
    let min = if r <= g && r <= b {
        r as int
    } else if g <= b {
        g as int
    } else {
        b as int
    };
    let delta = max - min;
    if delta == 0 {
        0
    } else if max == r {
        ((36000 * delta + 6000 * (g - b)) / delta) % 36000
    } else if max == g {
        (12000 * delta + 6000 * (b - r)) / delta
    } else {
        (24000 * delta + 6000 * (r - g)) / delta
    }
}

/// The color with the same value and saturation as (`r`, `g`, `b`) and its
/// hue turned by `shift` degrees.
pub open spec fn rotate_hue(rgb: (u8, u8, u8), shift: u32) -> (u8, u8, u8) {
    let (r, g, b) = rgb;
    let max = if r >= g && r >= b {
        r as int
    } else if g >= b {
        g as int
    } else {
        b as int
    };
    let min = if r <= g && r <= b {
        r as int
    } else if g <= b {
        g as int
    } else {
        b as int
    };
    let c = max - min;
    let h = (hue_of(r, g, b) + (shift % 360) * 100) % 36000;
    let d = h % 12000 - 6000;
    let x = c * (6000 - (if d < 0 {
        -d
    } else {
        d
    })) / 6000;
    let sector = h / 6000;
    let (r1, g1, b1) = if sector == 0 {
        (c, x, 0)
    } else if sector == 1 {
        (x, c, 0)
    } else if sector == 2 {
        (0, c, x)
    } else if sector == 3 {
        (0, x, c)
    } else if sector == 4 {
        (x, 0, c)
    } else {
        (c, 0, x)
    };
    ((r1 + min) as u8, (g1 + min) as u8, (b1 + min) as u8)
}

/// Brightness `p` scaled by `intensity` thousandths, at most full.
pub open spec fn scaled_brightness(p: u16, intensity: u32) -> u16 {
    let v = p * intensity / 1000;
    if v > FULL_BRIGHTNESS {
        FULL_BRIGHTNESS
    } else {
        v as u16
    }
}

fn rotate_hue_exec(rgb: (u8, u8, u8), shift: u32) -> (out: (u8, u8, u8))
    ensures
        out == rotate_hue(rgb, shift),
{
    let (r, g, b) = rgb;
    let max: u64 = if r >= g && r >= b {
        r as u64
    } else if g >= b {
        g as u64
    } else {
        b as u64
    };
    let min: u64 = if r <= g && r <= b {
        r as u64
    } else if g <= b {
        g as u64
    } else {
        b as u64
    };
    let c: u64 = max - min;
    let (r64, g64, b64) = (r as u64, g as u64, b as u64);
    let hue: u64 = if c == 0 {
        0
    } else if max == r64 {
        proof {
            assert(36000 * c + 6000 * g64 >= 6000 * b64) by (nonlinear_arith)
                requires
                    b64 <= max,
                    min <= g64,
                    c == max - min,
                    b64 >= min,
            ;
        }
        ((36000 * c + 6000 * g64 - 6000 * b64) / c) % 36000
    } else if max == g64 {
        proof {
            assert(12000 * c + 6000 * b64 >= 6000 * r64) by (nonlinear_arith)
                requires
                    r64 <= max,
                    min <= b64,
                    c == max - min,
                    r64 >= min,
            ;
            assert((12000 * c + 6000 * b64 - 6000 * r64) / (c as int) <= 18000) by (nonlinear_arith)
                requires
                    b64 <= max,
                    r64 >= min,
                    c == max - min,
                    c > 0,
            ;
        }
        (12000 * c + 6000 * b64 - 6000 * r64) / c
    } else {
        proof {
            assert(24000 * c + 6000 * r64 >= 6000 * g64) by (nonlinear_arith)
                requires
                    g64 <= max,
                    min <= r64,
                    c == max - min,
                    g64 >= min,
            ;
            assert((24000 * c + 6000 * r64 - 6000 * g64) / (c as int) <= 30000) by (nonlinear_arith)
                requires
                    r64 <= max,
                    g64 >= min,
                    c == max - min,
                    c > 0,
            ;
        }
        (24000 * c + 6000 * r64 - 6000 * g64) / c
    };
    assert(hue as int == hue_of(r, g, b));
    let h: u64 = (hue + (shift % 360) as u64 * 100) % 36000;
    let hm: u64 = h % 12000;
    let dist: u64 = if hm >= 6000 {
        hm - 6000
    } else {
        6000 - hm
    };
    proof {
        assert(c * (6000 - dist) / 6000 <= c) by (nonlinear_arith)
            requires
                dist <= 6000,
        ;
    }
    let x: u64 = c * (6000 - dist) / 6000;
    let sector = h / 6000;
    let (r1, g1, b1): (u64, u64, u64) = if sector == 0 {
        (c, x, 0)
    } else if sector == 1 {
        (x, c, 0)
    } else if sector == 2 {
        (0, c, x)
    } else if sector == 3 {
        (0, x, c)
    } else if sector == 4 {
        (x, 0, c)
    } else {
        (c, 0, x)
    };
    ((r1 + min) as u8, (g1 + min) as u8, (b1 + min) as u8)
}

impl Canvas {
    /// Post-processing over the whole canvas: every brightness scaled by
    /// `intensity` thousandths (at most full) unless it is exactly 1000, and
    /// every color's hue turned by `hue_shift` degrees unless that is a whole
    /// number of turns.
    pub fn apply_effects(&mut self, intensity: u32, hue_shift: u32)
        requires
            old(self).wf(),
        ensures
            final(self).wf(),
            final(self).width == old(self).width,
            final(self).height == old(self).height,
            final(self).render_mode == old(self).render_mode,
            final(self).color_mode == old(self).color_mode,
            final(self).color_quant == old(self).color_quant,
            final(self).char_override@ == old(self).char_override@,
            final(self).pixels@ == if intensity != 1000 {
                old(self).pixels@.map_values(|p: u16| scaled_brightness(p, intensity))
            } else {
                old(self).pixels@
            },
            final(self).colors@ == if hue_shift % 360 != 0 {
                old(self).colors@.map_values(|c: (u8, u8, u8)| rotate_hue(c, hue_shift))
            } else {
                old(self).colors@
            },
    {
        if intensity != 1000 {
            let mut i: usize = 0;
            while i < self.pixels.len()
                invariant
                    i <= self.pixels.len(),
                    self.pixels.len() == old(self).pixels.len(),
                    self.width == old(self).width,
                    self.height == old(self).height,
                    self.render_mode == old(self).render_mode,
                    self.color_mode == old(self).color_mode,
                    self.color_quant == old(self).color_quant,
                    self.colors@ == old(self).colors@,
                    self.char_override@ == old(self).char_override@,
                    forall|k: int| 0 <= k < i ==> #[trigger] self.pixels@[k] == scaled_brightness(old(self).pixels@[k], intensity),
                    forall|k: int| i <= k < self.pixels.len() ==> #[trigger] self.pixels@[k] == old(self).pixels@[k],
                decreases self.pixels.len() - i,
            {
                let p = self.pixels[i];
                proof {
                    assert(p * intensity <= 0xffff * 0xffff_ffffnat) by (nonlinear_arith)
                        requires
                            p <= 0xffff,
                            intensity <= 0xffff_ffff,
                    ;
                }
                let v: u64 = p as u64 * intensity as u64 / 1000;
                self.pixels[i] = if v > FULL_BRIGHTNESS as u64 {
                    FULL_BRIGHTNESS
                } else {
                    v as u16
                };
                i += 1;
            }
            assert(self.pixels@ =~= old(self).pixels@.map_values(|p: u16| scaled_brightness(p, intensity)));
        }
        let ghost mid = self.pixels@;
        if hue_shift % 360 != 0 {
            let mut i: usize = 0;
            while i < self.colors.len()
                invariant
                    i <= self.colors.len(),
                    self.colors.len() == old(self).colors.len(),
                    self.pixels@ == mid,
                    self.width == old(self).width,
                    self.height == old(self).height,
                    self.render_mode == old(self).render_mode,
                    self.color_mode == old(self).color_mode,
                    self.color_quant == old(self).color_quant,
                    self.char_override@ == old(self).char_override@,
                    forall|k: int| 0 <= k < i ==> #[trigger] self.colors@[k] == rotate_hue(old(self).colors@[k], hue_shift),
                    forall|k: int| i <= k < self.colors.len() ==> #[trigger] self.colors@[k] == old(self).colors@[k],
                decreases self.colors.len() - i,
            {
                let c = self.colors[i];
                self.colors[i] = rotate_hue_exec(c, hue_shift);
                i += 1;
            }
            assert(self.colors@ =~= old(self).colors@.map_values(|c: (u8, u8, u8)| rotate_hue(c, hue_shift)));
        }
    }
}

/// Quantizing with step `q > 1` gives a multiple of `q`, or the 255 clamp, no
/// further than `q / 2` from the value given.
pub proof fn lemma_quantize_step(v: u8, q: u8)
    requires
        q > 1,
    ensures
        quantize(v, q) % q == 0 || quantize(v, q) == 255,
        -(q / 2) <= quantize(v, q) - v <= q / 2,
{
    let x = (v + q / 2) / q as int * q;
    let f = (v + q / 2) / q as int;
    assert(x % q as int == 0) by (nonlinear_arith)
        requires
            x == f * q,
            q > 1,
    ;
    assert(x <= v + q / 2 && x > v + q / 2 - q) by (nonlinear_arith)
        requires
            x == f * q,
            f == (v + q / 2) / q as int,
            q > 1,
            v >= 0,
    ;
    assert(q - q / 2 - 1 <= q / 2);
}

/// True color without quantization passes the color through unchanged.
pub proof fn lemma_truecolor_identity(r: u8, g: u8, b: u8)
    ensures
        color_for(ColorMode::TrueColor, 0, r, g, b) == (TermColor::Rgb { r, g, b }),
{
}

/// A grid of sub-cell pixels, each with a brightness (in thousandths, where
/// `FULL_BRIGHTNESS` is fully lit), a color, and in ASCII mode an optional
/// explicit glyph (`'\0'` for none). Pixel (`x`, `y`) is stored at
/// `y * width + x`.
pub struct Canvas {
    pub width: usize,
    pub height: usize,
    pub pixels: Vec<u16>,
    pub colors: Vec<(u8, u8, u8)>,
    pub render_mode: RenderMode,
    pub color_mode: ColorMode,
    pub char_override: Vec<char>,
    /// Color quantization step: 0 or 1 is off.
    pub color_quant: u8,
}

/// The pixel size of a canvas for a terminal of `cols` x `rows` cells.
pub open spec fn pixel_size(mode: RenderMode, cols: nat, rows: nat) -> (nat, nat) {
    match mode {
        RenderMode::Braille => (cols * 2, rows * 4),
        RenderMode::HalfBlock => (cols, rows * 2),
        RenderMode::Ascii => (cols, rows),
    }
}

/// The terminal size in cells that a canvas of `w` x `h` pixels fills.
pub open spec fn cell_size(mode: RenderMode, w: nat, h: nat) -> (nat, nat) {
    match mode {
        RenderMode::Braille => (w / 2, h / 4),
        RenderMode::HalfBlock => (w, h / 2),
        RenderMode::Ascii => (w, h),
    }
}

impl Canvas {
    /// The invariant: one brightness, color and glyph per pixel.
    pub open spec fn wf(&self) -> bool {
        &&& self.pixels.len() == self.width * self.height
        &&& self.colors.len() == self.width * self.height
        &&& self.char_override.len() == self.width * self.height
    }

    /// A dark canvas for a terminal of `term_cols` x `term_rows` cells: every
    /// pixel at brightness 0, white, with no glyph; no quantization.
    pub fn new(term_cols: usize, term_rows: usize, render_mode: RenderMode, color_mode: ColorMode) -> (c: Canvas)
        requires
            term_cols * 2 <= usize::MAX,
            term_rows * 4 <= usize::MAX,
            term_cols * 2 * term_rows * 4 <= usize::MAX,
        ensures
            c.wf(),
            (c.width as nat, c.height as nat) == pixel_size(render_mode, term_cols as nat, term_rows as nat),
            c.render_mode == render_mode,
            c.color_mode == color_mode,
            c.color_quant == 0,
            forall|i: int| 0 <= i < c.pixels.len() ==> #[trigger] c.pixels@[i] == 0,
            forall|i: int| 0 <= i < c.colors.len() ==> #[trigger] c.colors@[i] == (255u8, 255u8, 255u8),
            forall|i: int| 0 <= i < c.char_override.len() ==> #[trigger] c.char_override@[i] == '\0',
    {
        proof {
            assert(term_cols * term_rows * 2 <= term_cols * 2 * term_rows * 4) by (nonlinear_arith);
            assert(term_cols * term_rows <= term_cols * 2 * term_rows * 4) by (nonlinear_arith);
            assert(term_cols * 2 * (term_rows * 4) == term_cols * 2 * term_rows * 4) by (nonlinear_arith);
        }
        let (w, h): (usize, usize) = match render_mode {
            RenderMode::Braille => (term_cols * 2, term_rows * 4),
            RenderMode::HalfBlock => (term_cols, term_rows * 2),
            RenderMode::Ascii => (term_cols, term_rows),
        };
        proof {
            assert(term_cols * (term_rows * 2) == term_cols * term_rows * 2) by (nonlinear_arith);
        }
        let size = w * h;
        let mut pixels: Vec<u16> = Vec::new();
        let mut colors: Vec<(u8, u8, u8)> = Vec::new();
        let mut glyphs: Vec<char> = Vec::new();
        let mut i: usize = 0;
        while i < size
            invariant
                i <= size,
                pixels.len() == i,
                colors.len() == i,
                glyphs.len() == i,
                forall|k: int| 0 <= k < i ==> #[trigger] pixels@[k] == 0,
                forall|k: int| 0 <= k < i ==> #[trigger] colors@[k] == (255u8, 255u8, 255u8),
                forall|k: int| 0 <= k < i ==> #[trigger] glyphs@[k] == '\0',
            decreases size - i,
        {
            pixels.push(0);
            colors.push((255, 255, 255));
            glyphs.push('\0');
            i += 1;
        }
        Canvas {
            width: w,
            height: h,
            pixels,
            colors,
            render_mode,
            color_mode,
            char_override: glyphs,
            color_quant: 0,
        }
    }

    /// Makes every pixel dark and white, with no glyph.
    pub fn clear(&mut self)
        requires
            old(self).wf(),
        ensures
            final(self).wf(),
            final(self).width == old(self).width,
            final(self).height == old(self).height,
            final(self).render_mode == old(self).render_mode,
            final(self).color_mode == old(self).color_mode,
            final(self).color_quant == old(self).color_quant,
            forall|i: int| 0 <= i < final(self).pixels.len() ==> #[trigger] final(self).pixels@[i] == 0,
            forall|i: int| 0 <= i < final(self).colors.len() ==> #[trigger] final(self).colors@[i] == (255u8, 255u8, 255u8),
            forall|i: int| 0 <= i < final(self).char_override.len() ==> #[trigger] final(self).char_override@[i] == '\0',
    {
        let n = self.pixels.len();
        let mut i: usize = 0;
        while i < n
            invariant
                i <= n,
                self.wf(),
                n == self.pixels.len(),
                self.width == old(self).width,
                self.height == old(self).height,
                self.render_mode == old(self).render_mode,
                self.color_mode == old(self).color_mode,
                self.color_quant == old(self).color_quant,
                forall|k: int| 0 <= k < i ==> #[trigger] self.pixels@[k] == 0,
                forall|k: int| 0 <= k < i ==> #[trigger] self.colors@[k] == (255u8, 255u8, 255u8),
                forall|k: int| 0 <= k < i ==> #[trigger] self.char_override@[k] == '\0',
            decreases n - i,
        {
            self.pixels[i] = 0;
            self.colors[i] = (255, 255, 255);
            self.char_override[i] = '\0';
            i += 1;
        }
    }

    /// Puts glyph `ch` at full brightness with a color at pixel (`x`, `y`);
    /// nothing happens off the canvas.
    pub fn set_char(&mut self, x: usize, y: usize, ch: char, r: u8, g: u8, b: u8)
        requires
            old(self).wf(),
        ensures
            final(self).wf(),
            final(self).width == old(self).width,
            final(self).height == old(self).height,
            final(self).render_mode == old(self).render_mode,
            final(self).color_mode == old(self).color_mode,
            final(self).color_quant == old(self).color_quant,
            if x < old(self).width && y < old(self).height {
                let i = y * old(self).width + x;
                &&& final(self).pixels@ == old(self).pixels@.update(i, FULL_BRIGHTNESS)
                &&& final(self).colors@ == old(self).colors@.update(i, (r, g, b))
                &&& final(self).char_override@ == old(self).char_override@.update(i, ch)
            } else {
                &&& final(self).pixels@ == old(self).pixels@
                &&& final(self).colors@ == old(self).colors@
                &&& final(self).char_override@ == old(self).char_override@
            },
    {
        if x < self.width && y < self.height {
            proof {
                crate::delta::lemma_cell_index(y as nat, x as nat, self.height as nat, self.width as nat);
                assert(self.height * self.width == self.width * self.height) by (nonlinear_arith);
            }
            let idx = y * self.width + x;
            self.char_override[idx] = ch;
            self.pixels[idx] = FULL_BRIGHTNESS;
            self.colors[idx] = (r, g, b);
        }
    }

    /// Sets the brightness (in thousandths) of pixel (`x`, `y`); nothing
    /// happens off the canvas.
    pub fn set(&mut self, x: usize, y: usize, brightness: u16)
        requires
            old(self).wf(),
        ensures
            final(self).wf(),
            final(self).width == old(self).width,
            final(self).height == old(self).height,
            final(self).render_mode == old(self).render_mode,
            final(self).color_mode == old(self).color_mode,
            final(self).color_quant == old(self).color_quant,
            final(self).colors@ == old(self).colors@,
            final(self).char_override@ == old(self).char_override@,
            final(self).pixels@ == if x < old(self).width && y < old(self).height {
                old(self).pixels@.update(y * old(self).width + x, brightness)
            } else {
                old(self).pixels@
            },
    {
        if x < self.width && y < self.height {
            proof {
                crate::delta::lemma_cell_index(y as nat, x as nat, self.height as nat, self.width as nat);
                assert(self.height * self.width == self.width * self.height) by (nonlinear_arith);
            }
            self.pixels[y * self.width + x] = brightness;
        }
    }

    /// Sets the brightness (in thousandths) and color of pixel (`x`, `y`);
    /// nothing happens off the canvas.
    pub fn set_colored(&mut self, x: usize, y: usize, brightness: u16, r: u8, g: u8, b: u8)
        requires
            old(self).wf(),
        ensures
            final(self).wf(),
            final(self).width == old(self).width,
            final(self).height == old(self).height,
            final(self).render_mode == old(self).render_mode,
            final(self).color_mode == old(self).color_mode,
            final(self).color_quant == old(self).color_quant,
            final(self).char_override@ == old(self).char_override@,
            if x < old(self).width && y < old(self).height {
                let i = y * old(self).width + x;
                &&& final(self).pixels@ == old(self).pixels@.update(i, brightness)
                &&& final(self).colors@ == old(self).colors@.update(i, (r, g, b))
            } else {
                &&& final(self).pixels@ == old(self).pixels@
                &&& final(self).colors@ == old(self).colors@
            },
    {
        if x < self.width && y < self.height {
            proof {
                crate::delta::lemma_cell_index(y as nat, x as nat, self.height as nat, self.width as nat);
                assert(self.height * self.width == self.width * self.height) by (nonlinear_arith);
            }
            let idx = y * self.width + x;
            self.pixels[idx] = brightness;
            self.colors[idx] = (r, g, b);
        }
    }

    /// The terminal size in cells that this canvas fills.
    pub fn term_size(&self) -> (s: (usize, usize))
        ensures
            (s.0 as nat, s.1 as nat) == cell_size(self.render_mode, self.width as nat, self.height as nat),
    {
        match self.render_mode {
            RenderMode::Braille => (self.width / 2, self.height / 4),
            RenderMode::HalfBlock => (self.width, self.height / 2),
            RenderMode::Ascii => (self.width, self.height),
        }
    }

    /// The frame text of this canvas in its render mode.
    pub fn render(&self) -> (out: String)
        requires
            self.wf(),
            self.height <= usize::MAX - 2,
        ensures
            out@ == match self.render_mode {
                RenderMode::Braille => crate::braille::braille_text(self),
                RenderMode::HalfBlock => crate::halfblock::half_text(self),
                RenderMode::Ascii => crate::ascii::ascii_text(self),
            },
    {
        match self.render_mode {
            RenderMode::Braille => crate::braille::render(self),
            RenderMode::HalfBlock => crate::halfblock::render(self),
            RenderMode::Ascii => crate::ascii::render(self),
        }
    }

    /// The terminal color for an RGB color under this canvas's color mode and
    /// quantization step.
    pub fn map_color(&self, r: u8, g: u8, b: u8) -> (c: TermColor)
        ensures
            c == color_for(self.color_mode, self.color_quant, r, g, b),
    {
        map_color_in(self.color_mode, self.color_quant, r, g, b)
    }
}

} // verus!
