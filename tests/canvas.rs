use termflix::ascii;
use termflix::braille;
use termflix::canvas::{color_to_bg, color_to_fg, map_color_in, Canvas, ColorMode, RenderMode, TermColor};
use termflix::halfblock;

fn s(v: Vec<char>) -> String {
    v.into_iter().collect()
}

#[test]
fn truecolor_without_quantization_is_identity() {
    for &(r, g, b) in &[(0u8, 0u8, 0u8), (1, 2, 3), (255, 128, 7), (255, 255, 255)] {
        assert_eq!(map_color_in(ColorMode::TrueColor, 0, r, g, b), TermColor::Rgb { r, g, b });
    }
}

#[test]
fn quantization_rounds_to_multiples() {
    let c = map_color_in(ColorMode::TrueColor, 16, 7, 8, 250);
    assert_eq!(c, TermColor::Rgb { r: 0, g: 16, b: 255 });
    for q in 2u8..=32 {
        for v in 0u8..=255 {
            if let TermColor::Rgb { r, .. } = map_color_in(ColorMode::TrueColor, q, v, 0, 0) {
                assert!(r % q == 0 || r == 255);
                assert!((r as i32 - v as i32).abs() <= (q / 2) as i32);
            } else {
                panic!("true color expected");
            }
        }
    }
}

#[test]
fn color_modes_project() {
    assert_eq!(map_color_in(ColorMode::Mono, 0, 1, 2, 3), TermColor::White);
    assert_eq!(map_color_in(ColorMode::Ansi256, 0, 255, 102, 51), TermColor::AnsiValue(16 + 180 + 12 + 1));
    assert_eq!(map_color_in(ColorMode::Ansi16, 0, 10, 10, 10), TermColor::Black);
    assert_eq!(map_color_in(ColorMode::Ansi16, 0, 255, 200, 200), TermColor::Red);
    assert_eq!(map_color_in(ColorMode::Ansi16, 0, 150, 60, 60), TermColor::DarkRed);
    assert_eq!(map_color_in(ColorMode::Ansi16, 0, 200, 200, 200), TermColor::White);
    assert_eq!(map_color_in(ColorMode::Ansi16, 0, 100, 100, 100), TermColor::Grey);
}

#[test]
fn sgr_codes() {
    assert_eq!(s(color_to_fg(TermColor::Rgb { r: 1, g: 22, b: 255 })), "38;2;1;22;255");
    assert_eq!(s(color_to_bg(TermColor::Rgb { r: 1, g: 22, b: 255 })), "48;2;1;22;255");
    assert_eq!(s(color_to_fg(TermColor::AnsiValue(196))), "38;5;196");
    assert_eq!(s(color_to_bg(TermColor::AnsiValue(7))), "48;5;7");
    assert_eq!(s(color_to_fg(TermColor::Red)), "91");
    assert_eq!(s(color_to_bg(TermColor::Red)), "101");
    assert_eq!(s(color_to_fg(TermColor::Black)), "30");
    assert_eq!(s(color_to_bg(TermColor::Grey)), "47");
    assert_eq!(s(color_to_fg(TermColor::Reset)), "37");
    assert_eq!(s(color_to_bg(TermColor::Reset)), "40");
}

#[test]
fn canvas_sizes_follow_render_mode() {
    let c = Canvas::new(3, 2, RenderMode::Braille, ColorMode::Mono);
    assert_eq!((c.width, c.height), (6, 8));
    assert_eq!(c.term_size(), (3, 2));
    let c = Canvas::new(3, 2, RenderMode::HalfBlock, ColorMode::Mono);
    assert_eq!((c.width, c.height), (3, 4));
    let c = Canvas::new(3, 2, RenderMode::Ascii, ColorMode::Mono);
    assert_eq!((c.width, c.height, c.pixels.len()), (3, 2, 6));
}

#[test]
fn out_of_range_writes_are_dropped() {
    let mut c = Canvas::new(2, 2, RenderMode::Ascii, ColorMode::Mono);
    c.set_colored(5, 0, 1000, 1, 2, 3);
    c.set_char(0, 9, 'x', 1, 2, 3);
    assert!(c.pixels.iter().all(|&p| p == 0));
    c.set_colored(1, 1, 500, 1, 2, 3);
    assert_eq!(c.pixels[3], 500);
    assert_eq!(c.colors[3], (1, 2, 3));
    c.clear();
    assert_eq!(c.pixels[3], 0);
    assert_eq!(c.colors[3], (255, 255, 255));
}

#[test]
fn braille_two_by_two_scenario() {
    let mut c = Canvas::new(2, 2, RenderMode::Braille, ColorMode::Mono);
    assert_eq!((c.width, c.height), (4, 8));
    for y in 0..4 {
        for x in 0..2 {
            c.set(x, y, 1000);
        }
    }
    assert_eq!(
        c.render(),
        "\u{28FF}\u{2800}\x1b[0m\x1b[2;1H\u{2800}\u{2800}\x1b[0m\x1b[3;1H"
    );
}

#[test]
fn braille_dots_and_threshold() {
    let mut c = Canvas::new(1, 1, RenderMode::Braille, ColorMode::Mono);
    c.set(0, 0, 301);
    c.set(1, 3, 1000);
    c.set(0, 1, 300);
    assert_eq!(braille::render(&c), "\u{2881}\x1b[0m\x1b[2;1H");
}

#[test]
fn braille_color_is_mean_of_lit_dots() {
    let mut c = Canvas::new(2, 1, RenderMode::Braille, ColorMode::TrueColor);
    c.set_colored(0, 0, 1000, 100, 0, 10);
    c.set_colored(1, 0, 1000, 201, 0, 20);
    assert_eq!(
        c.render(),
        "\x1b[38;2;150;0;15m\u{2809}\x1b[0m\u{2800}\x1b[0m\x1b[2;1H"
    );
}

#[test]
fn halfblock_split_cell() {
    let mut c = Canvas::new(2, 1, RenderMode::HalfBlock, ColorMode::TrueColor);
    c.set_colored(0, 0, 1000, 255, 0, 0);
    c.set_colored(0, 1, 500, 0, 0, 200);
    c.set_colored(1, 0, 1000, 255, 0, 0);
    c.set_colored(1, 1, 1000, 0, 0, 200);
    assert_eq!(
        halfblock::render(&c),
        "\x1b[38;2;255;0;0;48;2;0;0;100m▀\x1b[48;2;0;0;200m▀\x1b[0m\x1b[2;1H"
    );
}

#[test]
fn halfblock_dark_cells_reset_to_space() {
    let mut c = Canvas::new(2, 1, RenderMode::HalfBlock, ColorMode::Ansi256);
    c.set_colored(0, 0, 1000, 255, 255, 255);
    c.set_colored(1, 0, 19, 255, 255, 255);
    assert_eq!(
        c.render(),
        "\x1b[38;5;231;48;5;16m▀\x1b[0m \x1b[2;1H"
    );
}

#[test]
fn halfblock_mono_glyphs() {
    let mut c = Canvas::new(4, 1, RenderMode::HalfBlock, ColorMode::Mono);
    c.set(0, 0, 1000);
    c.set(0, 1, 1000);
    c.set(1, 0, 1000);
    c.set(2, 1, 20);
    assert_eq!(c.render(), "█▀▄ \x1b[2;1H");
}

#[test]
fn ascii_ramp_and_glyphs() {
    let mut c = Canvas::new(4, 1, RenderMode::Ascii, ColorMode::Mono);
    c.set(0, 0, 1000);
    c.set(1, 0, 500);
    c.set_char(2, 0, 'Z', 1, 2, 3);
    c.set(3, 0, 2000);
    assert_eq!(ascii::render(&c), "@=Z@\x1b[0m\x1b[2;1H");
}

#[test]
fn ascii_color_sent_only_on_change() {
    let mut c = Canvas::new(3, 1, RenderMode::Ascii, ColorMode::Ansi16);
    c.set_colored(0, 0, 1000, 255, 0, 0);
    c.set_colored(1, 0, 1000, 255, 0, 0);
    c.set_colored(2, 0, 0, 0, 0, 0);
    assert_eq!(c.render(), "\x1b[31m@@\x1b[30m \x1b[0m\x1b[2;1H");
}

#[test]
fn effects_scale_brightness_and_turn_hue() {
    let mut c = Canvas::new(3, 1, RenderMode::Ascii, ColorMode::TrueColor);
    c.set_colored(0, 0, 800, 255, 0, 0);
    c.set_colored(1, 0, 1000, 0, 0, 255);
    c.set_colored(2, 0, 100, 128, 128, 128);
    c.apply_effects(500, 120);
    assert_eq!(c.pixels, vec![400, 500, 50]);
    assert_eq!(c.colors, vec![(0, 255, 0), (255, 0, 0), (128, 128, 128)]);
    c.apply_effects(3000, 360);
    assert_eq!(c.pixels, vec![1000, 1000, 150]);
    assert_eq!(c.colors, vec![(0, 255, 0), (255, 0, 0), (128, 128, 128)]);
}
