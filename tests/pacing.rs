use termflix::canvas::{ColorMode, RenderMode};
use termflix::config::{default_config_string, ColorModeConfig, RenderModeConfig};
use termflix::pacing::{
    assemble_frame, display_rows, guard_frame, next_chunk_end, next_color_mode, next_index,
    next_render_mode, prev_index, settling, status_line, Key, KeyOutcome, LoopState, Pacer,
    CHUNK_SIZE,
};

#[test]
fn frame_is_wrapped_in_synchronized_output() {
    assert_eq!(
        assemble_frame("xy", None),
        "\x1b[?2026h\x1b[Hxy\x1b[?2026l"
    );
    assert_eq!(
        assemble_frame("xy", Some("S")),
        "\x1b[?2026h\x1b[HxyS\x1b[?2026l"
    );
}

#[test]
fn resized_terminal_discards_frame() {
    let p = guard_frame("frame".to_string(), (80, 24), (80, 25));
    assert_eq!(p.text, "");
    assert!(p.rebuild);
    let p = guard_frame("frame".to_string(), (80, 24), (80, 24));
    assert_eq!(p.text, "frame");
    assert!(!p.rebuild);
}

#[test]
fn chunks_are_bounded() {
    assert_eq!(next_chunk_end(0, 40000), CHUNK_SIZE);
    assert_eq!(next_chunk_end(CHUNK_SIZE, 40000), 2 * CHUNK_SIZE);
    assert_eq!(next_chunk_end(2 * CHUNK_SIZE, 40000), 40000);
    assert_eq!(next_chunk_end(0, 10), 10);
}

#[test]
fn adaptive_pacing_follows_write_time() {
    let mut p = Pacer::new(41_666, true);
    p.record_write(100_000);
    assert_eq!(p.ema_us, 20_000);
    assert_eq!(p.interval_us, 41_666);
    p.record_write(1_000_000);
    assert_eq!(p.ema_us, 216_000);
    assert_eq!(p.interval_us, 200_000);
    let mut u = Pacer::new(0, true);
    u.record_write(50_000);
    assert_eq!(u.ema_us, 10_000);
    assert_eq!(u.interval_us, 11_000);
    let mut f = Pacer::new(41_666, false);
    f.record_write(1_000_000);
    assert_eq!((f.ema_us, f.interval_us), (0, 41_666));
}

#[test]
fn status_line_is_cut_or_padded() {
    assert_eq!(status_line("abcdef", 3, 24), "\x1b[24;1H\x1b[7mabc\x1b[0m");
    assert_eq!(status_line("ab", 4, 5), "\x1b[5;1H\x1b[7mab  \x1b[0m");
}

#[test]
fn loop_decisions() {
    assert!(settling(99));
    assert!(!settling(100));
    assert_eq!(display_rows(24, false), 23);
    assert_eq!(display_rows(24, true), 24);
    assert_eq!(display_rows(0, false), 0);
    assert_eq!(next_render_mode(RenderMode::Ascii), RenderMode::Braille);
    assert_eq!(next_color_mode(ColorMode::Mono), ColorMode::TrueColor);
    assert_eq!(next_color_mode(ColorMode::TrueColor), ColorMode::Ansi256);
    assert_eq!(next_index(2, 3), 0);
    assert_eq!(prev_index(0, 3), 2);
}

#[test]
fn config_names_and_default_file() {
    assert_eq!(RenderMode::from(RenderModeConfig::HalfBlock), RenderMode::HalfBlock);
    assert_eq!(ColorMode::from(ColorModeConfig::TrueColor), ColorMode::TrueColor);
    let text = default_config_string();
    assert!(text.starts_with("# termflix configuration\n"));
    assert!(text.contains("# render = \"half-block\"\n"));
    assert!(text.ends_with("# color_quant = 0\n"));
}

fn loop_state() -> LoopState {
    LoopState {
        cols: 80,
        rows: 24,
        needs_rebuild: false,
        resize_at_ms: 0,
        anim_index: 0,
        anim_count: 3,
        render_mode: RenderMode::HalfBlock,
        color_mode: ColorMode::TrueColor,
        hide_status: false,
        screensaver: false,
    }
}

#[test]
fn size_guard_schedules_rebuild_and_restarts_cooldown() {
    let mut s = loop_state();
    let out = s.guard("frame".to_string(), (100, 30), 5000);
    assert_eq!(out, "");
    assert_eq!((s.cols, s.rows, s.needs_rebuild, s.resize_at_ms), (100, 30, true, 5000));
    assert!(s.settling(5050));
    assert!(!s.settling(5100));
    assert!(s.rebuild((100, 30)));
    assert!(!s.needs_rebuild);
    let out = s.guard("frame".to_string(), (100, 30), 6000);
    assert_eq!(out, "frame");
    assert_eq!(s.resize_at_ms, 5000);
}

#[test]
fn tiny_terminal_keeps_the_old_canvas() {
    let mut s = loop_state();
    s.on_resize(9, 30, 10);
    assert!(!s.rebuild((9, 30)));
    assert_eq!((s.cols, s.rows, s.needs_rebuild), (9, 30, false));
    s.on_resize(40, 4, 20);
    assert!(!s.rebuild((40, 4)));
}

#[test]
fn keys_drive_the_loop() {
    let mut s = loop_state();
    assert_eq!(s.on_key(Key::PrevAnimation), KeyOutcome::SwitchAnimation);
    assert_eq!(s.anim_index, 2);
    assert_eq!(s.on_key(Key::NextAnimation), KeyOutcome::SwitchAnimation);
    assert_eq!(s.anim_index, 0);
    assert_eq!(s.on_key(Key::CycleRender), KeyOutcome::Continue);
    assert_eq!((s.render_mode, s.needs_rebuild), (RenderMode::Ascii, true));
    assert_eq!(s.on_key(Key::CycleColor), KeyOutcome::Continue);
    assert_eq!(s.color_mode, ColorMode::Ansi256);
    s.on_key(Key::ToggleStatus);
    assert!(s.hide_status);
    assert_eq!(s.on_key(Key::Other), KeyOutcome::Continue);
    assert_eq!(s.on_key(Key::Quit), KeyOutcome::Quit);
    s.screensaver = true;
    assert_eq!(s.on_key(Key::Other), KeyOutcome::Quit);
}

#[test]
fn auto_cycle_switches_on_time() {
    let mut s = loop_state();
    assert!(!s.auto_cycle(0, 1_000_000));
    assert!(!s.auto_cycle(5, 4999));
    assert!(s.auto_cycle(5, 5000));
    assert_eq!(s.anim_index, 1);
}
