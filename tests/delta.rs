use termflix::delta::DeltaRenderer;

#[test]
fn first_frame_goes_out_whole() {
    let mut d = DeltaRenderer::new();
    assert_eq!(d.render_delta("abcdefghij", 10, 1), "\x1b[Habcdefghij");
}

#[test]
fn same_frame_twice_sends_nothing() {
    let mut d = DeltaRenderer::new();
    let frame = "\x1b[38;2;1;2;3mab\x1b[0m\x1b[2;1Hcd\x1b[0m\x1b[3;1H";
    d.render_delta(frame, 2, 2);
    assert_eq!(d.render_delta(frame, 2, 2), "");
}

#[test]
fn one_changed_cell_is_patched_alone() {
    let mut d = DeltaRenderer::new();
    d.render_delta("abcdefghij", 10, 1);
    assert_eq!(d.render_delta("abcdefghiZ", 10, 1), "\x1b[1;10HZ");
}

#[test]
fn short_unchanged_gap_is_sent_again() {
    let mut d = DeltaRenderer::new();
    d.render_delta("abcdefghij", 10, 1);
    // cells 2 and 5 change; the gap of two between them is resent
    assert_eq!(d.render_delta("abXdeYghij", 10, 1), "\x1b[1;3HXdeY");
}

#[test]
fn long_unchanged_gap_is_skipped() {
    let mut d = DeltaRenderer::new();
    d.render_delta("abcdefghij", 10, 1);
    assert_eq!(d.render_delta("Xbcdefghij".replace('j', "Y").as_str(), 10, 1), "\x1b[1;1HX\x1b[1;10HY");
}

#[test]
fn changed_color_is_sent_and_reset() {
    let mut d = DeltaRenderer::new();
    d.render_delta("abcdefghij", 10, 1);
    assert_eq!(
        d.render_delta("abcdefghi\x1b[31mj", 10, 1),
        "\x1b[1;10H\x1b[31mj\x1b[0m"
    );
}

#[test]
fn mostly_changed_frame_goes_out_whole() {
    let mut d = DeltaRenderer::new();
    d.render_delta("abcdefghij", 10, 1);
    assert_eq!(d.render_delta("ABCDEFGHij", 10, 1), "\x1b[HABCDEFGHij");
}

#[test]
fn seventy_percent_changed_is_still_patched() {
    let mut d = DeltaRenderer::new();
    d.render_delta("abcdefghij", 10, 1);
    assert_eq!(d.render_delta("ABCDEFGhij", 10, 1), "\x1b[1;1HABCDEFG");
}

#[test]
fn size_change_and_invalidate_force_whole_frame() {
    let mut d = DeltaRenderer::new();
    d.render_delta("ab", 2, 1);
    assert_eq!(d.render_delta("ab", 1, 1), "\x1b[Hab");
    d.invalidate();
    assert_eq!(d.render_delta("ab", 1, 1), "\x1b[Hab");
    assert_eq!(d.render_delta("ab", 1, 1), "");
}

#[test]
fn patch_follows_cursor_moves_in_the_frame() {
    let mut d = DeltaRenderer::new();
    d.render_delta("ab\x1b[2;1Hcd", 2, 2);
    // the second row changes; the patch moves there by absolute position
    assert_eq!(d.render_delta("ab\x1b[2;1HcZ", 2, 2), "\x1b[2;2HZ");
}

#[test]
fn truncated_escape_ends_the_frame() {
    let mut d = DeltaRenderer::new();
    d.render_delta("abcd", 4, 1);
    // everything after the unfinished sequence is ignored: cells 3 and 4 fall back to blanks
    assert_eq!(d.render_delta("ab\x1b[12", 4, 1), "\x1b[1;3H  ");
}

#[test]
fn just_over_seventy_percent_goes_out_whole() {
    let mut d = DeltaRenderer::new();
    let f1: String = std::iter::repeat('a').take(101).collect();
    let f2: String = std::iter::repeat('b').take(71).chain(std::iter::repeat('a').take(30)).collect();
    d.render_delta(&f1, 101, 1);
    assert_eq!(d.render_delta(&f2, 101, 1), format!("\x1b[H{}", f2));
    assert_eq!(d.render_delta(&f2, 101, 1), "");
}

#[test]
fn zero_rows_repeat_sends_nothing() {
    let mut d = DeltaRenderer::new();
    assert_eq!(d.render_delta("ab", 5, 0), "\x1b[Hab");
    assert_eq!(d.render_delta("ab", 5, 0), "");
    d.invalidate();
    assert_eq!(d.render_delta("ab", 5, 0), "\x1b[Hab");
    assert_eq!(d.render_delta("ab", 5, 0), "");
}
