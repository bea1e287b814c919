//! The decisions of the paced output loop: how a frame buffer is assembled,
//! whether it may be written, how it is cut into chunks, how the frame
//! interval follows the measured write time, and how the loop's modes cycle.
use vstd::prelude::*;
use crate::canvas::{ColorMode, RenderMode};
use crate::delta::esc;
use crate::text::{chars_of, dec, push_all, push_dec, string_of};

verus! {

/// Begin synchronized output: `ESC [ ? 2026 h`.
pub open spec fn sync_begin() -> Seq<char> {
    seq![esc(), '[', '?', '2', '0', '2', '6', 'h']
}

/// End synchronized output: `ESC [ ? 2026 l`.
pub open spec fn sync_end() -> Seq<char> {
    seq![esc(), '[', '?', '2', '0', '2', '6', 'l']
}

/// The largest number of bytes handed to one write.
pub const CHUNK_SIZE: usize = 16384;

/// The longest frame interval the pacing allows, in microseconds (5 fps).
pub const MAX_INTERVAL_US: u64 = 200_000;

/// How long after a resize frames are skipped, in milliseconds.
pub const RESIZE_SETTLE_MS: u64 = 100;

fn push_sync(out: &mut Vec<char>, last: char)
    requires
        last == 'h' || last == 'l',
    ensures
        final(out)@ == old(out)@ + (if last == 'h' {
            sync_begin()
        } else {
            sync_end()
        }),
{
    out.push('\x1b');
    out.push('[');
    out.push('?');
    out.push('2');
    out.push('0');
    out.push('2');
    out.push('6');
    out.push(last);
    assert(final(out)@ =~= old(out)@ + (if last == 'h' {
        sync_begin()
    } else {
        sync_end()
    }));
}

/// The spaces that pad `n` characters.
pub open spec fn spaces(n: nat) -> Seq<char> {
    Seq::new(n, |i: int| ' ')
}

/// The status line for a terminal of `cols` x `rows` cells: `text` cut or
/// padded with spaces to `cols` characters, in reverse video on the last row.
pub open spec fn status_text(text: Seq<char>, cols: nat, rows: nat) -> Seq<char> {
    let shown = if text.len() > cols {
        text.subrange(0, cols as int)
    } else {
        text + spaces((cols - text.len()) as nat)
    };
    seq![esc(), '['] + dec(rows) + seq![';', '1', 'H', esc(), '[', '7', 'm'] + shown + seq![
        esc(),
        '[',
        '0',
        'm',
    ]
}

/// Builds the status line for a terminal of `cols` x `rows` cells.
pub fn status_line(text: &str, cols: usize, rows: usize) -> (s: String)
    ensures
        s@ == status_text(text@, cols as nat, rows as nat),
{
    let t = chars_of(text);
    let mut out: Vec<char> = Vec::new();
    out.push('\x1b');
    out.push('[');
    push_dec(&mut out, (rows) as u64);
    out.push(';');
    out.push('1');
    out.push('H');
    out.push('\x1b');
    out.push('[');
    out.push('7');
    out.push('m');
    let ghost head = out@;
    let mut i: usize = 0;
    while i < cols && i < t.len()
        invariant
            i <= cols,
            i <= t.len(),
            out@ == head + t@.subrange(0, i as int),
        decreases cols - i,
    {
        out.push(t[i]);
        i += 1;
        assert(out@ =~= head + t@.subrange(0, i as int));
    }
    let ghost mid = out@;
    let mut k: usize = i;
    while k < cols
        invariant
            i <= k <= cols,
            out@ == mid + spaces((k - i) as nat),
        decreases cols - k,
    {
        out.push(' ');
        k += 1;
        assert(out@ =~= mid + spaces((k - i) as nat));
    }
    let ghost body = out@;
    out.push('\x1b');
    out.push('[');
    out.push('0');
    out.push('m');
    proof {
        let shown = if t@.len() > cols {
            t@.subrange(0, cols as int)
        } else {
            t@ + spaces((cols - t@.len()) as nat)
        };
        if t@.len() > cols {
            assert(i == cols);
        } else {
            assert(i == t@.len());
            assert(t@.subrange(0, i as int) =~= t@);
        }
        assert(body =~= head + shown);
        assert(out@ =~= status_text(text@, cols as nat, rows as nat));
    }
    string_of(&out)
}

/// The frame buffer: begin synchronized output, cursor home, the content,
/// the status line if any, end synchronized output.
pub open spec fn frame_text(content: Seq<char>, status: Option<Seq<char>>) -> Seq<char> {
    sync_begin() + seq![esc(), '[', 'H'] + content + (match status {
        Some(s) => s,
        None => Seq::empty(),
    }) + sync_end()
}

/// Assembles the frame buffer around encoded content and an optional status line.
pub fn assemble_frame(content: &str, status: Option<&str>) -> (f: String)
    ensures
        f@ == frame_text(
            content@,
            match status {
                Some(s) => Some(s@),
                None => None,
            },
        ),
{
    let mut out: Vec<char> = Vec::new();
    push_sync(&mut out, 'h');
    out.push('\x1b');
    out.push('[');
    out.push('H');
    push_all(&mut out, &chars_of(content));
    match status {
        Some(s) => push_all(&mut out, &chars_of(s)),
        None => {},
    }
    push_sync(&mut out, 'l');
    assert(out@ =~= frame_text(
        content@,
        match status {
            Some(s) => Some(s@),
            None => None,
        },
    ));
    string_of(&out)
}

/// What the size guard decides for a rendered frame.
pub struct WritePlan {
    /// The bytes to write: the whole frame, or nothing.
    pub text: String,
    /// Whether the canvas must be rebuilt before the next frame.
    pub rebuild: bool,
}

/// The size guard: a frame rendered for a terminal of `assumed` (columns,
/// rows) is written only if the terminal still has that size; otherwise
/// nothing is written and a rebuild is scheduled.
pub fn guard_frame(frame: String, assumed: (u16, u16), current: (u16, u16)) -> (p: WritePlan)
    ensures
        assumed == current ==> p.text@ == frame@ && !p.rebuild,
        assumed != current ==> p.text@.len() == 0 && p.rebuild,
{
    if assumed.0 != current.0 || assumed.1 != current.1 {
        WritePlan { text: string_of(&Vec::new()), rebuild: true }
    } else {
        WritePlan { text: frame, rebuild: false }
    }
}

/// The end of the next chunk to write, `written` bytes of `len` being done.
pub fn next_chunk_end(written: usize, len: usize) -> (e: usize)
    requires
        written < len,
    ensures
        written < e <= len,
        e == if len - written > CHUNK_SIZE {
            written + CHUNK_SIZE
        } else {
            len as int
        },
{
    if len - written > CHUNK_SIZE {
        written + CHUNK_SIZE
    } else {
        len
    }
}

/// The moving average after a new write time `sample`: 80% of the old
/// average and 20% of the sample, rounded down.
pub open spec fn ema_after(ema: u64, sample: u64) -> u64 {
    ((ema as int * 8 + sample as int * 2) / 10) as u64
}

/// The interval that follows an average write time `ema`: 110% of it, at least
/// `base`, at most `MAX_INTERVAL_US`.
pub open spec fn interval_for(ema: u64, base: u64) -> u64 {
    let t = ema as int * 11 / 10;
    let t = if t < base {
        base as int
    } else {
        t
    };
    if t > MAX_INTERVAL_US {
        MAX_INTERVAL_US
    } else {
        t as u64
    }
}

/// Frame pacing: the configured interval, or, when adaptive, one that follows
/// the measured write time. Times are in microseconds.
pub struct Pacer {
    pub base_us: u64,
    pub adaptive: bool,
    pub ema_us: u64,
    pub interval_us: u64,
}

impl Pacer {
    /// Pacing with configured interval `base_us`; `adaptive` when the sink is
    /// known to buffer or no frame-rate cap is set.
    pub fn new(base_us: u64, adaptive: bool) -> (p: Pacer)
        ensures
            p == (Pacer { base_us, adaptive, ema_us: 0, interval_us: base_us }),
    {
        Pacer { base_us, adaptive, ema_us: 0, interval_us: base_us }
    }

    /// Takes in the time the last frame's write took.
    pub fn record_write(&mut self, write_us: u64)
        ensures
            final(self).base_us == old(self).base_us,
            final(self).adaptive == old(self).adaptive,
            old(self).adaptive ==> final(self).ema_us == ema_after(old(self).ema_us, write_us)
                && final(self).interval_us == interval_for(final(self).ema_us, old(self).base_us),
            !old(self).adaptive ==> final(self).ema_us == old(self).ema_us && final(self).interval_us
                == old(self).interval_us,
    {
        if self.adaptive {
            let e: u128 = (self.ema_us as u128 * 8 + write_us as u128 * 2) / 10;
            let ema: u64 = e as u64;
            let t: u128 = ema as u128 * 11 / 10;
            let t: u128 = if t < self.base_us as u128 {
                self.base_us as u128
            } else {
                t
            };
            self.ema_us = ema;
            self.interval_us = if t > MAX_INTERVAL_US as u128 {
                MAX_INTERVAL_US
            } else {
                t as u64
            };
        }
    }
}

/// Whether frames are still skipped, `since_resize_ms` after the last resize.
pub fn settling(since_resize_ms: u64) -> (s: bool)
    ensures
        s == (since_resize_ms < RESIZE_SETTLE_MS),
{
    since_resize_ms < RESIZE_SETTLE_MS
}

/// The rows left for the canvas below the status line, if it is shown.
pub fn display_rows(rows: usize, hide_status: bool) -> (d: usize)
    ensures
        d == if hide_status || rows == 0 {
            rows
        } else {
            (rows - 1) as usize
        },
{
    if hide_status {
        rows
    } else {
        rows.saturating_sub(1)
    }
}

/// The next render mode: Braille, then half blocks, then ASCII, then Braille.
pub fn next_render_mode(m: RenderMode) -> (n: RenderMode)
    ensures
        n == match m {
            RenderMode::Braille => RenderMode::HalfBlock,
            RenderMode::HalfBlock => RenderMode::Ascii,
            RenderMode::Ascii => RenderMode::Braille,
        },
{
    match m {
        RenderMode::Braille => RenderMode::HalfBlock,
        RenderMode::HalfBlock => RenderMode::Ascii,
        RenderMode::Ascii => RenderMode::Braille,
    }
}

/// The next color mode: true color, 256 colors, 16 colors, mono, true color.
pub fn next_color_mode(m: ColorMode) -> (n: ColorMode)
    ensures
        n == match m {
            ColorMode::TrueColor => ColorMode::Ansi256,
            ColorMode::Ansi256 => ColorMode::Ansi16,
            ColorMode::Ansi16 => ColorMode::Mono,
            ColorMode::Mono => ColorMode::TrueColor,
        },
{
    match m {
        ColorMode::TrueColor => ColorMode::Ansi256,
        ColorMode::Ansi256 => ColorMode::Ansi16,
        ColorMode::Ansi16 => ColorMode::Mono,
        ColorMode::Mono => ColorMode::TrueColor,
    }
}

/// The index after `i` among `n` animations, wrapping around.
pub fn next_index(i: usize, n: usize) -> (j: usize)
    requires
        i < n,
    ensures
        j == (i + 1) % (n as int),
{
    if i + 1 == n {
        proof {
            vstd::arithmetic::div_mod::lemma_mod_self_0(n as int);
        }
        0
    } else {
        proof {
            vstd::arithmetic::div_mod::lemma_small_mod((i + 1) as nat, n as nat);
        }
        i + 1
    }
}

/// The index before `i` among `n` animations, wrapping around.
pub fn prev_index(i: usize, n: usize) -> (j: usize)
    requires
        i < n,
    ensures
        j == if i == 0 {
            n - 1
        } else {
            i - 1
        },
{
    if i == 0 {
        n - 1
    } else {
        i - 1
    }
}

/// A key, as far as the loop cares.
#[derive(Clone, Copy, Debug, PartialEq, Eq, Structural)]
pub enum Key {
    /// `q` or Escape.
    Quit,
    /// Right arrow or `n`.
    NextAnimation,
    /// Left arrow or `p`.
    PrevAnimation,
    /// `r`.
    CycleRender,
    /// `c`.
    CycleColor,
    /// `h`.
    ToggleStatus,
    /// Any other key.
    Other,
}

/// What the owner of the loop must do after a key.
#[derive(Clone, Copy, Debug, PartialEq, Eq, Structural)]
pub enum KeyOutcome {
    /// Stop the loop.
    Quit,
    /// Build the animation now at `anim_index` and restart the cycle timer;
    /// unless the render mode was given explicitly, adopt the animation's
    /// preferred render mode and rebuild.
    SwitchAnimation,
    /// Nothing beyond the state change.
    Continue,
}

/// The loop's own state: the terminal size the canvas was built for, whether
/// the canvas must be rebuilt, when the last resize was seen, and the
/// viewer's choices.
pub struct LoopState {
    pub cols: u16,
    pub rows: u16,
    pub needs_rebuild: bool,
    /// Milliseconds (on the loop's clock) of the last resize.
    pub resize_at_ms: u64,
    pub anim_index: usize,
    pub anim_count: usize,
    pub render_mode: RenderMode,
    pub color_mode: ColorMode,
    pub hide_status: bool,
    /// In screensaver mode any key stops the loop.
    pub screensaver: bool,
}

/// The smallest terminal the canvas is rebuilt for.
pub const MIN_COLS: u16 = 10;

/// The smallest terminal height the canvas is rebuilt for.
pub const MIN_ROWS: u16 = 5;

impl LoopState {
    pub open spec fn wf(&self) -> bool {
        self.anim_index < self.anim_count
    }

    /// A resize event: remember the size, rebuild, and restart the cooldown.
    pub fn on_resize(&mut self, cols: u16, rows: u16, now_ms: u64)
        ensures
            *final(self) == (LoopState {
                cols,
                rows,
                needs_rebuild: true,
                resize_at_ms: now_ms,
                ..*old(self)
            }),
    {
        self.cols = cols;
        self.rows = rows;
        self.needs_rebuild = true;
        self.resize_at_ms = now_ms;
    }

    /// Whether frames are still skipped at `now_ms` after the last resize
    /// (the canvas is then rebuilt once the cooldown is over).
    pub fn settling(&mut self, now_ms: u64) -> (s: bool)
        ensures
            s == (now_ms >= old(self).resize_at_ms && now_ms - old(self).resize_at_ms
                < RESIZE_SETTLE_MS),
            *final(self) == (LoopState {
                needs_rebuild: old(self).needs_rebuild || s,
                ..*old(self)
            }),
    {
        let s = now_ms >= self.resize_at_ms && settling(now_ms - self.resize_at_ms);
        if s {
            self.needs_rebuild = true;
        }
        s
    }

    /// The rebuild, with the terminal measured at `current`: the size is
    /// taken, and the canvas rebuilt, only when it is at least 10 x 5; the
    /// rebuild is done either way.
    pub fn rebuild(&mut self, current: (u16, u16)) -> (rebuild_canvas: bool)
        ensures
            rebuild_canvas == (current.0 >= MIN_COLS && current.1 >= MIN_ROWS),
            *final(self) == (LoopState {
                cols: if rebuild_canvas { current.0 } else { old(self).cols },
                rows: if rebuild_canvas { current.1 } else { old(self).rows },
                needs_rebuild: false,
                ..*old(self)
            }),
    {
        let ok = current.0 >= MIN_COLS && current.1 >= MIN_ROWS;
        if ok {
            self.cols = current.0;
            self.rows = current.1;
        }
        self.needs_rebuild = false;
        ok
    }

    /// The size guard, with the terminal measured at `current` after the
    /// frame was assembled at `now_ms`: the frame goes out whole if the size
    /// is still the one it was rendered for; otherwise nothing is written,
    /// the new size is taken, a rebuild is scheduled and the resize cooldown
    /// restarts.
    pub fn guard(&mut self, frame: String, current: (u16, u16), now_ms: u64) -> (out: String)
        ensures
            current == (old(self).cols, old(self).rows) ==> out@ == frame@ && *final(self)
                == *old(self),
            current != (old(self).cols, old(self).rows) ==> out@.len() == 0 && *final(self) == (
            LoopState {
                cols: current.0,
                rows: current.1,
                needs_rebuild: true,
                resize_at_ms: now_ms,
                ..*old(self)
            }),
    {
        let plan = guard_frame(frame, (self.cols, self.rows), current);
        if plan.rebuild {
            self.on_resize(current.0, current.1, now_ms);
        }
        plan.text
    }

    /// A key press.
    pub fn on_key(&mut self, key: Key) -> (o: KeyOutcome)
        requires
            old(self).wf(),
        ensures
            final(self).wf(),
            old(self).screensaver ==> o == KeyOutcome::Quit && *final(self) == *old(self),
            !old(self).screensaver ==> match key {
                Key::Quit => o == KeyOutcome::Quit && *final(self) == *old(self),
                Key::NextAnimation => o == KeyOutcome::SwitchAnimation && *final(self) == (
                LoopState {
                    anim_index: ((old(self).anim_index + 1) % (old(self).anim_count as int))
                        as usize,
                    ..*old(self)
                }),
                Key::PrevAnimation => o == KeyOutcome::SwitchAnimation && *final(self) == (
                LoopState {
                    anim_index: if old(self).anim_index == 0 {
                        (old(self).anim_count - 1) as usize
                    } else {
                        (old(self).anim_index - 1) as usize
                    },
                    ..*old(self)
                }),
                Key::CycleRender => o == KeyOutcome::Continue && *final(self) == (LoopState {
                    render_mode: match old(self).render_mode {
                        RenderMode::Braille => RenderMode::HalfBlock,
                        RenderMode::HalfBlock => RenderMode::Ascii,
                        RenderMode::Ascii => RenderMode::Braille,
                    },
                    needs_rebuild: true,
                    ..*old(self)
                }),
                Key::CycleColor => o == KeyOutcome::Continue && *final(self) == (LoopState {
                    color_mode: match old(self).color_mode {
                        ColorMode::TrueColor => ColorMode::Ansi256,
                        ColorMode::Ansi256 => ColorMode::Ansi16,
                        ColorMode::Ansi16 => ColorMode::Mono,
                        ColorMode::Mono => ColorMode::TrueColor,
                    },
                    needs_rebuild: true,
                    ..*old(self)
                }),
                Key::ToggleStatus => o == KeyOutcome::Continue && *final(self) == (LoopState {
                    hide_status: !old(self).hide_status,
                    needs_rebuild: true,
                    ..*old(self)
                }),
                Key::Other => o == KeyOutcome::Continue && *final(self) == *old(self),
            },
    {
        if self.screensaver {
            return KeyOutcome::Quit;
        }
        match key {
            Key::Quit => KeyOutcome::Quit,
            Key::NextAnimation => {
                self.anim_index = next_index(self.anim_index, self.anim_count);
                KeyOutcome::SwitchAnimation
            },
            Key::PrevAnimation => {
                self.anim_index = prev_index(self.anim_index, self.anim_count);
                KeyOutcome::SwitchAnimation
            },
            Key::CycleRender => {
                self.render_mode = next_render_mode(self.render_mode);
                self.needs_rebuild = true;
                KeyOutcome::Continue
            },
            Key::CycleColor => {
                self.color_mode = next_color_mode(self.color_mode);
                self.needs_rebuild = true;
                KeyOutcome::Continue
            },
            Key::ToggleStatus => {
                self.hide_status = !self.hide_status;
                self.needs_rebuild = true;
                KeyOutcome::Continue
            },
            Key::Other => KeyOutcome::Continue,
        }
    }

    /// The automatic switch to the next animation, `cycle_secs` seconds
    /// (0 for never) after the last switch, which was `since_ms` ago.
    pub fn auto_cycle(&mut self, cycle_secs: u32, since_ms: u64) -> (switch: bool)
        requires
            old(self).wf(),
        ensures
            final(self).wf(),
            switch == (cycle_secs > 0 && since_ms >= cycle_secs as int * 1000),
            switch ==> *final(self) == (LoopState {
                anim_index: ((old(self).anim_index + 1) % (old(self).anim_count as int)) as usize,
                ..*old(self)
            }),
            !switch ==> *final(self) == *old(self),
    {
        if cycle_secs > 0 && since_ms >= cycle_secs as u64 * 1000 {
            self.anim_index = next_index(self.anim_index, self.anim_count);
            true
        } else {
            false
        }
    }
}

} // verus!
