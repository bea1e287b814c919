//! Recording rendered frames with timestamps, and the text container they are
//! saved in: a header, then each frame's time and base64-encoded content.
use vstd::prelude::*;
use crate::delta::index_of;
use crate::text::{
    chars_of, copy_range, dec, parse_u64, parse_u64_range, parse_usize, parse_usize_range, push_all,
    push_dec, string_of,
};
use vstd::string::StringSliceAdditionalSpecFns;

verus! {

/// The base64 digit for a value below 64.
pub open spec fn b64_digit(v: nat) -> char {
    if v < 26 {
        ((65 + v) as u8) as char
    } else if v < 52 {
        ((97 + v - 26) as u8) as char
    } else if v < 62 {
        ((48 + v - 52) as u8) as char
    } else if v == 62 {
        '+'
    } else {
        '/'
    }
}

/// The four base64 characters of a group of one to three bytes (missing
/// bytes count as 0 and their characters are `=`).
pub open spec fn b64_group(b0: u8, b1: u8, b2: u8, n: nat) -> Seq<char> {
    let c0 = b64_digit((b0 / 4) as nat);
    let c1 = b64_digit(((b0 % 4) * 16 + b1 / 16) as nat);
    let c2 = b64_digit(((b1 % 16) * 4 + b2 / 64) as nat);
    let c3 = b64_digit((b2 % 64) as nat);
    seq![c0, c1, if n > 1 {
        c2
    } else {
        '='
    }, if n > 2 {
        c3
    } else {
        '='
    }]
}

/// Standard padded base64 of `s`.
pub open spec fn b64_encode(s: Seq<u8>) -> Seq<char>
    decreases s.len(),
{
    if s.len() == 0 {
        Seq::empty()
    } else if s.len() == 1 {
        b64_group(s[0], 0, 0, 1)
    } else if s.len() == 2 {
        b64_group(s[0], s[1], 0, 2)
    } else {
        b64_group(s[0], s[1], s[2], 3) + b64_encode(s.subrange(3, s.len() as int))
    }
}

fn b64_digit_exec(v: u8) -> (c: char)
    requires
        v < 64,
    ensures
        c == b64_digit(v as nat),
{
    if v < 26 {
        (65 + v) as char
    } else if v < 52 {
        (97 + v - 26) as char
    } else if v < 62 {
        (48 + v - 52) as char
    } else if v == 62 {
        '+'
    } else {
        '/'
    }
}

/// Encodes bytes as standard padded base64.
pub fn base64_encode(data: &[u8]) -> (s: String)
    ensures
        s@ == b64_encode(data@),
{
    let mut out: Vec<char> = Vec::new();
    let mut i: usize = 0;
    assert(data@.subrange(0, data@.len() as int) =~= data@);
    assert(out@ + b64_encode(data@) =~= b64_encode(data@));
    while i < data.len()
        invariant
            i <= data.len(),
            out@ + b64_encode(data@.subrange(i as int, data@.len() as int)) == b64_encode(data@),
        decreases data.len() - i,
    {
        let ghost rest = data@.subrange(i as int, data@.len() as int);
        let n: usize = if data.len() - i >= 3 {
            3
        } else {
            data.len() - i
        };
        let b0 = data[i];
        let b1: u8 = if n > 1 {
            data[i + 1]
        } else {
            0
        };
        let b2: u8 = if n > 2 {
            data[i + 2]
        } else {
            0
        };
        let ghost before = out@;
        out.push(b64_digit_exec(b0 / 4));
        out.push(b64_digit_exec((b0 % 4) * 16 + b1 / 16));
        if n > 1 {
            out.push(b64_digit_exec((b1 % 16) * 4 + b2 / 64));
        } else {
            out.push('=');
        }
        if n > 2 {
            out.push(b64_digit_exec(b2 % 64));
        } else {
            out.push('=');
        }
        assert(out@ =~= before + b64_group(b0, b1, b2, n as nat));
        if n == 3 {
            assert(rest.subrange(3, rest.len() as int) =~= data@.subrange(
                i + 3,
                data@.len() as int,
            ));
        } else {
            assert(data@.subrange(i + n, data@.len() as int) =~= Seq::<u8>::empty());
        }
        i = i + n;
    }
    assert(data@.subrange(i as int, data@.len() as int) =~= Seq::<u8>::empty());
    string_of(&out)
}

/// The value of a base64 character (`=` counts as 0), if it is one.
pub open spec fn b64_value(b: u8) -> Option<nat> {
    if 65 <= b <= 90 {
        Some((b - 65) as nat)
    } else if 97 <= b <= 122 {
        Some((b - 97 + 26) as nat)
    } else if 48 <= b <= 57 {
        Some((b - 48 + 52) as nat)
    } else if b == 43 {
        Some(62)
    } else if b == 47 {
        Some(63)
    } else if b == 61 {
        Some(0)
    } else {
        None
    }
}

/// `s` without its line breaks (`\n` and `\r`).
pub open spec fn strip_breaks(s: Seq<u8>) -> Seq<u8> {
    s.filter(|b: u8| b != 10 && b != 13)
}

/// The first byte from index `i` on that is not a base64 character.
pub open spec fn first_bad(s: Seq<u8>, i: int) -> Option<u8>
    decreases s.len() - i,
{
    if i < 0 || i >= s.len() {
        None
    } else if b64_value(s[i]) is None {
        Some(s[i])
    } else {
        first_bad(s, i + 1)
    }
}

/// The bytes of the four-character group `s[i..i+4]`, all base64 characters.
#[verifier::opaque]
pub open spec fn b64_ungroup(s: Seq<u8>, i: int) -> Seq<u8> {
    let v0 = b64_value(s[i])->0;
    let v1 = b64_value(s[i + 1])->0;
    let v2 = b64_value(s[i + 2])->0;
    let v3 = b64_value(s[i + 3])->0;
    let triple = v0 * 262144 + v1 * 4096 + v2 * 64 + v3;
    seq![(triple / 65536 % 256) as u8] + (if s[i + 2] != 61 {
        seq![(triple / 256 % 256) as u8]
    } else {
        Seq::empty()
    }) + (if s[i + 3] != 61 {
        seq![(triple % 256) as u8]
    } else {
        Seq::empty()
    })
}

/// The bytes of the groups from index `i` on, all base64 characters.
pub open spec fn b64_decode_from(s: Seq<u8>, i: int) -> Seq<u8>
    decreases s.len() - i,
{
    if i < 0 || i + 4 > s.len() {
        Seq::empty()
    } else {
        b64_ungroup(s, i) + b64_decode_from(s, i + 4)
    }
}

/// Why base64 text could not be decoded.
#[derive(Clone, Copy, Debug, PartialEq, Eq, Structural)]
pub enum Base64Error {
    /// The text without line breaks is not a whole number of groups.
    Length,
    /// The first byte that is not a base64 character.
    Character(u8),
}

/// What decoding the bytes `s` gives.
pub open spec fn b64_decode(s: Seq<u8>) -> Result<Seq<u8>, Base64Error> {
    let t = strip_breaks(s);
    if t.len() % 4 != 0 {
        Err(Base64Error::Length)
    } else if first_bad(t, 0) is Some {
        Err(Base64Error::Character(first_bad(t, 0)->0))
    } else {
        Ok(b64_decode_from(t, 0))
    }
}

fn b64_value_exec(b: u8) -> (v: Option<u32>)
    ensures
        v matches Some(x) ==> b64_value(b) == Some(x as nat),
        v is None ==> b64_value(b) is None,
        v matches Some(x) ==> x < 64,
{
    if 65 <= b && b <= 90 {
        Some((b - 65) as u32)
    } else if 97 <= b && b <= 122 {
        Some((b - 97 + 26) as u32)
    } else if 48 <= b && b <= 57 {
        Some((b - 48 + 52) as u32)
    } else if b == 43 {
        Some(62)
    } else if b == 47 {
        Some(63)
    } else if b == 61 {
        Some(0)
    } else {
        None
    }
}

/// The message of a base64 error.
pub open spec fn base64_message(e: Base64Error) -> Seq<char> {
    match e {
        Base64Error::Length => "Invalid base64 length"@,
        Base64Error::Character(b) => "Invalid base64 character: "@ + seq![b as char],
    }
}

impl Base64Error {
    /// The error's message.
    pub fn message(&self) -> (s: String)
        ensures
            s@ == base64_message(*self),
    {
        let mut out: Vec<char> = Vec::new();
        match self {
            Base64Error::Length => {
                push_literal(&mut out, "Invalid base64 length");
            },
            Base64Error::Character(b) => {
                push_literal(&mut out, "Invalid base64 character: ");
                out.push(*b as char);
            },
        }
        assert(out@ =~= base64_message(*self));
        string_of(&out)
    }
}

/// Appends the characters of `s`.
pub fn push_literal(out: &mut Vec<char>, s: &str)
    ensures
        final(out)@ == old(out)@ + s@,
{
    let v = chars_of(s);
    push_all(out, &v);
}

proof fn lemma_strip_push(p: Seq<u8>, x: u8)
    ensures
        strip_breaks(p.push(x)) == if x != 10 && x != 13 {
            strip_breaks(p).push(x)
        } else {
            strip_breaks(p)
        },
{
    reveal(Seq::filter);
    assert(p.push(x).drop_last() =~= p);
}

proof fn lemma_first_bad_prefix(s: Seq<u8>, i: int, j: int)
    requires
        0 <= i <= j <= s.len(),
        forall|k: int| i <= k < j ==> b64_value(#[trigger] s[k]) is Some,
    ensures
        first_bad(s, i) == first_bad(s, j),
    decreases j - i,
{
    if i < j {
        lemma_first_bad_prefix(s, i + 1, j);
    }
}

/// The bytes of the group `t[g..g+4]`, or the first byte in it that is not a
/// base64 character.
fn decode_group(t: &Vec<u8>, g: usize) -> (r: Result<Vec<u8>, u8>)
    requires
        g + 4 <= t.len(),
    ensures
        match r {
            Ok(v) => v@ == b64_ungroup(t@, g as int) && first_bad(t@, g as int) == first_bad(
                t@,
                g + 4,
            ),
            Err(b) => first_bad(t@, g as int) == Some(b),
        },
{
    let ghost ts = t@;
    let mut vals: Vec<u32> = Vec::new();
    let mut k: usize = 0;
    while k < 4
        invariant
            k <= 4,
            g + 4 <= t.len(),
            ts == t@,
            vals.len() == k,
            forall|q: int| 0 <= q < k ==> b64_value(#[trigger] ts[g + q]) == Some(vals@[q] as nat),
            forall|q: int| 0 <= q < k ==> vals@[q] < 64,
        decreases 4 - k,
    {
        match b64_value_exec(t[g + k]) {
            Some(v) => vals.push(v),
            None => {
                proof {
                    assert forall|q: int| g <= q < g + k implies b64_value(#[trigger] ts[q]) is Some by {
                        assert(ts[g + (q - g)] == ts[q]);
                    }
                    lemma_first_bad_prefix(ts, g as int, (g + k) as int);
                }
                return Err(t[g + k]);
            },
        }
        k += 1;
    }
    let triple: u32 = vals[0] * 262144 + vals[1] * 4096 + vals[2] * 64 + vals[3];
    let mut out: Vec<u8> = Vec::new();
    out.push(((triple / 65536) % 256) as u8);
    if t[g + 2] != 61 {
        out.push(((triple / 256) % 256) as u8);
    }
    if t[g + 3] != 61 {
        out.push((triple % 256) as u8);
    }
    proof {
        reveal(b64_ungroup);
        assert(b64_value(ts[g + 0]) == Some(vals@[0] as nat));
        assert(b64_value(ts[g + 1]) == Some(vals@[1] as nat));
        assert(b64_value(ts[g + 2]) == Some(vals@[2] as nat));
        assert(b64_value(ts[g + 3]) == Some(vals@[3] as nat));
        assert(out@ =~= b64_ungroup(ts, g as int));
        assert forall|q: int| g <= q < g + 4 implies b64_value(#[trigger] ts[q]) is Some by {
            assert(ts[g + (q - g)] == ts[q]);
        }
        lemma_first_bad_prefix(ts, g as int, g + 4);
    }
    Ok(out)
}

/// The bytes of all groups of `t`, or its first byte that is not a base64
/// character.
fn decode_groups(t: &Vec<u8>) -> (r: Result<Vec<u8>, u8>)
    requires
        t.len() % 4 == 0,
    ensures
        match r {
            Ok(v) => v@ == b64_decode_from(t@, 0) && first_bad(t@, 0) is None,
            Err(b) => first_bad(t@, 0) == Some(b),
        },
{
    let ghost ts = t@;
    let mut out: Vec<u8> = Vec::new();
    let mut g: usize = 0;
    while g < t.len()
        invariant
            g <= t.len(),
            t.len() % 4 == 0,
            g % 4 == 0,
            ts == t@,
            first_bad(ts, 0) == first_bad(ts, g as int),
            out@ + b64_decode_from(ts, g as int) == b64_decode_from(ts, 0),
        decreases t.len() - g,
    {
        match decode_group(&t, g) {
            Ok(bytes) => {
                let ghost before = out@;
                let mut k: usize = 0;
                while k < bytes.len()
                    invariant
                        k <= bytes.len(),
                        out@ == before + bytes@.subrange(0, k as int),
                    decreases bytes.len() - k,
                {
                    out.push(bytes[k]);
                    k += 1;
                    assert(out@ =~= before + bytes@.subrange(0, k as int));
                }
                assert(bytes@.subrange(0, bytes.len() as int) =~= bytes@);
                assert(b64_decode_from(ts, g as int) == b64_ungroup(ts, g as int) + b64_decode_from(ts, g + 4));
                assert(out@ + b64_decode_from(ts, g + 4) =~= before + b64_decode_from(ts, g as int));
            },
            Err(b) => {
                return Err(b);
            },
        }
        g += 4;
    }
    assert(first_bad(ts, g as int) is None);
    Ok(out)
}

/// Decodes standard padded base64, ignoring line breaks.
pub fn base64_decode(data: &str) -> (r: Result<Vec<u8>, Base64Error>)
    ensures
        match r {
            Ok(v) => b64_decode(data.spec_bytes()) == Ok::<Seq<u8>, Base64Error>(v@),
            Err(e) => b64_decode(data.spec_bytes()) == Err::<Seq<u8>, Base64Error>(e),
        },
{
    let bytes = data.as_bytes();
    let ghost all = bytes@;
    let mut t: Vec<u8> = Vec::new();
    let mut i: usize = 0;
    assert(strip_breaks(all.subrange(0, 0)) =~= Seq::<u8>::empty()) by {
        reveal(Seq::filter);
    }
    while i < bytes.len()
        invariant
            i <= bytes.len(),
            all == bytes@,
            t@ == strip_breaks(all.subrange(0, i as int)),
        decreases bytes.len() - i,
    {
        let b = bytes[i];
        proof {
            lemma_strip_push(all.subrange(0, i as int), b);
            assert(all.subrange(0, i + 1) =~= all.subrange(0, i as int).push(b));
        }
        if b != 10 && b != 13 {
            t.push(b);
        }
        i += 1;
    }
    assert(all.subrange(0, all.len() as int) =~= all);
    let ghost ts = t@;
    if t.len() % 4 != 0 {
        return Err(Base64Error::Length);
    }
    match decode_groups(&t) {
        Ok(v) => Ok(v),
        Err(b) => Err(Base64Error::Character(b)),
    }
}

/// `std::time::Instant`, carried as an opaque value.
#[verifier::external_type_specification]
#[verifier::external_body]
pub struct ExInstant(std::time::Instant);

/// Relies on `Instant::now`: the current instant.
#[verifier::external_body]
fn now() -> (t: std::time::Instant) {
    std::time::Instant::now()
}

/// Relies on `Instant::elapsed`: the whole milliseconds since `start`.
#[verifier::external_body]
fn elapsed_ms(start: &std::time::Instant) -> (ms: u64) {
    start.elapsed().as_millis() as u64
}

/// One recorded frame: when it was captured (milliseconds after the start of
/// the recording) and its text.
pub struct Frame {
    pub timestamp_ms: u64,
    pub content: String,
}

impl View for Frame {
    type V = (u64, Seq<char>);

    open spec fn view(&self) -> (u64, Seq<char>) {
        (self.timestamp_ms, self.content@)
    }
}

/// Collects rendered frames with their capture times.
pub struct Recorder {
    frames: Vec<Frame>,
    start: std::time::Instant,
}

impl View for Recorder {
    type V = Seq<(u64, Seq<char>)>;

    closed spec fn view(&self) -> Seq<(u64, Seq<char>)> {
        self.frames@.map_values(|f: Frame| f@)
    }
}

/// The header line of the container.
pub open spec fn magic() -> Seq<char> {
    seq!['A', 'S', 'C', 'I', 'I', 'A', 'N', 'I', 'M', ' ', 'v', '1']
}

/// The container text for frames `fs` from index `i` on.
pub open spec fn frames_text(fs: Seq<(u64, Seq<char>)>, i: int) -> Seq<char>
    decreases fs.len() - i,
{
    if i < 0 || i >= fs.len() {
        Seq::empty()
    } else {
        seq!['-', '-', '-', '\n', 'T', ' '] + dec(fs[i].0 as nat) + seq!['\n'] + b64_encode(
            vstd::utf8::encode_utf8(fs[i].1),
        ) + seq!['\n'] + frames_text(fs, i + 1)
    }
}

/// The container text of a recording: the header, the frame count, then
/// each frame's separator, time and base64-encoded content, one per line.
pub open spec fn recording_text(fs: Seq<(u64, Seq<char>)>) -> Seq<char> {
    magic() + seq!['\n', 'F', 'R', 'A', 'M', 'E', 'S', ' '] + dec(fs.len()) + seq!['\n']
        + frames_text(fs, 0)
}

/// Whether the frames' timestamps never decrease.
pub open spec fn in_time_order(fs: Seq<(u64, Seq<char>)>) -> bool {
    forall|i: int, j: int| 0 <= i <= j < fs.len() ==> #[trigger] fs[i].0 <= #[trigger] fs[j].0
}

/// A frame stamped no earlier than the last one keeps the frames in order.
proof fn lemma_push_in_order(fs: Seq<(u64, Seq<char>)>, x: (u64, Seq<char>))
    requires
        fs.len() > 0 ==> fs.last().0 <= x.0,
    ensures
        in_time_order(fs) ==> in_time_order(fs.push(x)),
{
    if in_time_order(fs) {
        let g = fs.push(x);
        assert forall|i: int, j: int| 0 <= i <= j < g.len() implies #[trigger] g[i].0
            <= #[trigger] g[j].0 by {
            if j == fs.len() && i < fs.len() {
                assert(fs[i].0 <= fs[fs.len() - 1].0);
            }
        }
    }
}

impl Recorder {
    /// An empty recording that starts now.
    pub fn new() -> (r: Recorder)
        ensures
            r@ == Seq::<(u64, Seq<char>)>::empty(),
    {
        let r = Recorder { frames: Vec::new(), start: now() };
        assert(r@ =~= Seq::<(u64, Seq<char>)>::empty());
        r
    }

    /// Adds a frame, stamped with the time since the recording started (or
    /// the previous frame's stamp, should the clock read less).
    pub fn capture(&mut self, content: &str)
        ensures
            final(self)@.len() == old(self)@.len() + 1,
            final(self)@.subrange(0, old(self)@.len() as int) == old(self)@,
            final(self)@.last().1 == content@,
            old(self)@.len() > 0 ==> old(self)@.last().0 <= final(self)@.last().0,
            in_time_order(old(self)@) ==> in_time_order(final(self)@),
    {
        let elapsed = elapsed_ms(&self.start);
        let n = self.frames.len();
        let timestamp_ms = if n > 0 && self.frames[n - 1].timestamp_ms > elapsed {
            self.frames[n - 1].timestamp_ms
        } else {
            elapsed
        };
        let ghost before = self@;
        assert(n > 0 ==> before[n - 1] == self.frames@[n - 1]@);
        self.frames.push(Frame { timestamp_ms, content: content.to_owned() });
        assert(self@ =~= before.push((timestamp_ms, content@)));
        assert(self@.subrange(0, before.len() as int) =~= before);
        proof {
            lemma_push_in_order(before, (timestamp_ms, content@));
        }
    }

    /// The number of frames recorded.
    pub fn frame_count(&self) -> (n: usize)
        ensures
            n == self@.len(),
    {
        self.frames.len()
    }

    /// The container text of the recording.
    pub fn to_text(&self) -> (s: String)
        ensures
            s@ == recording_text(self@),
    {
        let ghost fs = self@;
        let mut out: Vec<char> = Vec::new();
        push_literal(&mut out, "ASCIIANIM v1\nFRAMES ");
        push_dec(&mut out, (self.frames.len()) as u64);
        out.push('\n');
        proof {
            reveal_strlit("ASCIIANIM v1\nFRAMES ");
        }
        assert(out@ + frames_text(fs, 0) =~= recording_text(fs));
        let mut i: usize = 0;
        while i < self.frames.len()
            invariant
                i <= self.frames.len(),
                fs == self@,
                fs.len() == self.frames.len(),
                out@ + frames_text(fs, i as int) == recording_text(fs),
            decreases self.frames.len() - i,
        {
            let ghost before = out@;
            let f = &self.frames[i];
            assert(fs[i as int] == f@);
            push_literal(&mut out, "---\nT ");
            proof {
                reveal_strlit("---\nT ");
            }
            push_dec(&mut out, f.timestamp_ms);
            out.push('\n');
            let enc = base64_encode(f.content.as_str().as_bytes());
            push_all(&mut out, &chars_of(enc.as_str()));
            out.push('\n');
            assert(out@ =~= before + seq!['-', '-', '-', '\n', 'T', ' '] + dec(fs[i as int].0 as nat)
                + seq!['\n'] + b64_encode(vstd::utf8::encode_utf8(fs[i as int].1)) + seq!['\n']);
            i += 1;
        }
        string_of(&out)
    }
}

/// The lines of `t` from index `i` on, as a buffered reader gives them: cut
/// at each `\n`, which is dropped with a `\r` just before it; no empty line
/// after a final `\n`.
pub open spec fn text_lines(t: Seq<char>, i: int) -> Seq<Seq<char>>
    decreases t.len() - i,
{
    if i < 0 || i >= t.len() {
        Seq::empty()
    } else {
        let e = index_of(t, '\n', i);
        if e < i {
            Seq::empty()
        } else if e >= t.len() {
            seq![t.subrange(i, e)]
        } else {
            let raw = t.subrange(i, e);
            let line = if raw.len() > 0 && raw.last() == '\r' {
                raw.drop_last()
            } else {
                raw
            };
            seq![line] + text_lines(t, e + 1)
        }
    }
}

/// Why a recording could not be read, as the reader sees it.
pub enum LoadFault {
    MissingHeader,
    InvalidHeader(Seq<char>),
    MissingFrameCount,
    InvalidFrameCount,
    MissingTimestamp,
    InvalidTimestamp,
    MissingContent,
    Base64(Base64Error),
    Utf8,
}

/// Whether `s` starts with `p`.
pub open spec fn starts_with(s: Seq<char>, p: Seq<char>) -> bool {
    s.len() >= p.len() && s.subrange(0, p.len() as int) == p
}

/// The frame separator line.
pub open spec fn separator() -> Seq<char> {
    seq!['-', '-', '-']
}

/// The frames of the lines from `k` on: each `---` line is followed by a
/// `T <milliseconds>` line and a line of base64-encoded UTF-8 content; other
/// lines are skipped.
pub open spec fn frames_from(ls: Seq<Seq<char>>, k: int) -> Result<Seq<(u64, Seq<char>)>, LoadFault>
    decreases ls.len() - k,
{
    if k < 0 || k >= ls.len() {
        Ok(Seq::empty())
    } else if ls[k] != separator() {
        frames_from(ls, k + 1)
    } else if k + 1 >= ls.len() {
        Err(LoadFault::MissingTimestamp)
    } else if !starts_with(ls[k + 1], seq!['T', ' ']) || parse_u64(
        ls[k + 1].subrange(2, ls[k + 1].len() as int),
    ) is None {
        Err(LoadFault::InvalidTimestamp)
    } else if k + 2 >= ls.len() {
        Err(LoadFault::MissingContent)
    } else {
        match b64_decode(vstd::utf8::encode_utf8(ls[k + 2])) {
            Err(e) => Err(LoadFault::Base64(e)),
            Ok(bytes) => if !vstd::utf8::valid_utf8(bytes) {
                Err(LoadFault::Utf8)
            } else {
                match frames_from(ls, k + 3) {
                    Ok(rest) => Ok(
                        seq![
                            (
                                parse_u64(ls[k + 1].subrange(2, ls[k + 1].len() as int))->0,
                                vstd::utf8::decode_utf8(bytes),
                            ),
                        ] + rest,
                    ),
                    Err(e) => Err(e),
                }
            },
        }
    }
}

/// What reading recording text `t` gives: the header line must start with
/// the magic, the second line must be `FRAMES <count>`, then the frames.
pub open spec fn parse_recording(t: Seq<char>) -> Result<Seq<(u64, Seq<char>)>, LoadFault> {
    let ls = text_lines(t, 0);
    if ls.len() == 0 {
        Err(LoadFault::MissingHeader)
    } else if !starts_with(ls[0], magic()) {
        Err(LoadFault::InvalidHeader(ls[0]))
    } else if ls.len() < 2 {
        Err(LoadFault::MissingFrameCount)
    } else if !starts_with(ls[1], seq!['F', 'R', 'A', 'M', 'E', 'S', ' ']) || parse_usize(
        ls[1].subrange(7, ls[1].len() as int),
    ) is None {
        Err(LoadFault::InvalidFrameCount)
    } else {
        frames_from(ls, 2)
    }
}

/// Why a recording could not be read.
#[derive(Debug)]
pub enum LoadError {
    MissingHeader,
    InvalidHeader(String),
    MissingFrameCount,
    InvalidFrameCount,
    MissingTimestamp,
    InvalidTimestamp,
    MissingContent,
    Base64(Base64Error),
    /// The decoded content is not UTF-8; the text says why.
    Utf8(String),
}

impl View for LoadError {
    type V = LoadFault;

    open spec fn view(&self) -> LoadFault {
        match self {
            LoadError::MissingHeader => LoadFault::MissingHeader,
            LoadError::InvalidHeader(h) => LoadFault::InvalidHeader(h@),
            LoadError::MissingFrameCount => LoadFault::MissingFrameCount,
            LoadError::InvalidFrameCount => LoadFault::InvalidFrameCount,
            LoadError::MissingTimestamp => LoadFault::MissingTimestamp,
            LoadError::InvalidTimestamp => LoadFault::InvalidTimestamp,
            LoadError::MissingContent => LoadFault::MissingContent,
            LoadError::Base64(e) => LoadFault::Base64(*e),
            LoadError::Utf8(_) => LoadFault::Utf8,
        }
    }
}

/// The message of a load error whose explanation of bad UTF-8 is `why`.
pub open spec fn load_message(e: LoadFault, why: Seq<char>) -> Seq<char> {
    match e {
        LoadFault::MissingHeader => "Missing header"@,
        LoadFault::InvalidHeader(h) => "Invalid header: "@ + h,
        LoadFault::MissingFrameCount => "Missing frame count"@,
        LoadFault::InvalidFrameCount => "Invalid frame count"@,
        LoadFault::MissingTimestamp => "Missing timestamp"@,
        LoadFault::InvalidTimestamp => "Invalid timestamp"@,
        LoadFault::MissingContent => "Missing frame content"@,
        LoadFault::Base64(b) => "Base64 decode error: "@ + base64_message(b),
        LoadFault::Utf8 => "UTF-8 error: "@ + why,
    }
}

impl LoadError {
    /// The error's message.
    pub fn message(&self) -> (s: String)
        ensures
            s@ == load_message(
                self@,
                match self {
                    LoadError::Utf8(m) => m@,
                    _ => Seq::empty(),
                },
            ),
    {
        let mut out: Vec<char> = Vec::new();
        match self {
            LoadError::MissingHeader => push_literal(&mut out, "Missing header"),
            LoadError::InvalidHeader(h) => {
                push_literal(&mut out, "Invalid header: ");
                push_literal(&mut out, h.as_str());
            },
            LoadError::MissingFrameCount => push_literal(&mut out, "Missing frame count"),
            LoadError::InvalidFrameCount => push_literal(&mut out, "Invalid frame count"),
            LoadError::MissingTimestamp => push_literal(&mut out, "Missing timestamp"),
            LoadError::InvalidTimestamp => push_literal(&mut out, "Invalid timestamp"),
            LoadError::MissingContent => push_literal(&mut out, "Missing frame content"),
            LoadError::Base64(e) => {
                push_literal(&mut out, "Base64 decode error: ");
                let m = e.message();
                push_literal(&mut out, m.as_str());
            },
            LoadError::Utf8(m) => {
                push_literal(&mut out, "UTF-8 error: ");
                push_literal(&mut out, m.as_str());
            },
        }
        assert(out@ =~= load_message(
            self@,
            match self {
                LoadError::Utf8(m) => m@,
                _ => Seq::empty(),
            },
        ));
        string_of(&out)
    }

    /// Whether the recording ended too early, rather than holding bad data.
    pub fn is_truncation(&self) -> (b: bool)
        ensures
            b == (self@ is MissingTimestamp || self@ is MissingContent),
    {
        match self {
            LoadError::MissingTimestamp => true,
            LoadError::MissingContent => true,
            _ => false,
        }
    }
}

/// `std::string::FromUtf8Error`, carried as an opaque value.
#[verifier::external_type_specification]
#[verifier::external_body]
pub struct ExFromUtf8Error(std::string::FromUtf8Error);

/// Relies on `String::from_utf8`: the text of the bytes exactly when they are
/// UTF-8.
#[verifier::external_body]
fn string_from_utf8(b: Vec<u8>) -> (r: Result<String, std::string::FromUtf8Error>)
    ensures
        r is Ok <==> vstd::utf8::valid_utf8(b@),
        r is Ok ==> r->Ok_0@ == vstd::utf8::decode_utf8(b@),
{
    String::from_utf8(b)
}

/// Relies on `FromUtf8Error`'s `Display`: its explanation of the bad bytes.
#[verifier::external_body]
fn utf8_error_text(e: &std::string::FromUtf8Error) -> (s: String) {
    e.to_string()
}

pub proof fn lemma_index_of_ge(s: Seq<char>, c: char, j: int)
    requires
        0 <= j <= s.len(),
    ensures
        j <= index_of(s, c, j) <= s.len(),
    decreases s.len() - j,
{
    if j < s.len() && s[j] != c {
        lemma_index_of_ge(s, c, j + 1);
    }
}

/// The lines of a text.
fn split_lines(t: &Vec<char>) -> (ls: Vec<Vec<char>>)
    ensures
        ls@.map_values(|l: Vec<char>| l@) == text_lines(t@, 0),
{
    let mut ls: Vec<Vec<char>> = Vec::new();
    let mut i: usize = 0;
    while i < t.len()
        invariant
            i <= t.len(),
            ls@.map_values(|l: Vec<char>| l@) + text_lines(t@, i as int) == text_lines(t@, 0),
        decreases t.len() - i,
    {
        let mut e: usize = i;
        while e < t.len() && t[e] != '\n'
            invariant
                i <= e <= t.len(),
                index_of(t@, '\n', e as int) == index_of(t@, '\n', i as int),
            decreases t.len() - e,
        {
            e += 1;
        }
        assert(index_of(t@, '\n', e as int) == e);
        let mut line = copy_range(t, i, e);
        let ghost before = ls@.map_values(|l: Vec<char>| l@);
        if e >= t.len() {
            ls.push(line);
            assert(ls@.map_values(|l: Vec<char>| l@) =~= before.push(line@));
            assert(text_lines(t@, e as int) =~= Seq::<Seq<char>>::empty());
            assert(before + text_lines(t@, i as int) =~= ls@.map_values(|l: Vec<char>| l@) + text_lines(t@, e as int));
            i = e;
        } else {
            if line.len() > 0 && line[line.len() - 1] == '\r' {
                line.pop();
                assert(line@ =~= t@.subrange(i as int, e as int).drop_last());
            }
            ls.push(line);
            assert(ls@.map_values(|l: Vec<char>| l@) =~= before.push(line@));
            assert(text_lines(t@, i as int) == seq![line@] + text_lines(t@, e + 1));
            assert(before + text_lines(t@, i as int) =~= before.push(line@) + text_lines(t@, e + 1));
            i = e + 1;
        }
    }
    assert(ls@.map_values(|l: Vec<char>| l@) + text_lines(t@, i as int) =~= ls@.map_values(|l: Vec<char>| l@));
    ls
}

fn line_is(l: &Vec<char>, p: &str) -> (b: bool)
    ensures
        b == (l@ == p@),
{
    let pv = chars_of(p);
    crate::text::same_chars(l, &pv)
}

fn line_starts_with(l: &Vec<char>, p: &str) -> (b: bool)
    ensures
        b == starts_with(l@, p@),
{
    let pv = chars_of(p);
    if l.len() < pv.len() {
        return false;
    }
    let mut i: usize = 0;
    while i < pv.len()
        invariant
            i <= pv.len() <= l.len(),
            pv@ == p@,
            forall|k: int| 0 <= k < i ==> l@[k] == pv@[k],
        decreases pv.len() - i,
    {
        if l[i] != pv[i] {
            assert(l@.subrange(0, pv@.len() as int)[i as int] != pv@[i as int]);
            assert(l@.subrange(0, pv@.len() as int) != pv@);
            assert(!starts_with(l@, p@));
            return false;
        }
        i += 1;
    }
    assert(l@.subrange(0, pv@.len() as int) =~= pv@);
    true
}

/// A loaded recording, ready to play back.
pub struct Player {
    frames: Vec<Frame>,
}

impl View for Player {
    type V = Seq<(u64, Seq<char>)>;

    closed spec fn view(&self) -> Seq<(u64, Seq<char>)> {
        self.frames@.map_values(|f: Frame| f@)
    }
}

fn read_frames(ls: &Vec<Vec<char>>, k: usize) -> (r: Result<Vec<Frame>, LoadError>)
    requires
        k <= ls.len(),
    ensures
        match r {
            Ok(fs) => frames_from(ls@.map_values(|l: Vec<char>| l@), k as int) == Ok::<
                Seq<(u64, Seq<char>)>,
                LoadFault,
            >(fs@.map_values(|f: Frame| f@)),
            Err(e) => frames_from(ls@.map_values(|l: Vec<char>| l@), k as int) == Err::<
                Seq<(u64, Seq<char>)>,
                LoadFault,
            >(e@),
        },
    decreases ls.len() - k,
{
    let ghost lv = ls@.map_values(|l: Vec<char>| l@);
    if k >= ls.len() {
        let v: Vec<Frame> = Vec::new();
        assert(v@.map_values(|f: Frame| f@) =~= Seq::<(u64, Seq<char>)>::empty());
        return Ok(v);
    }
    assert(lv[k as int] == ls@[k as int]@);
    proof {
        reveal_strlit("---");
        assert("---"@ =~= separator());
        reveal_strlit("T ");
        assert("T "@ =~= seq!['T', ' ']);
    }
    if !line_is(&ls[k], "---") {
        return read_frames(ls, k + 1);
    }
    if k + 1 >= ls.len() {
        return Err(LoadError::MissingTimestamp);
    }
    let tl = &ls[k + 1];
    assert(lv[k + 1] == tl@);
    if !line_starts_with(tl, "T ") {
        return Err(LoadError::InvalidTimestamp);
    }
    let ts = match parse_u64_range(tl, 2, tl.len()) {
        Some(v) => v,
        None => {
            return Err(LoadError::InvalidTimestamp);
        },
    };
    if k + 2 >= ls.len() {
        return Err(LoadError::MissingContent);
    }
    assert(lv[k + 2] == ls@[k + 2]@);
    let encoded = string_of(&ls[k + 2]);
    let es: &str = encoded.as_str();
    let bytes = match base64_decode(es) {
        Ok(b) => b,
        Err(e) => {
            return Err(LoadError::Base64(e));
        },
    };
    let content = match string_from_utf8(bytes) {
        Ok(c) => c,
        Err(e) => {
            return Err(LoadError::Utf8(utf8_error_text(&e)));
        },
    };
    match read_frames(ls, k + 3) {
        Ok(rest) => {
            let mut fs: Vec<Frame> = Vec::new();
            fs.push(Frame { timestamp_ms: ts, content });
            let ghost first = fs@.map_values(|f: Frame| f@);
            let mut rest = rest;
            let ghost rv = rest@.map_values(|f: Frame| f@);
            fs.append(&mut rest);
            assert(fs@.map_values(|f: Frame| f@) =~= first + rv);
            proof {
                let tsv = parse_u64(lv[k + 1].subrange(2, lv[k + 1].len() as int));
                assert(tsv == Some(ts));
                assert(es.spec_bytes() == vstd::utf8::encode_utf8(lv[k + 2]));
                assert(b64_decode(vstd::utf8::encode_utf8(lv[k + 2])) is Ok);
                assert(frames_from(lv, k + 3) == Ok::<Seq<(u64, Seq<char>)>, LoadFault>(rv));
                assert(first =~= seq![(ts, content@)]);
            }
            Ok(fs)
        },
        Err(e) => Err(e),
    }
}

impl Player {
    /// Reads a recording from its container text.
    pub fn parse(text: &str) -> (r: Result<Player, LoadError>)
        ensures
            match r {
                Ok(p) => parse_recording(text@) == Ok::<Seq<(u64, Seq<char>)>, LoadFault>(p@),
                Err(e) => parse_recording(text@) == Err::<Seq<(u64, Seq<char>)>, LoadFault>(e@),
            },
    {
        let t = chars_of(text);
        let ls = split_lines(&t);
        let ghost lv = ls@.map_values(|l: Vec<char>| l@);
        if ls.len() == 0 {
            return Err(LoadError::MissingHeader);
        }
        assert(lv[0] == ls@[0]@);
        proof {
            reveal_strlit("ASCIIANIM v1");
            assert("ASCIIANIM v1"@ =~= magic());
            reveal_strlit("FRAMES ");
            assert("FRAMES "@ =~= seq!['F', 'R', 'A', 'M', 'E', 'S', ' ']);
        }
        if !line_starts_with(&ls[0], "ASCIIANIM v1") {
            return Err(LoadError::InvalidHeader(string_of(&ls[0])));
        }
        if ls.len() < 2 {
            return Err(LoadError::MissingFrameCount);
        }
        assert(lv[1] == ls@[1]@);
        if !line_starts_with(&ls[1], "FRAMES ") {
            return Err(LoadError::InvalidFrameCount);
        }
        if parse_usize_range(&ls[1], 7, ls[1].len()).is_none() {
            return Err(LoadError::InvalidFrameCount);
        }
        match read_frames(&ls, 2) {
            Ok(frames) => Ok(Player { frames }),
            Err(e) => Err(e),
        }
    }

    /// The number of frames.
    pub fn frame_count(&self) -> (n: usize)
        ensures
            n == self@.len(),
    {
        self.frames.len()
    }

    /// The time and content of frame `i`.
    pub fn frame(&self, i: usize) -> (f: (u64, String))
        requires
            i < self@.len(),
        ensures
            (f.0, f.1@) == self@[i as int],
    {
        let fr = &self.frames[i];
        (fr.timestamp_ms, fr.content.clone())
    }
}

} // verus!
