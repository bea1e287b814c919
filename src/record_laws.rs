//! Base64 as written by this crate reads back to the same bytes.
use vstd::prelude::*;
use crate::delta::index_of;
use crate::record::{
    b64_decode, b64_decode_from, b64_digit, b64_encode, b64_group, b64_ungroup, b64_value,
    first_bad, frames_from, frames_text, magic, parse_recording, recording_text, separator,
    starts_with, strip_breaks, text_lines, Base64Error, LoadFault,
};
use crate::text::{dec, is_digit, lemma_dec_digits, parse_bounded, parse_u64, parse_usize};

verus! {

/// The bytes of an ASCII character sequence.
pub open spec fn ascii_bytes(cs: Seq<char>) -> Seq<u8> {
    Seq::new(cs.len(), |i: int| cs[i] as u8)
}

/// The characters base64 text is written with.
pub open spec fn b64_char(c: char) -> bool {
    ('A' <= c && c <= 'Z') || ('a' <= c && c <= 'z') || ('0' <= c && c <= '9') || c == '+' || c
        == '/' || c == '='
}

proof fn lemma_digit(v: nat)
    requires
        v < 64,
    ensures
        b64_char(b64_digit(v)),
        b64_digit(v) != '=',
        b64_value(b64_digit(v) as u8) == Some(v),
{
}

proof fn lemma_group_chars(b0: u8, b1: u8, b2: u8, n: nat)
    ensures
        b64_group(b0, b1, b2, n).len() == 4,
        forall|i: int| 0 <= i < 4 ==> b64_char(#[trigger] b64_group(b0, b1, b2, n)[i]),
{
    lemma_digit((b0 / 4) as nat);
    lemma_digit(((b0 % 4) * 16 + b1 / 16) as nat);
    lemma_digit(((b1 % 16) * 4 + b2 / 64) as nat);
    lemma_digit((b2 % 64) as nat);
}

proof fn lemma_encode_chars(s: Seq<u8>)
    ensures
        b64_encode(s).len() % 4 == 0,
        forall|i: int| 0 <= i < b64_encode(s).len() ==> b64_char(#[trigger] b64_encode(s)[i]),
    decreases s.len(),
{
    if s.len() == 0 {
    } else if s.len() == 1 {
        lemma_group_chars(s[0], 0, 0, 1);
    } else if s.len() == 2 {
        lemma_group_chars(s[0], s[1], 0, 2);
    } else {
        let g = b64_group(s[0], s[1], s[2], 3);
        let rest = b64_encode(s.subrange(3, s.len() as int));
        lemma_group_chars(s[0], s[1], s[2], 3);
        lemma_encode_chars(s.subrange(3, s.len() as int));
        assert forall|i: int| 0 <= i < b64_encode(s).len() implies b64_char(
            #[trigger] b64_encode(s)[i],
        ) by {
            if i < 4 {
                assert(b64_encode(s)[i] == g[i]);
            } else {
                assert(b64_encode(s)[i] == rest[i - 4]);
            }
        }
    }
}

proof fn lemma_strip_none(t: Seq<u8>)
    requires
        forall|i: int| 0 <= i < t.len() ==> #[trigger] t[i] != 10 && t[i] != 13,
    ensures
        strip_breaks(t) == t,
    decreases t.len(),
{
    reveal(Seq::filter);
    if t.len() > 0 {
        lemma_strip_none(t.drop_last());
        assert(t.drop_last().push(t.last()) =~= t);
    }
}

proof fn lemma_no_bad(t: Seq<u8>, i: int)
    requires
        0 <= i,
        forall|j: int| 0 <= j < t.len() ==> #[trigger] b64_value(t[j]) is Some,
    ensures
        first_bad(t, i) is None,
    decreases t.len() - i,
{
    if i < t.len() {
        lemma_no_bad(t, i + 1);
    }
}

proof fn lemma_decode_shift(p: Seq<u8>, q: Seq<u8>, j: int)
    requires
        p.len() % 4 == 0,
        0 <= j <= q.len(),
    ensures
        b64_decode_from(p + q, p.len() + j) == b64_decode_from(q, j),
    decreases q.len() - j,
{
    if j + 4 <= q.len() {
        lemma_decode_shift(p, q, j + 4);
        reveal(b64_ungroup);
        let s = p + q;
        let i = p.len() + j;
        assert(s[i] == q[j] && s[i + 1] == q[j + 1] && s[i + 2] == q[j + 2] && s[i + 3] == q[j
            + 3]);
        assert(b64_ungroup(s, i) == b64_ungroup(q, j));
    }
}

proof fn lemma_ungroup_prefix(g: Seq<u8>, q: Seq<u8>)
    requires
        g.len() == 4,
    ensures
        b64_ungroup(g + q, 0) == b64_ungroup(g, 0),
{
    reveal(b64_ungroup);
    let s = g + q;
    assert(s[0] == g[0] && s[1] == g[1] && s[2] == g[2] && s[3] == g[3]);
}

proof fn lemma_group_round_trip(b0: u8, b1: u8, b2: u8, n: nat)
    requires
        1 <= n <= 3,
        n < 2 ==> b1 == 0,
        n < 3 ==> b2 == 0,
    ensures
        b64_ungroup(ascii_bytes(b64_group(b0, b1, b2, n)), 0) == seq![b0, b1, b2].subrange(
            0,
            n as int,
        ),
{
    reveal(b64_ungroup);
    let v0 = (b0 / 4) as nat;
    let v1 = ((b0 % 4) * 16 + b1 / 16) as nat;
    let v2 = ((b1 % 16) * 4 + b2 / 64) as nat;
    let v3 = (b2 % 64) as nat;
    lemma_digit(v0);
    lemma_digit(v1);
    lemma_digit(v2);
    lemma_digit(v3);
    let t = ascii_bytes(b64_group(b0, b1, b2, n));
    let w2: nat = if n > 1 {
        v2
    } else {
        0
    };
    let w3: nat = if n > 2 {
        v3
    } else {
        0
    };
    assert(b64_value(t[0]) == Some(v0));
    assert(b64_value(t[1]) == Some(v1));
    assert(b64_value(t[2]) == Some(w2));
    assert(b64_value(t[3]) == Some(w3));
    assert(w2 == v2 && w3 == v3) by {
        if n < 2 {
            assert(v2 == 0);
        }
        if n < 3 {
            assert(v3 == 0);
        }
    }
    let triple = v0 * 262144 + v1 * 4096 + v2 * 64 + v3;
    assert(triple == b0 * 65536 + b1 * 256 + b2) by (nonlinear_arith)
        requires
            v0 == b0 / 4,
            v1 == (b0 % 4) * 16 + b1 / 16,
            v2 == (b1 % 16) * 4 + b2 / 64,
            v3 == b2 % 64,
            triple == v0 * 262144 + v1 * 4096 + v2 * 64 + v3,
    ;
    assert(triple / 65536 % 256 == b0) by (nonlinear_arith)
        requires
            triple == b0 * 65536 + b1 * 256 + b2,
            0 <= b0 < 256,
            0 <= b1 < 256,
            0 <= b2 < 256,
    ;
    assert(triple / 256 % 256 == b1) by (nonlinear_arith)
        requires
            triple == b0 * 65536 + b1 * 256 + b2,
            0 <= b0 < 256,
            0 <= b1 < 256,
            0 <= b2 < 256,
    ;
    assert(triple % 256 == b2) by (nonlinear_arith)
        requires
            triple == b0 * 65536 + b1 * 256 + b2,
            0 <= b0 < 256,
            0 <= b1 < 256,
            0 <= b2 < 256,
    ;
    assert(b64_ungroup(t, 0) =~= seq![b0, b1, b2].subrange(0, n as int));
}

proof fn lemma_decode_encode(s: Seq<u8>)
    ensures
        b64_decode_from(ascii_bytes(b64_encode(s)), 0) == s,
    decreases s.len(),
{
    let e = b64_encode(s);
    if s.len() == 0 {
        assert(ascii_bytes(e).len() == 0);
    } else if s.len() <= 2 {
        let b1: u8 = if s.len() > 1 {
            s[1]
        } else {
            0
        };
        lemma_group_round_trip(s[0], b1, 0, s.len());
        assert(b64_decode_from(ascii_bytes(e), 4) == Seq::<u8>::empty());
        assert(seq![s[0], b1, 0u8].subrange(0, s.len() as int) =~= s);
        assert(b64_ungroup(ascii_bytes(e), 0) + Seq::<u8>::empty() =~= s);
    } else {
        let rest = s.subrange(3, s.len() as int);
        let g = b64_group(s[0], s[1], s[2], 3);
        lemma_encode_chars(rest);
        lemma_decode_encode(rest);
        lemma_group_round_trip(s[0], s[1], s[2], 3);
        let tg = ascii_bytes(g);
        let tr = ascii_bytes(b64_encode(rest));
        assert(ascii_bytes(e) =~= tg + tr);
        lemma_ungroup_prefix(tg, tr);
        lemma_decode_shift(tg, tr, 0);
        assert(seq![s[0], s[1], s[2]].subrange(0, 3) + rest =~= s);
    }
}

/// Base64 written by `base64_encode` decodes back to the same bytes.
pub proof fn lemma_base64_round_trip(s: Seq<u8>)
    ensures
        b64_decode(vstd::utf8::encode_utf8(b64_encode(s))) == Ok::<Seq<u8>, Base64Error>(s),
{
    let e = b64_encode(s);
    lemma_encode_chars(s);
    assert(vstd::utf8::is_ascii_chars(e));
    vstd::utf8::is_ascii_chars_encode_utf8(e);
    let t = vstd::utf8::encode_utf8(e);
    assert(t =~= ascii_bytes(e));
    assert forall|i: int| 0 <= i < t.len() implies #[trigger] t[i] != 10 && t[i] != 13 by {
        assert(b64_char(e[i]));
    }
    lemma_strip_none(t);
    assert forall|j: int| 0 <= j < t.len() implies #[trigger] b64_value(t[j]) is Some by {
        assert(b64_char(e[j]));
    }
    lemma_no_bad(t, 0);
    lemma_decode_encode(s);
}

proof fn lemma_index_of_shift(p: Seq<char>, b: Seq<char>, c: char, j: int)
    requires
        0 <= j <= b.len(),
    ensures
        index_of(p + b, c, p.len() + j) == p.len() + index_of(b, c, j),
    decreases b.len() - j,
{
    if j < b.len() {
        assert((p + b)[p.len() + j] == b[j]);
        lemma_index_of_shift(p, b, c, j + 1);
    }
}

proof fn lemma_index_of_line(a: Seq<char>, b: Seq<char>, j: int)
    requires
        0 <= j <= a.len(),
        forall|i: int| 0 <= i < a.len() ==> #[trigger] a[i] != '\n',
    ensures
        index_of(a + seq!['\n'] + b, '\n', j) == a.len(),
    decreases a.len() - j,
{
    let t = a + seq!['\n'] + b;
    if j < a.len() {
        assert(t[j] == a[j]);
        lemma_index_of_line(a, b, j + 1);
    } else {
        assert(t[j] == '\n');
    }
}

proof fn lemma_text_lines_shift(p: Seq<char>, b: Seq<char>, j: int)
    requires
        0 <= j <= b.len(),
    ensures
        text_lines(p + b, p.len() + j) == text_lines(b, j),
    decreases b.len() - j,
{
    let t = p + b;
    if j < b.len() {
        lemma_index_of_shift(p, b, '\n', j);
        let e = index_of(b, '\n', j);
        crate::record::lemma_index_of_ge(b, '\n', j);
        assert(t.subrange(p.len() + j, p.len() + e) =~= b.subrange(j, e));
        if e < b.len() {
            lemma_text_lines_shift(p, b, e + 1);
        }
    }
}

/// A line without `\n` that does not end in `\r`, then `\n`, then more text.
proof fn lemma_text_lines_cons(a: Seq<char>, b: Seq<char>)
    requires
        forall|i: int| 0 <= i < a.len() ==> #[trigger] a[i] != '\n',
        a.len() > 0 ==> a.last() != '\r',
    ensures
        text_lines(a + seq!['\n'] + b, 0) == seq![a] + text_lines(b, 0),
{
    let t = a + seq!['\n'] + b;
    lemma_index_of_line(a, b, 0);
    assert(t.subrange(0, a.len() as int) =~= a);
    assert(t =~= (a + seq!['\n']) + b);
    lemma_text_lines_shift(a + seq!['\n'], b, 0);
}

/// The lines of frames `fs` from index `i` on: separator, time, content.
pub open spec fn frame_lines(fs: Seq<(u64, Seq<char>)>, i: int) -> Seq<Seq<char>>
    decreases fs.len() - i,
{
    if i < 0 || i >= fs.len() {
        Seq::empty()
    } else {
        seq![
            separator(),
            seq!['T', ' '] + dec(fs[i].0 as nat),
            b64_encode(vstd::utf8::encode_utf8(fs[i].1)),
        ] + frame_lines(fs, i + 1)
    }
}

proof fn lemma_dec_line(p: Seq<char>, n: nat)
    ensures
        forall|i: int| 0 <= i < (p + dec(n)).len() ==> #[trigger] (p + dec(n))[i] != '\n' || (
        i < p.len() && p[i] == '\n'),
        (p + dec(n)).len() > 0,
        (p + dec(n)).last() != '\r',
{
    lemma_dec_digits(n);
    assert forall|i: int| 0 <= i < (p + dec(n)).len() implies #[trigger] (p + dec(n))[i] != '\n'
        || (i < p.len() && p[i] == '\n') by {
        if i >= p.len() {
            assert(is_digit(dec(n)[i - p.len()]));
        }
    }
    assert(is_digit(dec(n)[dec(n).len() - 1]));
}

proof fn lemma_frames_text_lines(fs: Seq<(u64, Seq<char>)>, i: int)
    requires
        0 <= i,
    ensures
        text_lines(frames_text(fs, i), 0) == frame_lines(fs, i),
    decreases fs.len() - i,
{
    if i < fs.len() {
        lemma_frames_text_lines(fs, i + 1);
        let tl = seq!['T', ' '] + dec(fs[i].0 as nat);
        let enc = b64_encode(vstd::utf8::encode_utf8(fs[i].1));
        let rest = frames_text(fs, i + 1);
        lemma_dec_line(seq!['T', ' '], fs[i].0 as nat);
        lemma_encode_chars(vstd::utf8::encode_utf8(fs[i].1));
        assert forall|k: int| 0 <= k < enc.len() implies #[trigger] enc[k] != '\n' by {
            assert(b64_char(enc[k]));
        }
        if enc.len() > 0 {
            assert(b64_char(enc.last()));
        }
        assert forall|k: int| 0 <= k < tl.len() implies #[trigger] tl[k] != '\n' by {}
        let sep = separator();
        assert forall|k: int| 0 <= k < sep.len() implies #[trigger] sep[k] != '\n' by {}
        assert(frames_text(fs, i) =~= sep + seq!['\n'] + (tl + seq!['\n'] + (enc + seq!['\n']
            + rest)));
        lemma_text_lines_cons(sep, tl + seq!['\n'] + (enc + seq!['\n'] + rest));
        lemma_text_lines_cons(tl, enc + seq!['\n'] + rest);
        lemma_text_lines_cons(enc, rest);
        assert(frame_lines(fs, i) =~= seq![sep] + (seq![tl] + (seq![enc] + frame_lines(
            fs,
            i + 1,
        ))));
    }
}

proof fn lemma_parse_dec_u64(n: u64)
    ensures
        parse_u64(dec(n as nat)) == Some(n),
{
    lemma_dec_digits(n as nat);
    assert(parse_bounded(dec(n as nat), u64::MAX as nat) == Some(n as nat));
}

proof fn lemma_frames_from_lines(head: Seq<Seq<char>>, fs: Seq<(u64, Seq<char>)>, i: int)
    requires
        0 <= i <= fs.len(),
    ensures
        frames_from(head + frame_lines(fs, 0), head.len() + 3 * i) == Ok::<
            Seq<(u64, Seq<char>)>,
            LoadFault,
        >(fs.subrange(i, fs.len() as int)),
    decreases fs.len() - i,
{
    let ls = head + frame_lines(fs, 0);
    lemma_frame_lines_index(fs, 0, i);
    if i < fs.len() {
        lemma_frames_from_lines(head, fs, i + 1);
        let k = head.len() + 3 * i;
        let tl = seq!['T', ' '] + dec(fs[i].0 as nat);
        assert(ls[k] == separator());
        assert(ls[k + 1] == tl);
        assert(ls[k + 2] == b64_encode(vstd::utf8::encode_utf8(fs[i].1)));
        assert(tl.subrange(0, 2) =~= seq!['T', ' ']);
        assert(tl.subrange(2, tl.len() as int) =~= dec(fs[i].0 as nat));
        lemma_parse_dec_u64(fs[i].0);
        lemma_base64_round_trip(vstd::utf8::encode_utf8(fs[i].1));
        vstd::utf8::encode_utf8_valid_utf8(fs[i].1);
        vstd::utf8::encode_utf8_decode_utf8(fs[i].1);
        assert(seq![(fs[i].0, fs[i].1)] + fs.subrange(i + 1, fs.len() as int) =~= fs.subrange(
            i,
            fs.len() as int,
        ));
    } else {
        assert(fs.subrange(i, fs.len() as int) =~= Seq::<(u64, Seq<char>)>::empty());
    }
}

proof fn lemma_frame_lines_index(fs: Seq<(u64, Seq<char>)>, i: int, j: int)
    requires
        0 <= i <= j <= fs.len(),
    ensures
        frame_lines(fs, i).len() == 3 * (fs.len() - i),
        j < fs.len() ==> frame_lines(fs, i)[3 * (j - i)] == separator() && frame_lines(fs, i)[3 * (
        j - i) + 1] == seq!['T', ' '] + dec(fs[j].0 as nat) && frame_lines(fs, i)[3 * (j - i) + 2]
            == b64_encode(vstd::utf8::encode_utf8(fs[j].1)),
    decreases fs.len() - i,
{
    if i < fs.len() {
        lemma_frame_lines_index(fs, i + 1, if j > i {
            j
        } else {
            i + 1
        });
        if j > i && j < fs.len() {
            let rest = frame_lines(fs, i + 1);
            let first = seq![
                separator(),
                seq!['T', ' '] + dec(fs[i].0 as nat),
                b64_encode(vstd::utf8::encode_utf8(fs[i].1)),
            ];
            assert(frame_lines(fs, i) == first + rest);
            assert(frame_lines(fs, i)[3 * (j - i)] == rest[3 * (j - i - 1)]);
            assert(frame_lines(fs, i)[3 * (j - i) + 1] == rest[3 * (j - i - 1) + 1]);
            assert(frame_lines(fs, i)[3 * (j - i) + 2] == rest[3 * (j - i - 1) + 2]);
        }
    }
}

/// A recording saved as text reads back as the same frames.
pub proof fn lemma_recording_round_trip(fs: Seq<(u64, Seq<char>)>)
    requires
        fs.len() <= usize::MAX,
    ensures
        parse_recording(recording_text(fs)) == Ok::<Seq<(u64, Seq<char>)>, LoadFault>(fs),
{
    let l0 = magic();
    let l1 = seq!['F', 'R', 'A', 'M', 'E', 'S', ' '] + dec(fs.len());
    let rest = frames_text(fs, 0);
    assert(recording_text(fs) =~= l0 + seq!['\n'] + (l1 + seq!['\n'] + rest));
    lemma_dec_line(seq!['F', 'R', 'A', 'M', 'E', 'S', ' '], fs.len());
    assert forall|k: int| 0 <= k < l0.len() implies #[trigger] l0[k] != '\n' by {}
    assert forall|k: int| 0 <= k < l1.len() implies #[trigger] l1[k] != '\n' by {}
    lemma_text_lines_cons(l0, l1 + seq!['\n'] + rest);
    lemma_text_lines_cons(l1, rest);
    lemma_frames_text_lines(fs, 0);
    let head = seq![l0, l1];
    let ls = text_lines(recording_text(fs), 0);
    assert(ls =~= head + frame_lines(fs, 0));
    assert(starts_with(l0, magic())) by {
        assert(l0.subrange(0, magic().len() as int) =~= magic());
    }
    assert(l1.subrange(0, 7) =~= seq!['F', 'R', 'A', 'M', 'E', 'S', ' ']);
    assert(l1.subrange(7, l1.len() as int) =~= dec(fs.len()));
    lemma_dec_digits(fs.len());
    assert(parse_bounded(dec(fs.len()), usize::MAX as nat) == Some(fs.len()));
    assert(parse_usize(dec(fs.len())) is Some);
    lemma_frames_from_lines(head, fs, 0);
    assert(fs.subrange(0, fs.len() as int) =~= fs);
}

} // verus!
