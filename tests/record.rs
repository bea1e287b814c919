use termflix::record::{base64_decode, base64_encode, Base64Error, LoadError, Player, Recorder};

#[test]
fn test_base64_roundtrip_empty() {
    let input: &[u8] = b"";
    let encoded = base64_encode(input);
    let decoded = base64_decode(&encoded).unwrap();
    assert_eq!(decoded, input);
}

#[test]
fn test_base64_roundtrip_hello() {
    let input = b"hello";
    let encoded = base64_encode(input);
    let decoded = base64_decode(&encoded).unwrap();
    assert_eq!(decoded, input);
}

#[test]
fn test_base64_roundtrip_all_bytes() {
    let input: Vec<u8> = (0u8..=255u8).collect();
    let encoded = base64_encode(&input);
    let decoded = base64_decode(&encoded).unwrap();
    assert_eq!(decoded, input);
}

#[test]
fn base64_known_encodings() {
    assert_eq!(base64_encode(b"hello"), "aGVsbG8=");
    assert_eq!(base64_encode(b"hi"), "aGk=");
    assert_eq!(base64_encode(b"abc"), "YWJj");
    assert_eq!(base64_encode(&[0xfb, 0xff]), "+/8=");
}

#[test]
fn base64_decode_ignores_line_breaks() {
    assert_eq!(base64_decode("aGVs\r\nbG8=\n").unwrap(), b"hello".to_vec());
}

#[test]
fn base64_decode_rejects_bad_length() {
    assert_eq!(base64_decode("abc"), Err(Base64Error::Length));
    assert_eq!(base64_decode("abc").unwrap_err().message(), "Invalid base64 length");
}

#[test]
fn base64_decode_rejects_bad_character() {
    assert_eq!(base64_decode("ab*d"), Err(Base64Error::Character(b'*')));
    assert_eq!(
        base64_decode("ab*d").unwrap_err().message(),
        "Invalid base64 character: *"
    );
}

#[test]
fn recorder_counts_and_saves_frames() {
    let mut rec = Recorder::new();
    assert_eq!(rec.frame_count(), 0);
    rec.capture("hi");
    rec.capture("abc");
    assert_eq!(rec.frame_count(), 2);
    let text = rec.to_text();
    assert!(text.starts_with("ASCIIANIM v1\nFRAMES 2\n---\nT "));
    assert!(text.contains("\naGk=\n---\nT "));
    assert!(text.ends_with("\nYWJj\n"));
}

#[test]
fn player_reads_back_saved_recording() {
    let mut rec = Recorder::new();
    rec.capture("\x1b[Hé⣿");
    rec.capture("");
    let p = Player::parse(&rec.to_text()).unwrap();
    assert_eq!(p.frame_count(), 2);
    assert_eq!(p.frame(0).1, "\x1b[Hé⣿");
    assert_eq!(p.frame(1).1, "");
}

#[test]
fn player_parses_lines_and_skips_noise() {
    let text = "ASCIIANIM v1 extra\r\nFRAMES 9\nnoise\n---\r\nT 42\naGk=\n";
    let p = Player::parse(text).unwrap();
    assert_eq!(p.frame_count(), 1);
    assert_eq!(p.frame(0), (42, "hi".to_string()));
}

#[test]
fn player_reports_each_fault() {
    let msg = |t: &str| match Player::parse(t) {
        Err(e) => e.message(),
        Ok(_) => "ok".to_string(),
    };
    assert_eq!(msg(""), "Missing header");
    assert_eq!(msg("HELLO\n"), "Invalid header: HELLO");
    assert_eq!(msg("ASCIIANIM v1\n"), "Missing frame count");
    assert_eq!(msg("ASCIIANIM v1\nFRAMES x\n"), "Invalid frame count");
    assert_eq!(msg("ASCIIANIM v1\nFRAMES 1\n---\n"), "Missing timestamp");
    assert_eq!(msg("ASCIIANIM v1\nFRAMES 1\n---\nT -1\n"), "Invalid timestamp");
    assert_eq!(msg("ASCIIANIM v1\nFRAMES 1\n---\nT 1\n"), "Missing frame content");
    assert_eq!(
        msg("ASCIIANIM v1\nFRAMES 1\n---\nT 1\nabc\n"),
        "Base64 decode error: Invalid base64 length"
    );
    assert!(msg("ASCIIANIM v1\nFRAMES 1\n---\nT 1\n/w==\n").starts_with("UTF-8 error: "));
    assert!(matches!(Player::parse("ASCIIANIM v1\nFRAMES 1\n---\n"), Err(LoadError::MissingTimestamp)));
}

#[test]
fn capture_stamps_never_go_back() {
    let mut rec = Recorder::new();
    for i in 0..5 {
        rec.capture(&format!("{}", i));
    }
    let p = Player::parse(&rec.to_text()).unwrap();
    let stamps: Vec<u64> = (0..5).map(|i| p.frame(i).0).collect();
    assert!(stamps.windows(2).all(|w| w[0] <= w[1]));
}
