fn parse_render_roundtrip(s: &str) {
    if let Ok(subtitles) = kiss_srt::from_str(s) {
        let rendered = kiss_srt::to_string(&subtitles);
        let reparsed = kiss_srt::from_str(&rendered).unwrap();
        assert_eq!(subtitles, reparsed);
    }
}

#[test]
fn crash1() {
    parse_render_roundtrip("\n1\n11:11:11,111 --> 11:11:11,111\na\n\r\r");
}

#[test]
fn fuzzer_crashes_crash1() {
    parse_render_roundtrip("\n1\n11:11:11,111 --> 11:11:11,111\na\n\r\r");
}

#[test]
fn ts_trailing_bytes() {
    assert!(kiss_srt::from_str("1\n00:00:00,000 --> 11:11:11,111A\nTrailing 'A'\n").is_err())
}

#[test]
fn trailing_bytes_policy() {
    let err = kiss_srt::from_str("1\n00:00:00,000 --> 11:11:11,111A\nTrailing 'A'\n").unwrap_err();
    assert_eq!(err.kind, kiss_srt::ErrorKind::InvalidTimestampLine);
    assert_eq!(err.line, 2);
    // A single trailing carriage return is part of the line ending, not a byte
    // after the timestamp.
    assert!(kiss_srt::from_str("1\n00:00:00,000 --> 11:11:11,111\r\ntext\n").is_ok());
}

#[test]
fn carriage_returns_in_text() {
    let subtitles = kiss_srt::from_str("1\n00:00:00,000 --> 00:00:01,000\na\r\r\n\r\n").unwrap();
    assert_eq!(subtitles[0].text, "a");
    parse_render_roundtrip("1\n00:00:00,000 --> 00:00:01,000\na\rb\r\r\nc\n\r\r\n\n2\n00:00:00,000 --> 00:00:01,000\n");
}
