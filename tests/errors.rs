use kiss_srt::{Error, ErrorKind};

fn parse_err(text: &str) -> Error {
    kiss_srt::from_str(text).unwrap_err()
}

#[test]
fn bad_start_ts() {
    let err = parse_err(
        "1\n00:00:00.000 --> 00:01:23,456\nOh no!\nThe starting timestamp uses a '.' instead of a ',' :(\n",
    );
    assert_eq!(err.to_string(), "Invalid starting timestamp on line 2");
}

#[test]
fn invalid_ts_digit() {
    let err = parse_err(
        "1\n00:00:00,000 --> 11:11:1l,111\nThere is an 'l' instead of a 'l' in the end ts\n",
    );
    assert_eq!(err.to_string(), "Invalid ending timestamp on line 2");
}

#[test]
fn bad_id() {
    let err = parse_err("bad id\n00:00:00,000 --> 11:11:11,111\n'bad id' is a bad id\n");
    assert_eq!(err.to_string(), "Invalid ID-marker on line 1");
}

#[test]
fn ts_end_before_start() {
    let err = parse_err("1\n12:34:56,789 --> 12:34:56,788\nText with time travel\n");
    assert_eq!(err.to_string(), "End timestamp is before start on line 2");
    assert_eq!(
        parse_err("1\n12:34:56,789 --> 12:34:56,788\nText\n"),
        Error {
            line: 2,
            kind: ErrorKind::TimestampEndBeforeStart
        }
    );
}

#[test]
fn ts_out_of_bounds() {
    let err = parse_err("1\n00:60:00,000 --> 11:11:11,111\n60 minutes is invalid. It should just be an hour\n");
    assert_eq!(err.to_string(), "Invalid starting timestamp on line 2");
}

#[test]
fn missing_ts_line() {
    let err = parse_err("1\n");
    assert_eq!(err.to_string(), "Invalid timestamp line on line 2");
}

#[test]
fn invalid_ts_divider() {
    let err = parse_err("1\n00:00:00,000 ---> 11:11:11,111\nThe timestamp divider has one too many '-'\n");
    assert_eq!(err.to_string(), "Invalid timestamp divider on line 2");
    assert_eq!(
        parse_err("1\n00:00:00,000 ---> 00:01:23,456\nOh no\n"),
        Error {
            line: 2,
            kind: ErrorKind::InvalidTimestampDivider
        }
    );
}

#[test]
fn short_timing_lines() {
    assert_eq!(parse_err("1\n00:00:00,000\n").kind, ErrorKind::InvalidTimestampDivider);
    assert_eq!(parse_err("1\n00:00:00,000 --> \n").kind, ErrorKind::InvalidTimestampEnd);
    assert_eq!(parse_err("1\n00:00:00,00\n").kind, ErrorKind::InvalidTimestampStart);
    assert_eq!(parse_err("1\n\n").kind, ErrorKind::InvalidTimestampStart);
}

#[test]
fn error_line_counts_blank_lines() {
    let err = parse_err("\n\n1\n00:00:00,000 --> 00:00:01,000\ntext\n\nx\n");
    assert_eq!(err, Error { line: 7, kind: ErrorKind::InvalidId });
    assert_eq!(err.to_string(), "Invalid ID-marker on line 7");
    let err = parse_err("1\n00:00:00,000 --> 00:00:01,000\ntext\n\n2");
    assert_eq!(err, Error { line: 6, kind: ErrorKind::InvalidTimestampLine });
}

#[test]
fn kind_labels() {
    assert_eq!(ErrorKind::InvalidId.to_string(), "Invalid ID-marker");
    assert_eq!(ErrorKind::InvalidTimestampLine.to_string(), "Invalid timestamp line");
    assert_eq!(ErrorKind::InvalidTimestampStart.to_string(), "Invalid starting timestamp");
    assert_eq!(ErrorKind::InvalidTimestampDivider.to_string(), "Invalid timestamp divider");
    assert_eq!(ErrorKind::InvalidTimestampEnd.to_string(), "Invalid ending timestamp");
    assert_eq!(ErrorKind::TimestampEndBeforeStart.to_string(), "End timestamp is before start");
    let err = Error { line: 1234, kind: ErrorKind::InvalidTimestampEnd };
    assert_eq!(err.to_string(), "Invalid ending timestamp on line 1234");
}
