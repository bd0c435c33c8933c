use kiss_srt::{Duration, ErrorKind, Subtitle, Timestamp};

const SANITY: &str = "
1
00:00:00,000 --> 00:01:23,456
This is some sample
text

2
00:02:34,567 --> 00:03:00,000
3
00:00:00,000 --> 11:11:11,111
^^ Wow. That looks a lot like a subtitle, but it isn't
";

const SANITY_RENDERED: &str = "\
1
00:00:00,000 --> 00:01:23,456
This is some sample
text

2
00:02:34,567 --> 00:03:00,000
3
00:00:00,000 --> 11:11:11,111
^^ Wow. That looks a lot like a subtitle, but it isn't
";

/// Scales the way the command-line tool does: the float product is truncated
/// to whole milliseconds and `from_millis` saturates it.
fn scale(ts: Timestamp, factor: f64) -> Timestamp {
    let millis = ts.total_millis() as f64 * factor;
    Timestamp::from_millis(if millis >= 0.0 { millis as u32 } else { 0 })
}

#[test]
fn sanity() {
    let subtitles = kiss_srt::from_str(SANITY).unwrap();
    assert_eq!(kiss_srt::to_string(&subtitles), SANITY_RENDERED);
}

#[test]
fn mutations() {
    let subtitles = kiss_srt::from_str(SANITY).unwrap();

    let increase: Vec<_> = subtitles
        .clone()
        .into_iter()
        .map(|mut sub| {
            sub.start += kiss_srt::Duration::from_millis(100);
            sub
        })
        .collect();
    assert_eq!(
        kiss_srt::to_string(&increase),
        "1\n00:00:00,100 --> 00:01:23,556\nThis is some sample\ntext\n\n\
         2\n00:02:34,667 --> 00:03:00,100\n3\n00:00:00,000 --> 11:11:11,111\n\
         ^^ Wow. That looks a lot like a subtitle, but it isn't\n"
    );

    let decrease: Vec<_> = subtitles
        .clone()
        .into_iter()
        .map(|mut sub| {
            sub.start -= kiss_srt::Duration::from_millis(100);
            sub
        })
        .collect();
    assert_eq!(
        kiss_srt::to_string(&decrease),
        "1\n00:00:00,000 --> 00:01:23,456\nThis is some sample\ntext\n\n\
         2\n00:02:34,467 --> 00:02:59,900\n3\n00:00:00,000 --> 11:11:11,111\n\
         ^^ Wow. That looks a lot like a subtitle, but it isn't\n"
    );

    let scaled_up: Vec<_> = subtitles
        .clone()
        .into_iter()
        .map(|mut sub| {
            sub.start = scale(sub.start, 1.1);
            sub.duration = scale(sub.duration, 1.1);
            sub
        })
        .collect();
    assert_eq!(
        kiss_srt::to_string(&scaled_up),
        "1\n00:00:00,000 --> 00:01:31,801\nThis is some sample\ntext\n\n\
         2\n00:02:50,023 --> 00:03:17,999\n3\n00:00:00,000 --> 11:11:11,111\n\
         ^^ Wow. That looks a lot like a subtitle, but it isn't\n"
    );

    let mut removed = subtitles.clone();
    let _ = removed.remove(0);
    assert_eq!(
        kiss_srt::to_string(&removed),
        "1\n00:02:34,567 --> 00:03:00,000\n3\n00:00:00,000 --> 11:11:11,111\n\
         ^^ Wow. That looks a lot like a subtitle, but it isn't\n"
    );
}

const EMPTY_TEXT_SECTION: &str = "\
1
00:00:00,000 --> 11:11:11,111

";

#[test]
fn empty_text_section() {
    let subtitles = kiss_srt::from_str(EMPTY_TEXT_SECTION).unwrap();
    assert_eq!(subtitles.len(), 1);
    assert_eq!(subtitles[0].text, "");
    assert_eq!(
        kiss_srt::to_string(&subtitles),
        "1\n00:00:00,000 --> 11:11:11,111\n\n"
    );
}

#[test]
fn minimal_valid_file() {
    const TEXT: &str = "1\n00:00:00,000 --> 00:00:05,000\nSample text\n";
    let subtitles = kiss_srt::from_str(TEXT).unwrap();
    assert_eq!(
        subtitles,
        vec![Subtitle {
            start: Timestamp::from_millis(0),
            duration: Duration::from_millis(5_000),
            text: String::from("Sample text"),
        }]
    );
    assert_eq!(kiss_srt::to_string(&subtitles), TEXT);
}

#[test]
fn renders_from_records() {
    let subtitles = vec![Subtitle {
        start: Timestamp::from_millis(0),
        duration: Duration::from_millis(5_000),
        text: String::from("Sample text"),
    }];
    assert_eq!(
        kiss_srt::to_string(&subtitles),
        "1\n00:00:00,000 --> 00:00:05,000\nSample text\n"
    );
}

#[test]
fn renumbering_after_removal() {
    const TEXT: &str = "\
7
00:00:01,000 --> 00:00:02,000
first

42
00:00:03,000 --> 00:00:04,500
second
";
    let mut subtitles = kiss_srt::from_str(TEXT).unwrap();
    assert_eq!(subtitles.len(), 2);
    subtitles.remove(0);
    assert_eq!(
        kiss_srt::to_string(&subtitles),
        "1\n00:00:03,000 --> 00:00:04,500\nsecond\n"
    );
}

#[test]
fn empty_input_and_blank_lines() {
    assert_eq!(kiss_srt::from_str("").unwrap(), vec![]);
    assert_eq!(kiss_srt::from_str("\n\n\r\n").unwrap(), vec![]);
    assert_eq!(kiss_srt::from_str("\n\nx\n").unwrap_err().kind, ErrorKind::InvalidId);
    assert_eq!(kiss_srt::from_str("\n\n\n").unwrap(), vec![]);
    assert_eq!(kiss_srt::to_string(&[]), "");
}

#[test]
fn windows_line_endings() {
    const TEXT: &str = "1\r\n00:00:01,000 --> 00:00:02,000\r\nline one\r\nline two\r\n\r\n2\r\n00:00:03,000 --> 00:00:04,000\r\nthird\r\n";
    let subtitles = kiss_srt::from_str(TEXT).unwrap();
    assert_eq!(subtitles.len(), 2);
    assert_eq!(subtitles[0].text, "line one\nline two");
    assert_eq!(subtitles[1].text, "third");
    assert_eq!(subtitles[1].start, Timestamp::from_millis(3_000));
    assert_eq!(subtitles[1].duration, Duration::from_millis(1_000));
}

#[test]
fn multi_line_text_and_leading_blank_lines() {
    const TEXT: &str = "\n\n12\n01:02:03,004 --> 01:02:04,000\nfirst\nsecond\n\n\n\n13\n01:02:05,000 --> 01:02:05,000\nthird";
    let subtitles = kiss_srt::from_str(TEXT).unwrap();
    assert_eq!(subtitles.len(), 2);
    assert_eq!(subtitles[0].start, Timestamp::from_millis(3_723_004));
    assert_eq!(subtitles[0].duration, Duration::from_millis(996));
    assert_eq!(subtitles[0].text, "first\nsecond");
    assert_eq!(subtitles[1].duration, Duration::default());
    assert_eq!(subtitles[1].text, "third");
}

#[test]
fn subtitle_display_form() {
    let sub = Subtitle {
        start: Timestamp::from_millis(1_000),
        duration: Duration::from_millis(2_500),
        text: String::from("Hi"),
    };
    assert_eq!(sub.to_string(), "00:00:01,000 --> 00:00:03,500\nHi");
}

#[test]
fn saturated_end_renders_as_max() {
    let subtitles = vec![Subtitle {
        start: Timestamp::max_value(),
        duration: Duration::from_millis(10),
        text: String::from("late"),
    }];
    let rendered = kiss_srt::to_string(&subtitles);
    assert_eq!(rendered, "1\n99:59:59,999 --> 99:59:59,999\nlate\n");
    let reparsed = kiss_srt::from_str(&rendered).unwrap();
    assert_eq!(reparsed[0].duration, Duration::default());
    assert_eq!(kiss_srt::to_string(&reparsed), rendered);
}

#[test]
fn round_trip_of_valid_records() {
    let subtitles = vec![
        Subtitle {
            start: Timestamp::from_millis(1),
            duration: Duration::from_millis(2),
            text: String::from("a\nb"),
        },
        Subtitle {
            start: Timestamp::from_millis(100),
            duration: Duration::from_millis(0),
            text: String::new(),
        },
        Subtitle {
            start: Timestamp::from_millis(99),
            duration: Duration::from_millis(7),
            text: String::from("12\n00:00:00,000 --> 00:00:01,000"),
        },
    ];
    let rendered = kiss_srt::to_string(&subtitles);
    assert_eq!(kiss_srt::from_str(&rendered).unwrap(), subtitles);
}
