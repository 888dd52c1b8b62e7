use std::time::Duration;

use mpd_client::{Lrc, LrcError, LrcLine, LrcReader};

#[test]
fn lrc() {
    let input = r"[ti: asdf ]
[ar:123]
[al:333]
[au:444]
[length: 2:23]
[offset: +0]

[00:01.86]line with dot before hundredths
[00:04.73]line with colon before hundredths
[00:11.24]
[11:16.91]line with long time";

    let result: Lrc = input.parse().unwrap();

    assert_eq!(
        result,
        Lrc {
            title: Some("asdf".to_string()),
            artist: Some("123".to_string()),
            album: Some("333".to_string()),
            author: Some("444".to_string()),
            length: Some(Duration::from_secs(143)),
            lines: vec![
                LrcLine {
                    time: Duration::from_millis(1860),
                    content: "line with dot before hundredths".to_string()
                },
                LrcLine {
                    time: Duration::from_millis(4730),
                    content: "line with colon before hundredths".to_string()
                },
                LrcLine {
                    time: Duration::from_millis(11240),
                    content: String::new()
                },
                LrcLine {
                    time: Duration::from_millis(676_910),
                    content: "line with long time".to_string()
                },
            ],
        }
    );
}

#[test]
fn lrc_offset_earlier() {
    let input = r"
[offset: +1000]

[00:01.86]line1
[00:04.73]line2
";

    let result: Lrc = input.parse().unwrap();

    assert_eq!(
        result,
        Lrc {
            title: None,
            artist: None,
            album: None,
            author: None,
            length: None,
            lines: vec![
                LrcLine {
                    time: Duration::from_millis(860),
                    content: "line1".to_string()
                },
                LrcLine {
                    time: Duration::from_millis(3730),
                    content: "line2".to_string()
                },
            ],
        }
    );
}

#[test]
fn lrc_offset_later() {
    let input = r"
[offset: -1000]

[00:01.86]line1
[00:04.73]line2
";

    let result: Lrc = input.parse().unwrap();

    assert_eq!(
        result,
        Lrc {
            title: None,
            artist: None,
            album: None,
            author: None,
            length: None,
            lines: vec![
                LrcLine {
                    time: Duration::from_millis(2860),
                    content: "line1".to_string()
                },
                LrcLine {
                    time: Duration::from_millis(5730),
                    content: "line2".to_string()
                },
            ],
        }
    );
}

fn times(input: &str) -> Vec<Duration> {
    Lrc::parse(input)
        .unwrap()
        .lines
        .into_iter()
        .map(|line| line.time)
        .collect()
}

#[test]
fn lrc_colon_before_hundredths() {
    assert_eq!(times("[01:02:03]x"), vec![Duration::from_millis(62_030)]);
}

#[test]
fn lrc_offset_stops_at_zero() {
    assert_eq!(
        times("[offset: 5000]\n[00:01.00]x"),
        vec![Duration::from_millis(0)]
    );
}

#[test]
fn lrc_offset_applies_to_the_lines_after_it() {
    assert_eq!(
        times("[00:02.00]a\n[offset: -500]\n[00:02.00]b"),
        vec![Duration::from_millis(2000), Duration::from_millis(2500)]
    );
}

#[test]
fn lrc_lines_may_end_with_carriage_return_and_line_feed() {
    let result = Lrc::parse("[ti:a]\r\n[00:01.00]one\r\n").unwrap();

    assert_eq!(result.title, Some("a".to_owned()));
    assert_eq!(
        result.lines,
        vec![LrcLine {
            time: Duration::from_millis(1000),
            content: "one".to_owned()
        }]
    );
}

#[test]
fn lrc_skips_comments_and_unknown_keys() {
    let result = Lrc::parse("# a comment\n[by: someone]\n[00:00.01]x").unwrap();

    assert_eq!(result.lines.len(), 1);
    assert_eq!(result.title, None);
}

#[test]
fn lrc_empty_text_is_an_empty_file() {
    assert_eq!(
        Lrc::parse(""),
        Ok(Lrc {
            lines: Vec::new(),
            title: None,
            artist: None,
            album: None,
            author: None,
            length: None,
        })
    );
}

#[test]
fn lrc_refuses_a_line_without_a_tag() {
    assert_eq!(
        Lrc::parse("no tag"),
        Err(LrcError::Line("no tag".to_owned()))
    );
    assert_eq!(Lrc::parse("   "), Err(LrcError::Line("   ".to_owned())));
    assert_eq!(
        Lrc::parse("[00:01.00 unclosed"),
        Err(LrcError::Line("[00:01.00 unclosed".to_owned()))
    );
}

#[test]
fn lrc_refuses_an_empty_tag() {
    assert_eq!(Lrc::parse("[]text"), Err(LrcError::Timestamp(String::new())));
}

#[test]
fn lrc_refuses_a_time_stamp_without_minutes() {
    assert_eq!(Lrc::parse("[12]x"), Err(LrcError::Minutes("12".to_owned())));
}

#[test]
fn lrc_refuses_a_time_stamp_without_hundredths() {
    assert_eq!(
        Lrc::parse("[00:12]x"),
        Err(LrcError::Seconds("12".to_owned()))
    );
}

#[test]
fn lrc_refuses_what_is_no_number() {
    assert_eq!(
        Lrc::parse("[0a:01.00]x"),
        Err(LrcError::Number("0a".to_owned()))
    );
    assert_eq!(
        Lrc::parse("[00:01.-5]x"),
        Err(LrcError::Number("-5".to_owned()))
    );
    assert_eq!(
        Lrc::parse("[offset: soon]"),
        Err(LrcError::Number("soon".to_owned()))
    );
    assert_eq!(
        Lrc::parse("[99999999999999999999:01.00]x"),
        Err(LrcError::Number("99999999999999999999".to_owned()))
    );
}

#[test]
fn lrc_refuses_a_time_stamp_beyond_the_range() {
    assert_eq!(
        Lrc::parse("[18446744073709551615:00.00]x"),
        Err(LrcError::Number("18446744073709551615:00.00".to_owned()))
    );
}

#[test]
fn lrc_refuses_metadata_without_a_colon() {
    assert_eq!(
        Lrc::parse("[title]"),
        Err(LrcError::Metadata("title".to_owned()))
    );
}

#[test]
fn lrc_refuses_a_length_without_a_colon() {
    assert_eq!(
        Lrc::parse("[length: 143]"),
        Err(LrcError::Length("143".to_owned()))
    );
}

#[test]
fn lrc_reads_the_largest_negative_offset() {
    assert_eq!(
        times("[offset: -9223372036854775808]\n[00:00.01]x"),
        vec![Duration::from_millis(9_223_372_036_854_775_818)]
    );
}

fn chars(s: &str) -> Vec<char> {
    s.chars().collect()
}

#[test]
fn lrc_reader_takes_a_tag_as_the_flag_says() {
    let mut reader = LrcReader::new();

    assert_eq!(reader.tag(&chars("00:01.00"), &chars("sung"), true), Ok(()));
    assert_eq!(reader.lines, vec![(1000, "sung".to_owned())]);

    assert_eq!(reader.tag(&chars("00:02.00"), &chars("kept out"), false), Ok(()));
    assert_eq!(reader.lines.len(), 1);

    assert_eq!(reader.tag(&chars("ti: a"), &chars(""), false), Ok(()));
    assert_eq!(reader.title, Some("a".to_owned()));

    assert_eq!(
        reader.tag(&chars("ti: a"), &chars(""), true),
        Err(LrcError::Seconds(" a".to_owned()))
    );
    assert_eq!(reader.lines.len(), 1);
}

#[test]
fn lrc_reader_gives_the_file_that_it_read() {
    let mut reader = LrcReader::new();
    assert_eq!(reader.line(&chars("[length: 1:01]")), Ok(()));
    assert_eq!(reader.line(&chars("[offset: -10]")), Ok(()));
    assert_eq!(reader.line(&chars("[00:00.05]la")), Ok(()));
    assert_eq!(reader.line(&chars("la")), Err(LrcError::Line("la".to_owned())));
    assert_eq!(reader.offset, Some(-10));
    assert_eq!(reader.length, Some(61));

    assert_eq!(
        reader.finish(),
        Lrc {
            lines: vec![LrcLine {
                time: Duration::from_millis(60),
                content: "la".to_owned()
            }],
            title: None,
            artist: None,
            album: None,
            author: None,
            length: Some(Duration::from_secs(61)),
        }
    );
}
