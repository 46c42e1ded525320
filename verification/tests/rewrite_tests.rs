use timefix::date_parse::convert_located;
use timefix::date_parse::extract_instant;
use timefix::date_parse::is_placed;
use timefix::date_parse::parse_field;
use timefix::date_parse::rewrite_line;
use timefix::date_parse::span_inside;
use timefix::date_parse::FixError;
use timefix::date_parse::GroupSpans;
use timefix::date_parse::Located;
use timefix::date_parse::Span;
use timefix::text::append_range;

fn span(start: usize, end: usize) -> Span {
    Span { start, end }
}

/// The spans of a timestamp in the usual layout that starts at `at`, with a
/// suffix of `suffix` bytes.
fn iso_at(at: usize, suffix: Option<usize>) -> GroupSpans {
    GroupSpans {
        whole: span(at, at + 19 + suffix.unwrap_or(0)),
        year: span(at, at + 4),
        month: span(at + 5, at + 7),
        day: span(at + 8, at + 10),
        hour: span(at + 11, at + 13),
        minute: span(at + 14, at + 16),
        second: span(at + 17, at + 19),
        suffix: suffix.map(|n| span(at + 19, at + 19 + n)),
    }
}

#[test]
fn fields_are_digit_runs_of_their_width() {
    let line = b"ab2024-01x";
    assert_eq!(parse_field(line, span(2, 6), 4), Some(2024));
    assert_eq!(parse_field(line, span(7, 9), 2), Some(1));
    assert_eq!(parse_field(line, span(2, 6), 3), None);
    assert_eq!(parse_field(line, span(2, 5), 4), None);
    assert_eq!(parse_field(line, span(1, 5), 4), None);
    assert_eq!(parse_field(line, span(6, 8), 2), None);
    assert_eq!(parse_field(line, span(8, 10), 2), None);
    assert_eq!(parse_field(line, span(8, 11), 3), None);
    assert_eq!(parse_field(line, span(6, 2), 4), None);
    assert_eq!(parse_field(line, span(3, 3), 0), Some(0));
    assert_eq!(parse_field(b"999999999", span(0, 9), 9), Some(999_999_999));
    assert_eq!(parse_field(b"0000000001", span(0, 10), 10), None);
}

#[test]
fn spans_lie_inside_spans() {
    assert!(span_inside(span(2, 4), span(2, 4)));
    assert!(span_inside(span(3, 3), span(2, 4)));
    assert!(!span_inside(span(1, 3), span(2, 4)));
    assert!(!span_inside(span(3, 5), span(2, 4)));
    assert!(!span_inside(span(4, 3), span(2, 4)));
}

#[test]
fn placement_is_checked() {
    let line = "\u{e9} 2024-01-29T23:21:38Z";
    assert!(is_placed(line, 0, &iso_at(3, Some(1))));
    assert!(is_placed(line, 3, &iso_at(3, None)));
    assert!(!is_placed(line, 4, &iso_at(3, Some(1))));
    assert!(!is_placed(line, 0, &iso_at(3, Some(2))));
    let mut g = iso_at(3, Some(1));
    g.whole = span(1, 23);
    assert!(!is_placed(line, 0, &g));
    let mut g = iso_at(3, Some(1));
    g.year = span(2, 6);
    assert!(!is_placed(line, 0, &g));
    let mut g = iso_at(3, Some(1));
    g.suffix = Some(span(22, 24));
    assert!(!is_placed(line, 0, &g));
    let mut g = iso_at(2, None);
    g.whole = span(0, 23);
    g.suffix = Some(span(1, 2));
    assert!(!is_placed(line, 0, &g));
}

#[test]
fn instant_is_extracted_from_the_line() {
    let line = "x 2024-01-29T23:21:38Z";
    let utc = extract_instant(line, 0, &iso_at(2, Some(1))).unwrap();
    assert_eq!((utc.year(), utc.month(), utc.day()), (2024, 1, 29));
    assert_eq!((utc.hour(), utc.minute(), utc.second()), (23, 21, 38));
    assert_eq!(extract_instant(line, 3, &iso_at(2, Some(1))).err(), Some(FixError::MatcherMismatch));
    assert_eq!(extract_instant(line, 0, &iso_at(1, Some(1))).err(), Some(FixError::MatcherMismatch));
    assert_eq!(
        extract_instant("x 2024-02-30T10:00:00Z", 0, &iso_at(2, Some(1))).err(),
        Some(FixError::InvalidInstant { at: 2 })
    );
}

#[test]
fn located_match_is_converted() {
    let line = "2024-01-27T04:15:46.280000Z";
    let m = Located { spans: iso_at(0, Some(7)), offset: -28_800 };
    let local = convert_located(line, 0, &m).unwrap();
    assert_eq!((local.year(), local.month(), local.day()), (2024, 1, 26));
    assert_eq!((local.hour(), local.minute(), local.second()), (20, 15, 46));
    let far = Located { spans: iso_at(0, Some(7)), offset: 86_400 };
    assert_eq!(convert_located(line, 0, &far).err(), Some(FixError::OffsetOutOfRange { at: 0 }));
    let far = Located { spans: iso_at(0, Some(7)), offset: -86_400 };
    assert_eq!(convert_located(line, 0, &far).err(), Some(FixError::OffsetOutOfRange { at: 0 }));
    assert_eq!(convert_located(line, 1, &m).err(), Some(FixError::MatcherMismatch));
}

#[test]
fn line_is_rewritten_from_located_matches() {
    let line = "2024-01-27T04:15:46.280000Z";
    let matches = vec![Located { spans: iso_at(0, Some(7)), offset: -28_800 }];
    assert_eq!(rewrite_line(line, &matches).unwrap(), "2024-01-26T20:15:46.280000Z");
    assert_eq!(rewrite_line(line, &Vec::new()).unwrap(), line);

    let line = "start=2024-01-29T23:00:00Z end=2024-01-29T23:30:00Z";
    let matches = vec![
        Located { spans: iso_at(6, Some(1)), offset: -28_800 },
        Located { spans: iso_at(31, Some(1)), offset: 3_600 },
    ];
    assert_eq!(
        rewrite_line(line, &matches).unwrap(),
        "start=2024-01-29T15:00:00Z end=2024-01-30T00:30:00Z"
    );
    let only_second = vec![matches[1]];
    assert_eq!(
        rewrite_line(line, &only_second).unwrap(),
        "start=2024-01-29T23:00:00Z end=2024-01-30T00:30:00Z"
    );
}

#[test]
fn match_is_replaced_as_a_whole() {
    let line = "<23h 2024y 01m 29d 21min 38s!>";
    let spans = GroupSpans {
        whole: span(1, 29),
        year: span(5, 9),
        month: span(11, 13),
        day: span(15, 17),
        hour: span(1, 3),
        minute: span(19, 21),
        second: span(25, 27),
        suffix: Some(span(28, 29)),
    };
    let matches = vec![Located { spans, offset: 0 }];
    assert_eq!(rewrite_line(line, &matches).unwrap(), "<2024-01-29T23:21:38!>");
}

#[test]
fn rewriting_names_the_first_refusal() {
    let line = "a 2024-01-29T23:00:00Z b 2024-02-30T23:30:00Z c";
    let first = Located { spans: iso_at(2, Some(1)), offset: 0 };
    let second = Located { spans: iso_at(25, Some(1)), offset: 0 };
    assert_eq!(rewrite_line(line, &vec![first, second]), Err(FixError::InvalidInstant { at: 25 }));
    assert_eq!(rewrite_line(line, &vec![second, first]), Err(FixError::InvalidInstant { at: 25 }));
    assert_eq!(rewrite_line(line, &vec![first, first]), Err(FixError::MatcherMismatch));
    let late = Located { spans: iso_at(2, Some(1)), offset: 90_000 };
    assert_eq!(rewrite_line(line, &vec![late, second]), Err(FixError::OffsetOutOfRange { at: 2 }));
    let beyond = Located { spans: iso_at(40, Some(1)), offset: 0 };
    assert_eq!(rewrite_line(line, &vec![first, beyond]), Err(FixError::MatcherMismatch));
    assert_eq!(rewrite_line(line, &vec![first]).unwrap(), line);
}

#[test]
fn ranges_are_copied() {
    let mut out = vec![1u8];
    append_range(&mut out, b"abcdef", 2, 5);
    append_range(&mut out, b"abcdef", 3, 3);
    append_range(&mut out, b"abcdef", 0, 6);
    assert_eq!(out, b"\x01cdeabcdef".to_vec());
}
