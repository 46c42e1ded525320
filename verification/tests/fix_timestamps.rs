use chrono_tz::US::Pacific;
use timefix::date_parse::fix_timestamp_in_line;
use timefix::date_parse::get_iso_date_regex;
use timefix::date_parse::locate_timestamps;
use timefix::date_parse::parse_regex_match;
use timefix::date_parse::read_match;
use timefix::date_parse::rewrite_line;
use timefix::date_parse::FixError;
use timefix::date_parse::DAY_GROUP;
use timefix::date_parse::HOUR_GROUP;
use timefix::date_parse::ISO_DATE_PATTERN;
use timefix::date_parse::MINUTE_GROUP;
use timefix::date_parse::MONTH_GROUP;
use timefix::date_parse::SECOND_GROUP;
use timefix::date_parse::SUFFIX_GROUP;
use timefix::date_parse::YEAR_GROUP;
use timefix::date_parse::Parsed;
use timefix::date_parse::Span;

#[test]
fn test_fix_timestamp() {
    let date_regex = get_iso_date_regex().unwrap();
    let line = "2024-01-27T04:15:46.280000Z";
    let fixed_line = fix_timestamp_in_line(line, &date_regex, &Pacific).unwrap();
    assert_eq!(fixed_line, "2024-01-26T20:15:46.280000Z");
}

#[test]
fn test_fix_timestamp_millis() {
    let date_regex = get_iso_date_regex().unwrap();
    let line = "2024-01-29T23:21:38Z";
    let fixed_line = fix_timestamp_in_line(line, &date_regex, &Pacific).unwrap();
    assert_eq!(fixed_line, "2024-01-29T15:21:38Z");
}

#[test]
fn test_rest_of_line_is_unaffected() {
    let date_regex = get_iso_date_regex().unwrap();
    let line = "hello 2024-01-29T23:21:38Z world";
    let fixed_line = fix_timestamp_in_line(line, &date_regex, &Pacific).unwrap();
    assert_eq!(fixed_line, "hello 2024-01-29T15:21:38Z world");
}

#[test]
fn separator_form_without_zone_marker() {
    let date_regex = get_iso_date_regex().unwrap();
    let fixed = fix_timestamp_in_line("2024-01-29T23:21:38.123456", &date_regex, &Pacific).unwrap();
    assert_eq!(fixed, "2024-01-29T15:21:38.123456");
}

#[test]
fn two_timestamps_are_shifted_independently() {
    let date_regex = get_iso_date_regex().unwrap();
    let line = "start=2024-01-29T23:00:00Z end=2024-01-29T23:30:00Z";
    let fixed = fix_timestamp_in_line(line, &date_regex, &Pacific).unwrap();
    assert_eq!(fixed, "start=2024-01-29T15:00:00Z end=2024-01-29T15:30:00Z");
}

#[test]
fn every_timestamp_of_a_line_is_rewritten() {
    let date_regex = get_iso_date_regex().unwrap();
    let zone = chrono::FixedOffset::east_opt(3600).unwrap();
    let line = "a 2024-01-01T00:00:00 b 2024-06-30T23:59:59Z c 1999-12-31T23:00:00.5 d";
    let fixed = fix_timestamp_in_line(line, &date_regex, &zone).unwrap();
    assert_eq!(fixed, "a 2024-01-01T01:00:00 b 2024-07-01T00:59:59Z c 2000-01-01T00:00:00.5 d");
}

#[test]
fn line_without_timestamp_passes_through() {
    let date_regex = get_iso_date_regex().unwrap();
    for line in ["", "plain text", "2024-01-29 23:21:38", "24-01-29T23:21:38Z", "na\u{ef}ve \u{2603} caf\u{e9}"] {
        let fixed = fix_timestamp_in_line(line, &date_regex, &Pacific).unwrap();
        assert_eq!(fixed, line);
        let found = locate_timestamps(line, &date_regex, &Pacific).unwrap();
        assert!(found.is_empty());
    }
}

#[test]
fn text_around_matches_is_kept_byte_for_byte() {
    let date_regex = get_iso_date_regex().unwrap();
    let line = "\u{2603}\u{e9} [2024-01-29T23:21:38Z] \u{1f600}\tend ";
    let fixed = fix_timestamp_in_line(line, &date_regex, &Pacific).unwrap();
    assert_eq!(fixed, "\u{2603}\u{e9} [2024-01-29T15:21:38Z] \u{1f600}\tend ");
}

#[test]
fn suffix_is_kept_as_it_is() {
    let date_regex = get_iso_date_regex().unwrap();
    let zone = chrono::FixedOffset::west_opt(8 * 3600).unwrap();
    let cases = [
        ("2024-01-29T23:21:38Z", "2024-01-29T15:21:38Z"),
        ("2024-01-29T23:21:38.9", "2024-01-29T15:21:38.9"),
        ("2024-01-29T23:21:38.000000001Z", "2024-01-29T15:21:38.000000001Z"),
        ("2024-01-29T23:21:38:123", "2024-01-29T15:21:38:123"),
        ("2024-01-29T23:21:38:1234567", "2024-01-29T15:21:38:1234567"),
        ("2024-01-29T23:21:38", "2024-01-29T15:21:38"),
        ("2024-01-29T23:21:38+00:00", "2024-01-29T15:21:38+00:00"),
    ];
    for (line, expected) in cases {
        assert_eq!(fix_timestamp_in_line(line, &date_regex, &zone).unwrap(), expected);
    }
}

#[test]
fn offset_zero_leaves_the_line_unchanged() {
    let date_regex = get_iso_date_regex().unwrap();
    let line = "x 2024-02-29T23:59:59.25Z y 0000-01-01T00:00:00 z 9999-12-31T23:59:59Z";
    assert_eq!(fix_timestamp_in_line(line, &date_regex, &chrono::Utc).unwrap(), line);
    let zero = chrono::FixedOffset::east_opt(0).unwrap();
    assert_eq!(fix_timestamp_in_line(line, &date_regex, &zero).unwrap(), line);
}

#[test]
fn impossible_date_is_rejected() {
    let date_regex = get_iso_date_regex().unwrap();
    let r = fix_timestamp_in_line("2024-02-30T10:00:00Z", &date_regex, &Pacific);
    assert_eq!(r, Err(FixError::InvalidInstant { at: 0 }));
    let r = fix_timestamp_in_line("ok 2024-01-01T00:00:00Z bad 2023-02-29T10:00:00Z", &date_regex, &Pacific);
    assert_eq!(r, Err(FixError::InvalidInstant { at: 28 }));
    for line in [
        "2024-13-01T00:00:00Z",
        "2024-00-10T00:00:00Z",
        "2024-04-31T00:00:00Z",
        "2024-01-00T00:00:00Z",
        "2024-01-01T24:00:00Z",
        "2024-01-01T00:60:00Z",
        "2024-01-01T00:00:60Z",
        "1900-02-29T00:00:00Z",
    ] {
        assert_eq!(
            fix_timestamp_in_line(line, &date_regex, &Pacific),
            Err(FixError::InvalidInstant { at: 0 })
        );
    }
    assert_eq!(
        fix_timestamp_in_line("2000-02-29T00:00:00Z", &date_regex, &chrono::Utc).unwrap(),
        "2000-02-29T00:00:00Z"
    );
}

#[test]
fn zone_with_daylight_saving_uses_the_offset_of_the_instant() {
    let date_regex = get_iso_date_regex().unwrap();
    let line = "w 2024-01-15T12:00:00Z s 2024-07-15T12:00:00Z";
    let fixed = fix_timestamp_in_line(line, &date_regex, &Pacific).unwrap();
    assert_eq!(fixed, "w 2024-01-15T04:00:00Z s 2024-07-15T05:00:00Z");
    let found = locate_timestamps(line, &date_regex, &Pacific).unwrap();
    assert_eq!(found.len(), 2);
    assert_eq!(found[0].offset, -8 * 3600);
    assert_eq!(found[1].offset, -7 * 3600);
    assert_eq!(found[0].spans.whole, Span { start: 2, end: 22 });
    assert_eq!(found[1].spans.whole, Span { start: 25, end: 45 });
    assert_eq!(rewrite_line(line, &found).unwrap(), fixed);
}

#[test]
fn year_outside_four_digits_is_written_with_a_sign() {
    let date_regex = get_iso_date_regex().unwrap();
    let west = chrono::FixedOffset::west_opt(8 * 3600).unwrap();
    let east = chrono::FixedOffset::east_opt(3600).unwrap();
    assert_eq!(
        fix_timestamp_in_line("0000-01-01T00:00:00Z", &date_regex, &west).unwrap(),
        "-0001-12-31T16:00:00Z"
    );
    assert_eq!(
        fix_timestamp_in_line("9999-12-31T23:30:00Z", &date_regex, &east).unwrap(),
        "+10000-01-01T00:30:00Z"
    );
}

#[test]
fn groups_are_read_by_name() {
    let date_regex = get_iso_date_regex().unwrap();
    let line = "at 2024-01-29T23:21:38.5Z";
    let caps = date_regex.captures(line).unwrap();
    let bytes = line.as_bytes();
    assert_eq!(
        parse_regex_match(&caps, bytes, "year", 4),
        Ok(Some(Parsed { span: Span { start: 3, end: 7 }, value: 2024 }))
    );
    assert_eq!(
        parse_regex_match(&caps, bytes, "second", 2),
        Ok(Some(Parsed { span: Span { start: 20, end: 22 }, value: 38 }))
    );
    assert_eq!(parse_regex_match(&caps, bytes, "weekday", 2), Ok(None));
    assert_eq!(parse_regex_match(&caps, bytes, "year", 2), Err(FixError::MatcherMismatch));
    assert_eq!(parse_regex_match(&caps, bytes, "everything_after", 2), Err(FixError::MatcherMismatch));
    let (spans, utc) = read_match(&caps, line, 0).unwrap();
    assert_eq!(spans.whole, Span { start: 3, end: 24 });
    assert_eq!(spans.suffix, Some(Span { start: 22, end: 24 }));
    assert_eq!((utc.year(), utc.month(), utc.day()), (2024, 1, 29));
    assert_eq!((utc.hour(), utc.minute(), utc.second()), (23, 21, 38));
    assert_eq!(read_match(&caps, line, 4).err(), Some(FixError::MatcherMismatch));
}

#[test]
fn pattern_that_disagrees_with_the_extractor_is_a_mismatch() {
    let loose = regex::Regex::new(
        "(?P<year>\\d{4})-(?P<month>\\d{2})-(?P<day>\\d{2})T(?P<hour>\\d{2}):(?P<minute>\\d{2}):(?P<second>\\d{2})",
    )
    .unwrap();
    let line = "\u{662}\u{660}\u{662}\u{664}-01-29T23:21:38";
    assert_eq!(fix_timestamp_in_line(line, &loose, &Pacific), Err(FixError::MatcherMismatch));
    let nameless = regex::Regex::new("[0-9]{4}-[0-9]{2}").unwrap();
    assert_eq!(fix_timestamp_in_line("2024-01", &nameless, &Pacific), Err(FixError::MatcherMismatch));
    assert_eq!(fix_timestamp_in_line("no match", &nameless, &Pacific).unwrap(), "no match");
    let empty = regex::Regex::new("").unwrap();
    assert_eq!(fix_timestamp_in_line("abc", &empty, &Pacific), Err(FixError::MatcherMismatch));
}

#[test]
fn pattern_is_compiled_from_the_constant() {
    let date_regex = get_iso_date_regex().unwrap();
    assert_eq!(date_regex.as_str(), ISO_DATE_PATTERN);
    let names: Vec<&str> = date_regex.capture_names().flatten().collect();
    assert_eq!(
        names,
        vec![YEAR_GROUP, MONTH_GROUP, DAY_GROUP, HOUR_GROUP, MINUTE_GROUP, SECOND_GROUP, SUFFIX_GROUP]
    );
}

#[test]
fn matches_are_found_from_left_to_right() {
    let date_regex = get_iso_date_regex().unwrap();
    let zone = chrono::FixedOffset::east_opt(0).unwrap();
    let line = "2024-01-01T00:00:00.2024-01-02T00:00:00 2024-01-03T00:00:00Z2024-01-04T00:00:00";
    let found = locate_timestamps(line, &date_regex, &zone).unwrap();
    let starts: Vec<usize> = found.iter().map(|m| m.spans.whole.start).collect();
    let ends: Vec<usize> = found.iter().map(|m| m.spans.whole.end).collect();
    assert_eq!(starts, vec![0, 40, 60]);
    assert_eq!(ends, vec![24, 60, 79]);
    assert_eq!(found[0].spans.suffix, Some(Span { start: 19, end: 24 }));
    assert_eq!(found[2].spans.suffix, None);
}
