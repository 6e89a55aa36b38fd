use series_csv::errors::ParseError;
use series_csv::{extract_fallback_name, next_field, parse_header_line, parse_timestamp};
use series_csv::{parse_value, resolve_names};

#[test]
fn tokenizer_plain_fields() {
    let (f, next) = next_field("a,bc,d", 0).unwrap();
    assert_eq!(f, "a");
    assert_eq!(next, 2);
    let (f, next) = next_field("a,bc,d", 2).unwrap();
    assert_eq!(f, "bc");
    assert_eq!(next, 5);
    let (f, next) = next_field("a,bc,d", 5).unwrap();
    assert_eq!(f, "d");
    assert_eq!(next, 7);
    assert!(matches!(next_field("a,bc,d", 7), Err(ParseError::EmptyField)));
}

#[test]
fn tokenizer_trailing_separator_yields_empty_field() {
    let (f, next) = next_field("a,", 2).unwrap();
    assert_eq!(f, "");
    assert_eq!(next, 3);
}

#[test]
fn tokenizer_empty_line_is_failure() {
    assert!(matches!(next_field("", 0), Err(ParseError::EmptyField)));
}

#[test]
fn tokenizer_strips_wrapping_quotes() {
    let (f, _) = next_field("\"abc\",1", 0).unwrap();
    assert_eq!(f, "abc");
    // a lone opening quote is not a wrapping pair
    let (f, _) = next_field("\"abc,1", 0).unwrap();
    assert_eq!(f, "\"abc");
}

#[test]
fn value_quote_stripping() {
    // quote stripping: "\"42.1\"" parses to 42.1
    let v = parse_value("\"42.1\"").unwrap();
    assert_eq!(v, "42.1");
    assert_eq!(v.parse::<f32>().unwrap(), 42.1f32);
}

#[test]
fn value_decimal_comma_truncation() {
    // "3,5" keeps only what stands before the comma
    let v = parse_value("3,5").unwrap();
    assert_eq!(v, "3");
    assert_eq!(v.parse::<f32>().unwrap(), 3.0f32);
}

#[test]
fn value_leading_comma_is_not_truncated() {
    assert!(matches!(parse_value(",5"), Err(ParseError::ValueUnparseable)));
}

#[test]
fn value_whitespace_trimmed() {
    let v = parse_value("  -1.25e2 ").unwrap();
    assert_eq!(v, "-1.25e2");
    assert_eq!(v.parse::<f32>().unwrap(), -125.0f32);
}

#[test]
fn value_special_literals_accepted() {
    assert_eq!(parse_value("inf").unwrap(), "inf");
    assert_eq!(parse_value("-Infinity").unwrap(), "-Infinity");
    let nan = parse_value("NaN").unwrap();
    assert!(nan.parse::<f32>().unwrap().is_nan());
}

#[test]
fn value_empty_field_is_distinct_failure() {
    assert!(matches!(parse_value(""), Err(ParseError::EmptyField)));
}

#[test]
fn value_garbage_fails() {
    assert!(matches!(parse_value("abc"), Err(ParseError::ValueUnparseable)));
    assert!(matches!(parse_value("\"\""), Err(ParseError::ValueUnparseable)));
    assert!(matches!(parse_value("1.2.3"), Err(ParseError::ValueUnparseable)));
    assert!(matches!(parse_value("3e"), Err(ParseError::ValueUnparseable)));
}

#[test]
fn timestamp_datetime_family_first() {
    // format fallback order: the full date-time family wins
    let ms = parse_timestamp("2021-01-05 10:00:00", "2026").unwrap();
    assert_eq!(ms, 1_609_840_800_000u64);
}

#[test]
fn timestamp_day_month_year_format() {
    let ms = parse_timestamp("05/01/2021 10:00", "2026").unwrap();
    assert_eq!(ms, 1_609_840_800_000u64);
}

#[test]
fn timestamp_time_only_uses_epoch_date() {
    // time-only falls back to the Unix epoch date
    let ms = parse_timestamp("10:00", "2026").unwrap();
    assert_eq!(ms, 36_000_000u64);
}

#[test]
fn timestamp_date_only_midnight() {
    // 2021-01-04 was a Monday; midnight implied
    let ms = parse_timestamp("Mon 04 Jan 2021", "2026").unwrap();
    assert_eq!(ms, 1_609_718_400_000u64);
}

#[test]
fn timestamp_year_appended_as_last_resort() {
    let ms = parse_timestamp("Mon 04 Jan", "2021").unwrap();
    assert_eq!(ms, 1_609_718_400_000u64);
}

#[test]
fn timestamp_trims_whitespace() {
    let ms = parse_timestamp("  2021-01-05 10:00:00  ", "2026").unwrap();
    assert_eq!(ms, 1_609_840_800_000u64);
}

#[test]
fn timestamp_before_epoch_fails_not_wraps() {
    let r = parse_timestamp("1969-12-31 23:59:59", "2026");
    match r {
        Err(ParseError::TimestampUnparseable(c)) => assert_eq!(c, "1969-12-31 23:59:59"),
        _ => panic!("a pre-epoch date must fail rather than wrap"),
    }
}

#[test]
fn timestamp_garbage_reports_trimmed_candidate() {
    let r = parse_timestamp("  not a time ", "2026");
    match r {
        Err(ParseError::TimestampUnparseable(c)) => assert_eq!(c, "not a time"),
        _ => panic!("expected a timestamp failure"),
    }
}

#[test]
fn header_splits_and_keeps_empties() {
    let mut names: Vec<String> = Vec::new();
    parse_header_line(",A,", &mut names).unwrap();
    assert_eq!(names, vec!["".to_string(), "A".to_string(), "".to_string()]);
}

#[test]
fn header_fallback_substitution() {
    // fallback substitution: ",A," with fallback "temp" resolves to ["A", "temp"]
    let mut names: Vec<String> = Vec::new();
    parse_header_line(",A,", &mut names).unwrap();
    let resolved = resolve_names(&names, "temp");
    assert_eq!(resolved, vec!["A".to_string(), "temp".to_string()]);
}

#[test]
fn header_quoted_name_resolves_stripped() {
    // quote stripping: "\"Sensor1\"" resolves to Sensor1
    let mut names: Vec<String> = Vec::new();
    parse_header_line("Time,\"Sensor1\"", &mut names).unwrap();
    let resolved = resolve_names(&names, "fb");
    assert_eq!(resolved, vec!["Sensor1".to_string()]);
}

#[test]
fn header_empty_line_is_fatal() {
    let mut names: Vec<String> = Vec::new();
    assert!(matches!(
        parse_header_line("", &mut names),
        Err(ParseError::HeaderUnparseable)
    ));
    assert!(names.is_empty());
}

#[test]
fn errors_describe_themselves() {
    assert_eq!(ParseError::EmptyField.describe(), "empty value");
    assert_eq!(
        ParseError::TimestampUnparseable("x".to_string()).describe(),
        "could not parse: timestamp"
    );
    assert_eq!(ParseError::ValueUnparseable.describe(), "could not parse: value");
    assert_eq!(ParseError::HeaderUnparseable.describe(), "could not parse: header");
}

#[test]
fn fallback_name_truncates_at_dot_or_underscore() {
    assert_eq!(extract_fallback_name("data.csv"), "data");
    assert_eq!(extract_fallback_name("temp_1.csv"), "temp");
    assert_eq!(extract_fallback_name("plain"), "plain");
    assert_eq!(extract_fallback_name(".hidden"), "");
}
