use filesize::format::FormatResult;
use filesize::options::Config;
use filesize::parse::{filesize_str, parse_size, SizeError};

fn text(r: FormatResult) -> String {
    match r {
        FormatResult::Text(s) => s,
        other => panic!("expected a text result, got {:?}", other),
    }
}

#[test]
fn parse_plain_number() {
    assert_eq!(parse_size("500"), Ok(500));
}

#[test]
fn parse_signed_numbers() {
    assert_eq!(parse_size("-42"), Ok(-42));
    assert_eq!(parse_size("+7"), Ok(7));
}

#[test]
fn parse_extremes() {
    assert_eq!(parse_size("9223372036854775807"), Ok(i64::MAX));
    assert_eq!(parse_size("-9223372036854775808"), Ok(i64::MIN));
    assert_eq!(parse_size("9223372036854775808"), Err(SizeError::InvalidNumber));
}

#[test]
fn parse_rejects_garbage() {
    assert_eq!(parse_size(""), Err(SizeError::InvalidNumber));
    assert_eq!(parse_size("-"), Err(SizeError::InvalidNumber));
    assert_eq!(parse_size("12x"), Err(SizeError::InvalidNumber));
    assert_eq!(parse_size(" 5"), Err(SizeError::InvalidNumber));
}

#[test]
fn format_from_text() {
    assert_eq!(text(filesize_str("500", Config::default()).unwrap()), "500 B");
    assert_eq!(text(filesize_str("-500", Config::default()).unwrap()), "-500 B");
}

#[test]
fn format_from_bad_text() {
    assert!(filesize_str("five", Config::default()).is_err());
}
