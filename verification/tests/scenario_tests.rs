use filesize::format::{filesize, FormatResult};
use filesize::options::Config;
use filesize::parse::filesize_str;

fn text(r: FormatResult) -> String {
    match r {
        FormatResult::Text(s) => s,
        other => panic!("expected a text result, got {:?}", other),
    }
}

#[test]
fn no_options() {
    assert_eq!(text(filesize(500, Config::default())), "500 B");
}

#[test]
fn string_as_param() {
    assert_eq!(text(filesize_str("500", Config::default()).unwrap()), "500 B");
}

#[test]
fn base() {
    let mut c = Config::default();
    c.base = Some(10);
    assert_eq!(text(filesize(5000, c)), "5 kB");
}

#[test]
fn spacer() {
    let mut c = Config::default();
    c.spacer = Some("   ".to_owned());
    assert_eq!(text(filesize(500, c)), "500   B");
}

#[test]
fn bits() {
    let mut c = Config::default();
    c.bits = Some(true);
    assert_eq!(text(filesize(500, c)), "3.91 Kb");
}

#[test]
fn exponent() {
    let mut c = Config::default();
    c.exponent = Some(2);
    assert_eq!(text(filesize(500000000, c)), "476.84 MB");
}

#[test]
fn fullform() {
    let mut c = Config::default();
    c.fullform = Some(true);
    assert_eq!(text(filesize(500, c)), "500 bytes");
}

#[test]
fn fullforms() {
    let mut c = Config::default();
    c.fullform = Some(true);
    c.fullforms = vec!["oui".to_owned()];
    assert_eq!(text(filesize(12, c)), "12 oui");
}

#[test]
fn round() {
    let mut c = Config::default();
    c.round = Some(5);
    assert_eq!(text(filesize(50000, c)), "48.82813 KB");
}

#[test]
fn separator() {
    let mut c = Config::default();
    c.separator = Some("oui".to_owned());
    assert_eq!(text(filesize(50000, c)), "48oui83 KB");
}

#[test]
fn standard() {
    let mut c = Config::default();
    c.standard = Some("iec".to_owned());
    assert_eq!(text(filesize(5000, c)), "4.88 KiB");
}

#[test]
fn unix() {
    let mut c = Config::default();
    c.unix = Some(true);
    assert_eq!(text(filesize(500, c)), "500");
}
