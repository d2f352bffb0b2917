use filesize::decimal::Decimal;
use filesize::format::{filesize, FormatResult};
use filesize::options::{Config, LocaleChoice};

fn cfg() -> Config {
    Config::default()
}

fn text(r: FormatResult) -> String {
    match r {
        FormatResult::Text(s) => s,
        other => panic!("expected a text result, got {:?}", other),
    }
}

#[test]
fn zero_bytes() {
    assert_eq!(text(filesize(0, cfg())), "0 B");
}

#[test]
fn small_byte_count() {
    assert_eq!(text(filesize(500, cfg())), "500 B");
}

#[test]
fn bits_with_carry() {
    let mut c = cfg();
    c.bits = Some(true);
    assert_eq!(text(filesize(500, c)), "3.91 Kb");
}

#[test]
fn forced_exponent() {
    let mut c = cfg();
    c.exponent = Some(2);
    assert_eq!(text(filesize(500000000, c)), "476.84 MB");
}

#[test]
fn decimal_base() {
    let mut c = cfg();
    c.base = Some(10);
    assert_eq!(text(filesize(5000, c)), "5 kB");
}

#[test]
fn iec_standard() {
    let mut c = cfg();
    c.standard = Some("iec".to_owned());
    assert_eq!(text(filesize(5000, c)), "4.88 KiB");
}

#[test]
fn unix_tier_zero_collapses_to_bare_number() {
    let mut c = cfg();
    c.unix = Some(true);
    assert_eq!(text(filesize(500, c)), "500");
}

#[test]
fn negative_value_keeps_suffix() {
    assert_eq!(text(filesize(-500, cfg())), "-500 B");
}

#[test]
fn one_kibibyte_under_jedec() {
    assert_eq!(text(filesize(1024, cfg())), "1 KB");
}

#[test]
fn negative_binary_value() {
    assert_eq!(text(filesize(-1024, cfg())), "-1 KB");
}

#[test]
fn exponent_output_auto() {
    let mut c = cfg();
    c.output = Some("exponent".to_owned());
    assert_eq!(filesize(500, c), FormatResult::Exponent(0));
}

#[test]
fn exponent_output_large_value() {
    let mut c = cfg();
    c.output = Some("exponent".to_owned());
    assert_eq!(filesize(i64::MAX, c), FormatResult::Exponent(6));
}

#[test]
fn exponent_output_forced() {
    let mut c = cfg();
    c.output = Some("exponent".to_owned());
    c.exponent = Some(5);
    assert_eq!(filesize(12, c), FormatResult::Exponent(5));
}

#[test]
fn exponent_option_clamps_to_eight() {
    let mut c = cfg();
    c.exponent = Some(99);
    assert_eq!(text(filesize(1, c)), "0 YB");
}

#[test]
fn array_output() {
    let mut c = cfg();
    c.exponent = Some(2);
    c.output = Some("array".to_owned());
    match filesize(500000000, c) {
        FormatResult::Array(d, s) => {
            assert_eq!(d, Decimal { neg: false, units: 476, frac: vec![8, 4] });
            assert_eq!(s, "MB");
        },
        other => panic!("expected an array result, got {:?}", other),
    }
}

#[test]
fn object_output() {
    let mut c = cfg();
    c.bits = Some(true);
    c.output = Some("object".to_owned());
    match filesize(500, c) {
        FormatResult::Object { value, symbol } => {
            assert_eq!(value, Decimal { neg: false, units: 3, frac: vec![9, 1] });
            assert_eq!(symbol, "Kb");
        },
        other => panic!("expected an object result, got {:?}", other),
    }
}

#[test]
fn unrecognized_output_falls_back_to_text() {
    let mut c = cfg();
    c.output = Some("weird".to_owned());
    assert_eq!(text(filesize(500, c)), "500 B");
}

#[test]
fn fullform_zero_is_plural() {
    let mut c = cfg();
    c.fullform = Some(true);
    assert_eq!(text(filesize(0, c)), "0 bytes");
}

#[test]
fn fullform_one_is_singular() {
    let mut c = cfg();
    c.fullform = Some(true);
    assert_eq!(text(filesize(1, c)), "1 byte");
}

#[test]
fn fullform_kilobytes() {
    let mut c = cfg();
    c.fullform = Some(true);
    assert_eq!(text(filesize(2048, c)), "2 kilobytes");
}

#[test]
fn fullform_iec_fraction() {
    let mut c = cfg();
    c.fullform = Some(true);
    c.standard = Some("iec".to_owned());
    assert_eq!(text(filesize(1536, c)), "1.5 kibibytes");
}

#[test]
fn fullform_override_by_tier() {
    let mut c = cfg();
    c.fullform = Some(true);
    c.fullforms = vec!["bulk".to_owned(), "heap".to_owned()];
    assert_eq!(text(filesize(2048, c)), "2 heap");
}

#[test]
fn symbols_override() {
    let mut c = cfg();
    c.symbols = vec![("B".to_owned(), "octets".to_owned())];
    assert_eq!(text(filesize(500, c)), "500 octets");
}

#[test]
fn separator_replaces_point() {
    let mut c = cfg();
    c.separator = Some(",".to_owned());
    assert_eq!(text(filesize(1536, c)), "1,5 KB");
}

#[test]
fn separator_without_fraction_is_inert() {
    let mut c = cfg();
    c.separator = Some(",".to_owned());
    assert_eq!(text(filesize(500, c)), "500 B");
}

#[test]
fn locale_groups_digits() {
    let mut c = cfg();
    c.locale = LocaleChoice::On;
    c.exponent = Some(0);
    assert_eq!(text(filesize(123456789, c)), "123,456,789 B");
}

#[test]
fn named_locale_uses_default_conventions() {
    let mut c = cfg();
    c.locale = LocaleChoice::Named("de-DE".to_owned());
    c.exponent = Some(0);
    assert_eq!(text(filesize(1234, c)), "1,234 B");
}

#[test]
fn unix_jedec_keeps_first_character() {
    let mut c = cfg();
    c.unix = Some(true);
    assert_eq!(text(filesize(2048, c)), "2K");
}

#[test]
fn unix_iec_drops_byte_marker() {
    let mut c = cfg();
    c.unix = Some(true);
    c.standard = Some("iec".to_owned());
    assert_eq!(text(filesize(2048, c)), "2Ki");
}

#[test]
fn unix_iec_tier_zero_clears() {
    let mut c = cfg();
    c.unix = Some(true);
    c.standard = Some("iec".to_owned());
    assert_eq!(text(filesize(500, c)), "500");
}

#[test]
fn unix_bits_round_default_one() {
    let mut c = cfg();
    c.unix = Some(true);
    c.bits = Some(true);
    assert_eq!(text(filesize(500, c)), "3.9K");
}

#[test]
fn decimal_base_bits_tier_one() {
    let mut c = cfg();
    c.base = Some(10);
    c.bits = Some(true);
    assert_eq!(text(filesize(5000, c)), "40 kb");
}

#[test]
fn round_zero() {
    let mut c = cfg();
    c.round = Some(0);
    assert_eq!(text(filesize(5000, c)), "5 KB");
}

#[test]
fn round_five() {
    let mut c = cfg();
    c.round = Some(5);
    assert_eq!(text(filesize(5000, c)), "4.88281 KB");
}

#[test]
fn base_zero_treated_as_two() {
    let mut c = cfg();
    c.base = Some(0);
    assert_eq!(text(filesize(1024, c)), "1 KB");
}

#[test]
fn zero_with_forced_exponent_keeps_symbol() {
    let mut c = cfg();
    c.exponent = Some(2);
    assert_eq!(text(filesize(0, c)), "0 MB");
}

#[test]
fn minimum_value() {
    assert_eq!(text(filesize(i64::MIN, cfg())), "-8 EB");
}

#[test]
fn custom_spacer() {
    let mut c = cfg();
    c.spacer = Some("_".to_owned());
    assert_eq!(text(filesize(500, c)), "500_B");
}

#[test]
fn array_round_trip_within_tolerance() {
    let mut c = cfg();
    c.exponent = Some(2);
    c.output = Some("array".to_owned());
    match filesize(500000000, c) {
        FormatResult::Array(d, _) => {
            let mut shown = d.units as f64;
            let mut scale = 0.1f64;
            for digit in &d.frac {
                shown += (*digit as f64) * scale;
                scale /= 10.0;
            }
            let rescaled = shown * 1024.0 * 1024.0;
            let half_ulp = 0.005 * 1024.0 * 1024.0;
            assert!((rescaled - 500000000.0).abs() <= half_ulp);
        },
        other => panic!("expected an array result, got {:?}", other),
    }
}

#[test]
fn override_applies_to_cleared_unix_suffix() {
    let mut c = cfg();
    c.unix = Some(true);
    c.symbols = vec![("".to_owned(), "!".to_owned())];
    assert_eq!(text(filesize(500, c)), "500!");
}

#[test]
fn unix_iec_bits_suffix_is_kept() {
    let mut c = cfg();
    c.unix = Some(true);
    c.bits = Some(true);
    c.standard = Some("iec".to_owned());
    assert_eq!(text(filesize(2048, c)), "16Kib");
}
