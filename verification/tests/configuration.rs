use logger::config::{parse_decimal, Config};

fn s(v: &str) -> Option<String> {
    Some(v.to_string())
}

#[test]
fn all_defaults_when_nothing_configured() {
    let c = Config::new(None, None, None, None);
    assert_eq!(c.ip, "127.0.0.1");
    assert_eq!(c.port, 12345);
    assert_eq!(c.threads, 3);
    assert_eq!(c.db_path, "./db.sqlite");
}

#[test]
fn configured_values_are_taken() {
    let c = Config::new(s("0.0.0.0"), s("8125"), s("8"), s("/var/lib/telemetry.db"));
    assert_eq!(c.ip, "0.0.0.0");
    assert_eq!(c.port, 8125);
    assert_eq!(c.threads, 8);
    assert_eq!(c.db_path, "/var/lib/telemetry.db");
}

#[test]
fn unparseable_numbers_fall_back_to_defaults() {
    let c = Config::new(None, s("eighty"), s("-1"), None);
    assert_eq!(c.port, 12345);
    assert_eq!(c.threads, 3);
}

#[test]
fn out_of_range_numbers_fall_back_to_defaults() {
    let c = Config::new(None, s("65536"), s("256"), None);
    assert_eq!(c.port, 12345);
    assert_eq!(c.threads, 3);
}

#[test]
fn bounds_are_inclusive() {
    let c = Config::new(None, s("65535"), s("255"), None);
    assert_eq!(c.port, 65535);
    assert_eq!(c.threads, 255);
}

#[test]
fn empty_option_text_is_unparseable() {
    let c = Config::new(None, s(""), s(""), None);
    assert_eq!(c.port, 12345);
    assert_eq!(c.threads, 3);
}

#[test]
fn parse_decimal_exact_values() {
    assert_eq!(parse_decimal("0", 65535), Some(0));
    assert_eq!(parse_decimal("12345", 65535), Some(12345));
    assert_eq!(parse_decimal("00042", 65535), Some(42));
    assert_eq!(parse_decimal("65536", 65535), None);
    assert_eq!(parse_decimal("999999999999999999999", 65535), None);
    assert_eq!(parse_decimal("12 ", 65535), None);
    assert_eq!(parse_decimal("+12", 65535), None);
    assert_eq!(parse_decimal("", 65535), None);
}
