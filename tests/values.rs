use csv_detect_missing::{Comparison, Difference, Format, Instant, Value};

fn number(f: Format, s: &str) -> i64 {
    match f.parse_value(s) {
        Ok(Value::Number(n)) => n,
        other => panic!("unexpected {:?}", other),
    }
}

fn instant(f: Format, s: &str) -> Instant {
    match f.parse_value(s) {
        Ok(Value::Timestamp(t)) => t,
        other => panic!("unexpected {:?}", other),
    }
}

#[test]
fn uint_parse_then_display_keeps_digits() {
    for s in ["0", "7", "42", "1234567890", "9223372036854775807"] {
        let v = Format::UInt.parse_value(s).unwrap();
        assert_eq!(v.to_text(), s);
    }
    let v = Format::UInt.parse_value("007").unwrap();
    assert_eq!(v.to_text(), "7");
}

#[test]
fn uint_boundary() {
    assert_eq!(number(Format::UInt, "9223372036854775807"), i64::MAX);
    assert_eq!(
        Format::UInt.parse_value("9223372036854775808"),
        Err("could not be parsed: number too large (>2^63-1)".to_string())
    );
    assert_eq!(
        Format::UInt.parse_value("18446744073709551616"),
        Err("could not be parsed: number too large to fit in target type".to_string())
    );
}

#[test]
fn uint_rejects_sign_and_junk() {
    assert_eq!(
        Format::UInt.parse_value("-1"),
        Err("could not be parsed: invalid digit found in string".to_string())
    );
    assert_eq!(
        Format::UInt.parse_value(""),
        Err("could not be parsed: cannot parse integer from empty string".to_string())
    );
    assert_eq!(
        Format::UInt.parse_value("12a"),
        Err("could not be parsed: invalid digit found in string".to_string())
    );
    assert_eq!(number(Format::UInt, "+12"), 12);
}

#[test]
fn int_literals() {
    assert_eq!(number(Format::Int, "-9223372036854775808"), i64::MIN);
    assert_eq!(number(Format::Int, "  -15 "), -15);
    assert_eq!(
        Format::Int.parse_value("-9223372036854775809"),
        Err("could not be parsed: number too small to fit in target type".to_string())
    );
    assert_eq!(
        Format::Int.parse_value("-"),
        Err("could not be parsed: invalid digit found in string".to_string())
    );
    assert_eq!(Format::Int.parse_value("-42").unwrap().to_text(), "-42");
    assert_eq!(Format::Int.parse_value("-9223372036854775808").unwrap().to_text(), "-9223372036854775808");
}

#[test]
fn quoted_fields_are_unquoted() {
    assert_eq!(number(Format::Int, "\"42\""), 42);
    assert_eq!(number(Format::Int, " \"-3\" "), -3);
    assert!(Format::Int.parse_value("\"42").is_err());
}

#[test]
fn unix_seconds() {
    let t = instant(Format::Unix, "0");
    assert_eq!(t, Instant { secs: 0, nanos: 0, offset: 0 });
    assert_eq!(Value::Timestamp(t).to_text(), "1970-01-01T00:00:00Z");
    let t = instant(Format::Unix, "1700000000");
    assert_eq!(Value::Timestamp(t).to_text(), "2023-11-14T22:13:20Z");
}

#[test]
fn unix_seconds_range() {
    assert_eq!(instant(Format::Unix, "8210266876799").secs, 8_210_266_876_799);
    assert_eq!(instant(Format::Unix, "-8334601228800").secs, -8_334_601_228_800);
    assert_eq!(
        Format::Unix.parse_value("8210266876800"),
        Err("could not be parsed: invalid timestamp".to_string())
    );
    assert_eq!(
        Format::Unix.parse_value("-8334601228801"),
        Err("could not be parsed: invalid timestamp".to_string())
    );
}

#[test]
fn unix_milliseconds() {
    let t = instant(Format::UnixMs, "1500");
    assert_eq!(t, Instant { secs: 1, nanos: 500_000_000, offset: 0 });
    assert_eq!(Value::Timestamp(t).to_text(), "1970-01-01T00:00:01.500Z");
    let t = instant(Format::UnixMs, "-1");
    assert_eq!(t, Instant { secs: -1, nanos: 999_000_000, offset: 0 });
    assert_eq!(Value::Timestamp(t).to_text(), "1969-12-31T23:59:59.999Z");
}

#[test]
fn rfc3339_values() {
    let t = instant(Format::RFC3339, "2024-01-01T01:30:00+01:00");
    assert_eq!(t.offset, 3600);
    assert_eq!(t.secs, 1_704_069_000);
    assert_eq!(Value::Timestamp(t).to_text(), "2024-01-01T01:30:00+01:00");
    let u = instant(Format::RFC3339, "2024-01-01_00:30:00Z");
    assert_eq!(u.secs, t.secs);
    let q = instant(Format::RFC3339, "\"2024-01-01T00:30:00.25Z\"");
    assert_eq!(Value::Timestamp(q).to_text(), "2024-01-01T00:30:00.250Z");
    let e = Format::RFC3339.parse_value("2024-01-01").unwrap_err();
    assert!(e.starts_with("could not be parsed: "));
    assert!(e.len() > "could not be parsed: ".len());
}

#[test]
fn rfc3339_leap_second() {
    let t = instant(Format::RFC3339, "2016-12-31T23:59:60.5Z");
    assert_eq!(t.nanos, 1_500_000_000);
    assert_eq!(t.secs.rem_euclid(60), 59);
    let next = instant(Format::RFC3339, "2017-01-01T00:00:01Z");
    assert_eq!(next.secs - t.secs, 2);
}

#[test]
fn leap_second_spans_keep_their_sign() {
    let leap = instant(Format::RFC3339, "2016-12-31T23:59:60.5Z");
    let midnight = instant(Format::RFC3339, "2017-01-01T00:00:00Z");
    let before = instant(Format::RFC3339, "2016-12-31T23:59:59.5Z");
    assert_eq!(
        Value::Timestamp(midnight).sub(Value::Timestamp(leap)),
        Difference::Duration(500_000_000)
    );
    assert_eq!(
        Value::Timestamp(leap).sub(Value::Timestamp(midnight)),
        Difference::Duration(-500_000_000)
    );
    assert_eq!(
        Value::Timestamp(leap).sub(Value::Timestamp(before)),
        Difference::Duration(1_000_000_000)
    );
}

#[test]
fn surrounding_whitespace_and_quotes_do_not_matter() {
    for f in [Format::UInt, Format::Int, Format::Unix, Format::UnixMs, Format::RFC3339] {
        for x in ["12", "2024-01-01T00:00:00Z", "x1", "2024-13-01T00:00:00Z"] {
            let plain = f.parse_value(x);
            assert_eq!(f.parse_value(&format!(" \t{} ", x)), plain);
            assert_eq!(f.parse_value(&format!("  \"{}\"\n", x)), plain);
        }
    }
}

#[test]
fn timestamp_difference_is_ordered() {
    let a = instant(Format::RFC3339, "2024-01-01T00:00:00Z");
    let b = instant(Format::RFC3339, "2024-01-01T01:30:00+01:00");
    assert_eq!(Value::Timestamp(b).sub(Value::Timestamp(a)), Difference::Duration(1_800_000_000_000));
    assert_eq!(Value::Timestamp(a).sub(Value::Timestamp(b)), Difference::Duration(-1_800_000_000_000));
    let c = instant(Format::RFC3339, "2023-12-31T23:59:59.75Z");
    assert_eq!(Value::Timestamp(a).sub(Value::Timestamp(c)), Difference::Duration(250_000_000));
}

#[test]
fn number_difference() {
    assert_eq!(Value::Number(16).sub(Value::Number(20)), Difference::Number(-4));
    assert_eq!(
        Value::Number(i64::MAX).sub(Value::Number(i64::MIN)),
        Difference::Number(i64::MAX as i128 - i64::MIN as i128)
    );
}

#[test]
fn default_threshold_is_one_hour() {
    for f in [Format::Unix, Format::UnixMs, Format::RFC3339] {
        let one = f.parse_diff("1".to_string());
        assert_eq!(one, f.parse_diff("1h".to_string()));
        assert_eq!(one, Ok(Difference::Duration(3_600_000_000_000)));
    }
    assert_eq!(Format::Int.parse_diff("1".to_string()), Ok(Difference::Number(1)));
}

#[test]
fn duration_units() {
    let f = Format::RFC3339;
    assert_eq!(f.parse_diff("30s".to_string()), Ok(Difference::Duration(30_000_000_000)));
    assert_eq!(f.parse_diff("-2m".to_string()), Ok(Difference::Duration(-120_000_000_000)));
    assert_eq!(f.parse_diff("3d".to_string()), Ok(Difference::Duration(259_200_000_000_000)));
    assert_eq!(f.parse_diff("1w".to_string()), Ok(Difference::Duration(604_800_000_000_000)));
}

#[test]
fn duration_errors() {
    let f = Format::Unix;
    assert_eq!(f.parse_diff("".to_string()), Err("invalid rfc-3339 gap '': empty".to_string()));
    assert_eq!(
        f.parse_diff("h".to_string()),
        Err("invalid rfc-3339 gap 'h': invalid value or timebase".to_string())
    );
    assert_eq!(
        f.parse_diff("xh".to_string()),
        Err("invalid rfc-3339 gap 'xh': invalid digit found in string".to_string())
    );
    assert_eq!(
        f.parse_diff("5x".to_string()),
        Err("invalid rfc-3339 gap '5x': unexpected character 'x'".to_string())
    );
    assert_eq!(
        f.parse_diff("9223372036854776s".to_string()),
        Err("invalid rfc-3339 gap '9223372036854776s': out of range".to_string())
    );
    assert_eq!(
        f.parse_diff("9223372036854775s".to_string()),
        Ok(Difference::Duration(9_223_372_036_854_775_000_000_000))
    );
}

#[test]
fn numeric_threshold_errors() {
    assert_eq!(
        Format::UInt.parse_diff("5m".to_string()),
        Err("invalid numeric gap '5m': invalid digit found in string".to_string())
    );
    assert_eq!(Format::UInt.parse_diff("-5".to_string()), Ok(Difference::Number(-5)));
}

#[test]
fn format_names() {
    assert_eq!(Format::try_from("uint".to_string()), Ok(Format::UInt));
    assert_eq!(Format::try_from("int".to_string()), Ok(Format::Int));
    assert_eq!(Format::try_from("unix".to_string()), Ok(Format::Unix));
    assert_eq!(Format::try_from("unix_ms".to_string()), Ok(Format::UnixMs));
    assert_eq!(Format::try_from("rfc-3339".to_string()), Ok(Format::RFC3339));
    assert_eq!(
        Format::try_from("rfc3339".to_string()),
        Err("invalid format string: 'rfc3339'".to_string())
    );
}

#[test]
fn comparisons() {
    let a = Difference::Number(10);
    let b = Difference::Number(5);
    assert!(Comparison::GreaterThan.compare(&a, &b));
    assert!(!Comparison::GreaterThan.compare(&b, &b));
    assert!(Comparison::GreaterOrEqual.compare(&b, &b));
    assert!(Comparison::LessThan.compare(&b, &a));
    assert!(Comparison::LessOrEqual.compare(&b, &b));
    assert!(!Comparison::LessOrEqual.compare(&a, &b));
    assert_eq!(a.partial_cmp(&b), Some(std::cmp::Ordering::Greater));
    assert_eq!(a.partial_cmp(&Difference::Duration(10)), None);
}
