use fanctl::number::{i64_text, parse_i64, parse_u32, parse_usize, u64_text};
use fanctl::quantity::{
    clamp, milli, nearest, parse_number, parse_quantity, quantity_text, round_div, tenths_text,
    whole_text, Reading, Written,
};
use fanctl::double::{nearest_double, round_even, two_to};
use fanctl::register::{percent, raw_value};
use fanctl::text::{
    contains, join, pad_left, pad_right, split, split_once, starts_with, strip_prefix, trim,
    trim_end_matches, trim_start_matches,
};

#[test]
fn whole_numbers_in_text() {
    assert_eq!(u64_text(0), "0");
    assert_eq!(u64_text(u64::MAX), "18446744073709551615");
    assert_eq!(i64_text(i64::MIN), "-9223372036854775808");
    assert_eq!(parse_i64("-12"), Some(-12));
    assert_eq!(parse_i64("+12"), Some(12));
    assert_eq!(parse_i64(" 12"), None);
    assert_eq!(parse_i64(""), None);
    assert_eq!(parse_i64("-"), None);
    assert_eq!(parse_i64("9223372036854775808"), None);
    assert_eq!(parse_i64("-9223372036854775808"), Some(i64::MIN));
    assert_eq!(parse_u32("4294967295"), Some(u32::MAX));
    assert_eq!(parse_u32("4294967296"), None);
    assert_eq!(parse_u32("-1"), None);
    assert_eq!(parse_usize("007"), Some(7));
    for v in [0i64, 7, -7, 1000, i64::MAX, i64::MIN] {
        assert_eq!(parse_i64(&i64_text(v)), Some(v));
        assert_eq!(i64_text(v), v.to_string());
    }
}

#[test]
fn quantities_in_text_match_floats() {
    for v in [0.0f64, 1.0, 30.0, 37.5, -4.25, 0.000001, 99.999999, 123456.789] {
        let m = (v * 1e9).round() as i64;
        assert_eq!(quantity_text(m), format!("{v}"));
        assert_eq!(parse_quantity(&format!("{v}")), Some(m));
        assert_eq!(whole_text(m), format!("{v:.0}"));
        assert_eq!(tenths_text(m), format!("{v:.1}"));
    }
    for (s, m) in [
        ("5.", Some(5_000_000_000)),
        (".5", Some(500_000_000)),
        ("1e2", Some(100_000_000_000)),
        ("1E-3", Some(1_000_000)),
        ("+2", Some(2_000_000_000)),
        ("-0.5", Some(-500_000_000)),
        ("", None),
        (".", None),
        ("1.2.3", None),
        ("e5", None),
        ("1e", None),
        ("abc", None),
        (" 1", None),
        ("inf", Some(i64::MAX)),
        ("+Infinity", Some(i64::MAX)),
        ("-INF", Some(-i64::MAX)),
        ("1e400", Some(i64::MAX)),
        ("infinit", None),
        ("in", None),
        ("--inf", None),
    ] {
        assert_eq!(parse_quantity(s), m, "{s:?}");
        assert_eq!(s.parse::<f64>().is_ok(), m.is_some(), "{s:?}");
    }
}

#[test]
fn a_number_is_read_as_it_was_written() {
    let at = |value: i64, floor: i64, ceiling: i64| {
        Some(Reading::Number(Written { value, floor, ceiling }))
    };
    let one = 1_000_000_000;
    assert_eq!(parse_number("1"), at(one, one, one));
    assert_eq!(parse_number("1.000000000000"), at(one, one, one));
    assert_eq!(parse_number("1.0000000001"), at(one, one, one + 1));
    assert_eq!(parse_number("-1.0000000001"), at(-one, -one - 1, -one));
    assert_eq!(parse_number("1.0000000005"), at(one + 1, one, one + 1));
    assert_eq!(parse_number("1e-30"), at(0, 0, 1));
    assert_eq!(parse_number("0e-30"), at(0, 0, 0));
    assert_eq!(parse_number("-1e-99999999999999999999999"), at(0, -1, 0));
    assert_eq!(parse_number("1e99999999999999999999999"), at(i64::MAX, i64::MAX, i64::MAX));
    for s in ["nan", "NaN", "-nan", "+NAN"] {
        assert_eq!(parse_number(s), Some(Reading::NotANumber));
        assert!(s.parse::<f64>().unwrap().is_nan());
        assert_eq!(parse_quantity(s), None);
    }
    // A range takes a number that lies in it as it was written.
    let range = |s: &str| parse_number(s).unwrap().in_range(0, 150 * one);
    for s in ["150", "1.5e2", "150.0000000001", "151", "0", "-0", "-0.0000000001", "inf", "-inf"] {
        let f: f64 = s.parse().unwrap();
        assert_eq!(range(s).is_some(), (0.0..=150.0).contains(&f), "{s}");
    }
    assert_eq!(range("149.9999999999"), Some(150 * one));
    assert_eq!(range("nan"), None);
}

#[test]
fn decimals_are_shown_as_floats_are() {
    assert_eq!(tenths_text(34_850_000_000), "34.9");
    assert_eq!(tenths_text(34_750_000_000), "34.8");
    assert_eq!(tenths_text(34_650_000_000), "34.6");
    for k in -4000i64..4000 {
        let v = k as f64 / 100.0;
        assert_eq!(tenths_text(k * 10_000_000), format!("{v:.1}"), "{v}");
        assert_eq!(whole_text(k * 10_000_000), format!("{v:.0}"), "{v}");
    }
}

#[test]
fn the_nearest_double_is_that_of_the_machine() {
    let exact = |m: u128, s: u32| m as f64 / 2f64.powi(s as i32);
    for (n, d) in [(1u128, 10u128), (2, 3), (29, 100), (3485, 100), (1, 1), (7, 1 << 40)] {
        let (m, s) = nearest_double(n, d, 0);
        assert_eq!(exact(m, s), n as f64 / d as f64, "{n}/{d}");
    }
    assert_eq!(nearest_double(0, 7, 0), (0, 0));
    assert_eq!(nearest_double(1, 1, 0), (1 << 52, 52));
    assert_eq!(round_even(5, 2), 2);
    assert_eq!(round_even(7, 2), 4);
    assert_eq!(round_even(8, 3), 3);
    assert_eq!(two_to(70), 1 << 70);
}

#[test]
fn registers_go_by_the_double() {
    let half = 500_000_000;
    for max in [1u32, 3, 20, 40, 50, 100, 128, 200, 250, 255, 256, 1000, 9999, 65535, u32::MAX] {
        for p in 0..=1000i64 {
            let f = p as f64 / 10.0;
            let raw = ((f / 100.0) * max as f64).round() as u32;
            assert_eq!(raw_value(p * 100_000_000, max), raw, "{f} of {max}");
        }
    }
    assert_eq!(raw_value(29_000_000_000, 50), 14);
    assert_eq!(raw_value(31_000_000_000, 50), 16);
    for max in [8u32, 40, 200, 255, 1000] {
        for raw in 0..=max {
            let f = (raw as f64 / max as f64) * 100.0;
            let p = percent(raw, 0, max).unwrap();
            assert_eq!(whole_text(p), format!("{f:.0}"), "{raw} of {max}");
        }
    }
    assert_eq!(percent(23, 0, 40), Some(57 * 2 * half + half - 1));
    assert_eq!(percent(1, 0, 8), Some(12 * 2 * half + half));
    assert_eq!(percent(5, 9, 29), Some(0));
    assert_eq!(percent(30, 9, 29), Some(200 * half));
    assert_eq!(percent(5, 9, 9), None);
}

#[test]
fn rounding() {
    assert_eq!(round_div(5, 2), 3);
    assert_eq!(round_div(-5, 2), -2);
    assert_eq!(round_div(4, 3), 1);
    assert_eq!(whole_text(2_500_000_000), "2");
    assert_eq!(whole_text(3_500_000_000), "4");
    assert_eq!(tenths_text(250_000_000), "0.2");
    assert_eq!(nearest(2_500_000_000), 3);
    assert_eq!(nearest(-2_500_000_000), -3);
    assert_eq!(milli(70500), 70_500_000_000);
    assert_eq!(clamp(7, 0, 5), 5);
    assert_eq!(clamp(-7, 0, 5), 0);
}

#[test]
fn text_helpers_match_std() {
    assert_eq!(trim(" \t a b\u{a0}\r\n"), " \t a b\u{a0}\r\n".trim());
    assert_eq!(trim_end_matches("/a//", '/'), "/a");
    assert_eq!(trim_start_matches("hwmonhwmon3", "hwmon"), "3");
    assert_eq!(strip_prefix("pwm12", "pwm").as_deref(), Some("12"));
    assert_eq!(strip_prefix("fan1", "pwm"), None);
    assert!(starts_with("hwmon3", "hwmon"));
    assert_eq!(
        split_once("a:b:c", ':'),
        Some(("a".to_string(), "b:c".to_string()))
    );
    assert_eq!(split_once("abc", ':'), None);
    assert_eq!(split("a,,b,", ','), vec!["a", "", "b", ""]);
    assert_eq!(split("", ','), vec![""]);
    assert_eq!(
        join(&vec!["a".to_string(), "b".to_string()], ", "),
        "a, b"
    );
    assert_eq!(pad_right("°C", 4), format!("{:4}", "°C"));
    assert_eq!(pad_left("°C", 4), format!("{:>4}", "°C"));
    assert_eq!(pad_left("toolong", 4), "toolong");
    assert!(contains("abc", "bc") && contains("abc", "") && contains("", ""));
    assert!(!contains("abc", "cb"));
}
