use tradebook::decimal::Decimal;

fn d(micros: i64) -> Decimal {
    Decimal::from_micros(micros)
}

#[test]
fn decimal_parse_reads_plain_numbers() {
    assert_eq!(Decimal::parse("260.595").unwrap().micros(), 260_595_000);
    assert_eq!(Decimal::parse("-1.01365").unwrap().micros(), -1_013_650);
    assert_eq!(Decimal::parse("+5").unwrap().micros(), 5_000_000);
    assert_eq!(Decimal::parse("0").unwrap().micros(), 0);
    assert_eq!(Decimal::parse("-0").unwrap().micros(), 0);
    assert_eq!(Decimal::parse("007").unwrap().micros(), 7_000_000);
    assert_eq!(Decimal::parse("5.").unwrap().micros(), 5_000_000);
    assert_eq!(Decimal::parse(".5").unwrap().micros(), 500_000);
    assert_eq!(Decimal::parse("-.000001").unwrap().micros(), -1);
    assert_eq!(Decimal::parse("0.83654").unwrap().micros(), 836_540);
    assert_eq!(Decimal::parse("1.000000").unwrap().micros(), 1_000_000);
}

#[test]
fn decimal_parse_drops_digits_past_the_sixth_place() {
    assert_eq!(Decimal::parse("1.2345678").unwrap().micros(), 1_234_567);
    assert_eq!(Decimal::parse("-1.9999999").unwrap().micros(), -1_999_999);
    assert_eq!(Decimal::parse("0.0000009").unwrap().micros(), 0);
}

#[test]
fn decimal_parse_refuses_other_texts() {
    for text in [
        "", " ", "+", "-", ".", "-.", "1,5", "1.2.3", " 1", "1 ", "--1", "+-1", "1-", "abc", "NaN",
        "nan", "inf", "-inf", "infinity", "0x10", "1_000", "١٢٣", "e3", ".e3", "1e", "1e+", "1e-",
        "1e1.5", "1ee3", "1e3e3", "1e 3", "e", "1.5f", "1e+-3",
    ] {
        assert!(Decimal::parse(text).is_none(), "{}", text);
    }
}

#[test]
fn decimal_parse_reads_exponents() {
    let micros = |text: &str| Decimal::parse(text).map(|d| d.micros());
    assert_eq!(micros("1e3"), Some(1_000_000_000));
    assert_eq!(micros("1E3"), Some(1_000_000_000));
    assert_eq!(micros("2.5e+2"), Some(250_000_000));
    assert_eq!(micros("-1e2"), Some(-100_000_000));
    assert_eq!(micros("1.5E-3"), Some(1_500));
    assert_eq!(micros("1e-6"), Some(1));
    assert_eq!(micros("1e-7"), Some(0));
    assert_eq!(micros("-19e-7"), Some(-1));
    assert_eq!(micros("123456789e-12"), Some(123));
    assert_eq!(micros("0.0000001e3"), Some(100));
    assert_eq!(micros(".5e1"), Some(5_000_000));
    assert_eq!(micros("5.e1"), Some(50_000_000));
    assert_eq!(micros("1.25e0"), Some(1_250_000));
    assert_eq!(micros("12.5e-0"), Some(12_500_000));
    assert_eq!(micros("0e99"), Some(0));
    assert_eq!(micros("0.000e18446744073709551615"), Some(0));
    assert_eq!(micros("7e-18446744073709551615"), Some(0));
    assert_eq!(micros("9e12"), Some(9_000_000_000_000_000_000));
    assert_eq!(micros("9223372036854.775807e0"), Some(i64::MAX));
    assert_eq!(micros("9223372036854775807e-6"), Some(i64::MAX));
    assert_eq!(micros("9223372036854775808e-6"), None);
    assert_eq!(micros("1e13"), None);
    assert_eq!(micros("1e19"), None);
    assert_eq!(micros("1e18446744073709551615"), None);
    // An exponent that does not fit is refused, whatever the number.
    assert_eq!(micros("0e18446744073709551616"), None);
}

#[test]
fn decimal_parse_takes_what_a_finite_number_takes() {
    let texts = [
        "0", "1", "-1", "+1", "1.5", ".5", "5.", "1e3", "1E-3", "1.e2", ".1e+2", "00012.500", "1e",
        "e1", ".", "+", "", "1.2.3", "1e2.5", "--1", "1e--2", "abc", "12a", "1 2", "inf", "nan",
        "Infinity", "-NaN", "0x1p3", "1_0", "1e+", "+.e1", "4.2e-10", "123.456e2",
    ];
    for text in texts {
        let expected = match text.parse::<f64>() {
            Ok(x) if x.is_finite() => Some((x * 1_000_000.0).trunc() as i64),
            _ => None,
        };
        let got = Decimal::parse(text).map(|d| d.micros());
        match (expected, got) {
            (Some(a), Some(b)) => assert!((a - b).abs() <= 1, "{}: {} {}", text, a, b),
            (None, None) => {}
            other => panic!("{}: {:?}", text, other),
        }
    }
}

#[test]
fn decimal_parse_keeps_to_the_range() {
    assert_eq!(Decimal::parse("9223372036854.775807").unwrap().micros(), i64::MAX);
    assert_eq!(Decimal::parse("-9223372036854.775807").unwrap().micros(), -i64::MAX);
    assert!(Decimal::parse("9223372036854.775808").is_none());
    assert!(Decimal::parse("9223372036855").is_none());
    assert!(Decimal::parse("99999999999999999999999").is_none());
}

#[test]
fn decimal_text_is_plain() {
    assert_eq!(d(120_000_000).to_text(), "120");
    assert_eq!(d(60_500_000).to_text(), "60.5");
    assert_eq!(d(0).to_text(), "0");
    assert_eq!(d(1).to_text(), "0.000001");
    assert_eq!(d(-1).to_text(), "-0.000001");
    assert_eq!(d(-1_013_650).to_text(), "-1.01365");
    assert_eq!(d(100_000_001).to_text(), "100.000001");
    assert_eq!(d(12_340_000).to_text(), "12.34");
    assert_eq!(d(i64::MAX).to_text(), "9223372036854.775807");
    assert_eq!(d(i64::MIN).to_text(), "-9223372036854.775808");
}

#[test]
fn decimal_text_reads_back() {
    for micros in [0, 1, -1, 999_999, 1_000_000, -123_456_789, 42_000_100, i64::MAX, -i64::MAX] {
        let text = d(micros).to_text();
        assert_eq!(Decimal::parse(&text).unwrap().micros(), micros);
    }
}

#[test]
fn decimal_arithmetic() {
    assert_eq!(d(1_500_000).add(&d(2_250_000)).micros(), 3_750_000);
    assert_eq!(d(1_500_000).sub(&d(2_250_000)).micros(), -750_000);
    assert_eq!(d(1_500_000).neg().micros(), -1_500_000);
    assert_eq!(d(-1_500_000).abs().micros(), 1_500_000);
    assert_eq!(d(1_500_000).mul(&d(2_000_000)).micros(), 3_000_000);
    assert_eq!(d(-1_500_000).mul(&d(2_000_000)).micros(), -3_000_000);
    assert_eq!(d(3_000_000).checked_div(&d(2_000_000)).unwrap().micros(), 1_500_000);
    assert_eq!(d(3_000_000).checked_div(&d(-2_000_000)).unwrap().micros(), -1_500_000);
    assert!(d(3_000_000).checked_div(&d(0)).is_none());
    assert_eq!(d(3_000_000).max(&d(2_000_000)).micros(), 3_000_000);
    assert_eq!(d(-3_000_000).max(&d(2_000_000)).micros(), 2_000_000);
    assert_eq!(Decimal::zero().micros(), 0);
    assert_eq!(Decimal::one().micros(), 1_000_000);
    assert_eq!(Decimal::from_units(-3).micros(), -3_000_000);
}

#[test]
fn decimal_products_and_quotients_round_toward_zero() {
    // 0.000001 * 0.5 = 0.0000005
    assert_eq!(d(1).mul(&d(500_000)).micros(), 0);
    assert_eq!(d(-1).mul(&d(500_000)).micros(), 0);
    // 1.999999 * 1.999999 = 3.999996000001
    assert_eq!(d(1_999_999).mul(&d(1_999_999)).micros(), 3_999_996);
    assert_eq!(d(-1_999_999).mul(&d(1_999_999)).micros(), -3_999_996);
    // 2 / 3 and -2 / 3
    assert_eq!(d(2_000_000).checked_div(&d(3_000_000)).unwrap().micros(), 666_666);
    assert_eq!(d(-2_000_000).checked_div(&d(3_000_000)).unwrap().micros(), -666_666);
    assert_eq!(d(2_000_000).checked_div(&d(-3_000_000)).unwrap().micros(), -666_666);
    assert_eq!(d(-2_000_000).checked_div(&d(-3_000_000)).unwrap().micros(), 666_666);
    assert_eq!(d(-7).checked_div_count(2).unwrap().micros(), -3);
    assert_eq!(d(7).checked_div_count(2).unwrap().micros(), 3);
    assert!(d(7).checked_div_count(0).is_none());
    assert_eq!(Decimal::ratio(2, 3).unwrap().micros(), 666_666);
    assert_eq!(Decimal::ratio(3, 3).unwrap().micros(), 1_000_000);
    assert_eq!(Decimal::ratio(0, 3).unwrap().micros(), 0);
    assert!(Decimal::ratio(1, 0).is_none());
    assert_eq!(Decimal::mean(-7, 2).unwrap().micros(), -3);
    assert_eq!(Decimal::mean(10, 4).unwrap().micros(), 2);
    assert!(Decimal::mean(10, 0).is_none());
}

#[test]
fn decimal_arithmetic_saturates() {
    let max = d(i64::MAX);
    let min = d(i64::MIN);
    assert_eq!(max.add(&d(1)).micros(), i64::MAX);
    assert_eq!(min.add(&d(-1)).micros(), i64::MIN);
    assert_eq!(min.sub(&d(1)).micros(), i64::MIN);
    assert_eq!(max.sub(&min).micros(), i64::MAX);
    assert_eq!(min.neg().micros(), i64::MAX);
    assert_eq!(min.abs().micros(), i64::MAX);
    assert_eq!(max.mul(&d(2_000_000)).micros(), i64::MAX);
    assert_eq!(max.mul(&d(-2_000_000)).micros(), i64::MIN);
    assert_eq!(max.mul(&max).micros(), i64::MAX);
    assert_eq!(min.mul(&min).micros(), i64::MAX);
    assert_eq!(max.checked_div(&d(1)).unwrap().micros(), i64::MAX);
    assert_eq!(min.checked_div(&d(1)).unwrap().micros(), i64::MIN);
    assert_eq!(min.checked_div(&d(-1)).unwrap().micros(), i64::MAX);
    assert_eq!(Decimal::from_units(i64::MAX).micros(), i64::MAX);
    assert_eq!(Decimal::from_units(i64::MIN).micros(), i64::MIN);
    assert_eq!(Decimal::saturate(i128::MAX).micros(), i64::MAX);
    assert_eq!(Decimal::saturate(i128::MIN).micros(), i64::MIN);
    assert_eq!(Decimal::saturate(-5).micros(), -5);
}

#[test]
fn decimal_comparisons() {
    assert!(d(1).is_positive() && !d(0).is_positive() && !d(-1).is_positive());
    assert!(d(-1).is_negative() && !d(0).is_negative());
    assert!(d(0).is_zero() && !d(1).is_zero());
    assert!(d(1).lt(&d(2)) && !d(2).lt(&d(2)));
    assert!(d(2).le(&d(2)) && !d(3).le(&d(2)));
    assert_eq!(d(5), Decimal::from_micros(5));
    assert_ne!(d(5), d(6));
}
