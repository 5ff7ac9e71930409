use ahap::Scalar;

fn text(micros: i64) -> String {
    Scalar::from_micros(micros).to_text()
}

fn read(text: &str) -> Option<i64> {
    Scalar::from_text(text).map(|s| s.micros())
}

#[test]
fn scalar_is_written_with_a_point() {
    assert_eq!(text(0), "0.0");
    assert_eq!(text(1_000_000), "1.0");
    assert_eq!(text(15_000_000), "15.0");
    assert_eq!(text(435_000), "0.435");
    assert_eq!(text(400_000), "0.4");
    assert_eq!(text(40_000), "0.04");
    assert_eq!(text(1), "0.000001");
    assert_eq!(text(999_999), "0.999999");
    assert_eq!(text(123_456_789), "123.456789");
    assert_eq!(text(120_500_000), "120.5");
}

#[test]
fn negative_scalar_is_written_with_a_sign() {
    assert_eq!(text(-1), "-0.000001");
    assert_eq!(text(-1_000_000), "-1.0");
    assert_eq!(text(-15_250_000), "-15.25");
}

#[test]
fn scalar_at_the_ends_of_the_range_is_written() {
    assert_eq!(text(i64::MAX), "9223372036854.775807");
    assert_eq!(text(i64::MIN), "-9223372036854.775808");
}

#[test]
fn scalar_is_read_back_from_its_text() {
    for micros in [
        0,
        1,
        -1,
        10,
        999_999,
        1_000_000,
        1_000_001,
        -435_000,
        40_000,
        123_456_789,
        i64::MAX,
        i64::MIN,
        i64::MAX - 1,
        i64::MIN + 1,
    ] {
        assert_eq!(read(&text(micros)), Some(micros));
    }
}

#[test]
fn number_without_a_fraction_is_read() {
    assert_eq!(read("0"), Some(0));
    assert_eq!(read("1"), Some(1_000_000));
    assert_eq!(read("-12"), Some(-12_000_000));
    assert_eq!(read("007"), Some(7_000_000));
}

#[test]
fn number_with_a_fraction_is_read() {
    assert_eq!(read("0.5"), Some(500_000));
    assert_eq!(read("0.50"), Some(500_000));
    assert_eq!(read("3.141592"), Some(3_141_592));
    assert_eq!(read("-0.000001"), Some(-1));
    assert_eq!(read("-0.0"), Some(0));
}

#[test]
fn digits_after_the_sixth_round_the_sixth() {
    assert_eq!(read("0.50000006"), Some(500_000));
    assert_eq!(read("0.0000004"), Some(0));
    assert_eq!(read("0.0000005"), Some(1));
    assert_eq!(read("0.00000049999"), Some(0));
    assert_eq!(read("-0.0000005"), Some(-1));
    assert_eq!(read("0.9999995"), Some(1_000_000));
    assert_eq!(read("0.30000001192092896"), Some(300_000));
    assert_eq!(read("1.23456789"), Some(1_234_568));
}

#[test]
fn text_that_is_no_decimal_is_not_read() {
    for bad in [
        "", "-", ".", ".5", "5.", "-.5", "+1", "1.2.3", "1,5", " 1", "1 ", "abc", "0x10", "--1",
        "1-", "NaN", "١٢٣", "1.٥", "e5", "1e", "1e+", "1e-", "1ee5", "1e5.0", "1e+-5", "1.e5",
        ".e1", "-e1", "1e5e", "1x5", "1e 5", "é",
    ] {
        assert_eq!(read(bad), None, "{:?}", bad);
    }
}

#[test]
fn number_too_large_for_a_scalar_is_not_read() {
    assert_eq!(read("9223372036854.775807"), Some(i64::MAX));
    assert_eq!(read("9223372036854.775808"), None);
    assert_eq!(read("9223372036854.7758074"), Some(i64::MAX));
    assert_eq!(read("9223372036854.7758075"), None);
    assert_eq!(read("-9223372036854.775808"), Some(i64::MIN));
    assert_eq!(read("-9223372036854.775809"), None);
    assert_eq!(read("9223372036855"), None);
    assert_eq!(read("10000000000000"), None);
    assert_eq!(read("9999999999999.999999"), None);
    assert_eq!(read("123456789012345678901234567890"), None);
    assert_eq!(read("-123456789012345678901234567890.5"), None);
}

#[test]
fn number_with_an_exponent_is_read() {
    assert_eq!(read("1e3"), Some(1_000_000_000));
    assert_eq!(read("1E3"), Some(1_000_000_000));
    assert_eq!(read("1e+3"), Some(1_000_000_000));
    assert_eq!(read("1e03"), Some(1_000_000_000));
    assert_eq!(read("1.5e-3"), Some(1_500));
    assert_eq!(read("-1.5E-3"), Some(-1_500));
    assert_eq!(read("25e-1"), Some(2_500_000));
    assert_eq!(read("0.25e1"), Some(2_500_000));
    assert_eq!(read("1e0"), Some(1_000_000));
    assert_eq!(read("1e-0"), Some(1_000_000));
    assert_eq!(read("1e-6"), Some(1));
    assert_eq!(read("123456789e-8"), Some(1_234_568));
    assert_eq!(read("0.000000000001e18"), Some(1_000_000_000_000));
    assert_eq!(read("1e12"), Some(1_000_000_000_000_000_000));
}

#[test]
fn number_with_an_exponent_is_rounded_to_a_millionth() {
    assert_eq!(read("4e-7"), Some(0));
    assert_eq!(read("5e-7"), Some(1));
    assert_eq!(read("-5e-7"), Some(-1));
    assert_eq!(read("-4.9999e-7"), Some(0));
    assert_eq!(read("1.4999999e-6"), Some(1));
    assert_eq!(read("1.5e-6"), Some(2));
    assert_eq!(read("9e-8"), Some(0));
    assert_eq!(read("99999e-12"), Some(0));
    assert_eq!(read("500000e-12"), Some(1));
    assert_eq!(read("1e-5"), Some(10));
}

#[test]
fn exponent_of_any_length_is_read() {
    assert_eq!(read("0e99999999999999999999999999999999999999999999"), Some(0));
    assert_eq!(read("0.000e99999999999999999999999999999999999999999999"), Some(0));
    assert_eq!(read("-0e+99999999999999999999999999999999999999999999"), Some(0));
    assert_eq!(read("1e-99999999999999999999999999999999999999999999"), Some(0));
    assert_eq!(read("987654321e-99999999999999999999999999999999999999999999"), Some(0));
    assert_eq!(read("1e99999999999999999999999999999999999999999999"), None);
    assert_eq!(read("0.0001e99999999999999999999999999999999999999999999"), None);
    assert_eq!(read("1e00000000000000000000000000000000000000000002"), Some(100_000_000));
}

#[test]
fn number_with_an_exponent_has_to_fit() {
    assert_eq!(read("9.223372036854775807e12"), Some(i64::MAX));
    assert_eq!(read("9223372036854775807e-6"), Some(i64::MAX));
    assert_eq!(read("9223372036854775808e-6"), None);
    assert_eq!(read("-9223372036854775808e-6"), Some(i64::MIN));
    assert_eq!(read("-9223372036854775809e-6"), None);
    assert_eq!(read("92233720368547758074e-7"), Some(i64::MAX));
    assert_eq!(read("92233720368547758075e-7"), None);
    assert_eq!(read("-92233720368547758075e-7"), Some(i64::MIN));
    assert_eq!(read("-92233720368547758085e-7"), None);
    assert_eq!(read("1e13"), None);
    assert_eq!(read("1e19"), None);
    assert_eq!(read("1e20"), None);
    assert_eq!(read("0.9e13"), Some(9_000_000_000_000_000_000));
    assert_eq!(read("0.00000000000000000001e32"), Some(1_000_000_000_000_000_000));
    assert_eq!(read("0.00000000000000000001e33"), None);
}

#[test]
fn long_runs_of_zeros_are_read() {
    let zeros = "0".repeat(500);
    assert_eq!(read(&format!("{}7", zeros)), Some(7_000_000));
    assert_eq!(read(&format!("0.{}7", zeros)), Some(0));
    assert_eq!(read(&format!("0.{}7e501", zeros)), Some(7_000_000));
    assert_eq!(read(&format!("7{}e-500", zeros)), Some(7_000_000));
    assert_eq!(read(&format!("7{}", zeros)), None);
    assert_eq!(read(&format!("0.5{}", zeros)), Some(500_000));
    assert_eq!(read(&format!("0.0000004{}9", "9".repeat(100))), Some(0));
}
