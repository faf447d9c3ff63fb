use hex_logo::decimal::{to_decimal0, to_decimal1};

#[test]
fn one_place_of_whole_units() {
    assert_eq!(to_decimal1(0), "0.0");
    assert_eq!(to_decimal1(350_000_000), "350.0");
    assert_eq!(to_decimal1(700_000_000), "700.0");
    assert_eq!(to_decimal1(7_000_000), "7.0");
    assert_eq!(to_decimal1(10_000_000), "10.0");
}

#[test]
fn one_place_rounds_to_the_nearest_tenth() {
    assert_eq!(to_decimal1(622_798_002), "622.8");
    assert_eq!(to_decimal1(77_201_998), "77.2");
    assert_eq!(to_decimal1(123_456_789), "123.5");
    assert_eq!(to_decimal1(49_999), "0.0");
    assert_eq!(to_decimal1(50_001), "0.1");
    assert_eq!(to_decimal1(999_949_999), "999.9");
}

#[test]
fn one_place_rounds_a_tie_to_the_even_tenth() {
    assert_eq!(to_decimal1(50_000), "0.0");
    assert_eq!(to_decimal1(150_000), "0.2");
    assert_eq!(to_decimal1(250_000), "0.2");
    assert_eq!(to_decimal1(239_750_000), "239.8");
    assert_eq!(to_decimal1(460_250_000), "460.2");
    assert_eq!(to_decimal1(999_950_000), "1000.0");
}

#[test]
fn one_place_of_negative_quantities() {
    assert_eq!(to_decimal1(-350_000_000), "-350.0");
    assert_eq!(to_decimal1(-150_000), "-0.2");
    assert_eq!(to_decimal1(-40_000), "-0.0");
    assert_eq!(to_decimal1(-1), "-0.0");
}

#[test]
fn one_place_at_the_ends_of_the_range() {
    assert_eq!(to_decimal1(i64::MAX), "9223372036854.8");
    assert_eq!(to_decimal1(i64::MIN), "-9223372036854.8");
}

#[test]
fn one_place_agrees_with_the_standard_formatter_on_binary_fractions() {
    let mut eighths: i64 = -4_000;
    while eighths <= 4_000 {
        let expected = format!("{:.1}", eighths as f64 / 8.0);
        assert_eq!(to_decimal1(eighths * 125_000), expected);
        eighths += 1;
    }
}

#[test]
fn no_places() {
    assert_eq!(to_decimal0(0), "0");
    assert_eq!(to_decimal0(700_000_000), "700");
    assert_eq!(to_decimal0(9_000_000), "9");
    assert_eq!(to_decimal0(123_456_789), "123");
    assert_eq!(to_decimal0(-500_001), "-1");
    assert_eq!(to_decimal0(i64::MAX), "9223372036855");
    assert_eq!(to_decimal0(i64::MIN), "-9223372036855");
}

#[test]
fn no_places_rounds_a_tie_to_the_even_unit() {
    assert_eq!(to_decimal0(500_000), "0");
    assert_eq!(to_decimal0(1_500_000), "2");
    assert_eq!(to_decimal0(2_500_000), "2");
    assert_eq!(to_decimal0(-500_000), "-0");
    assert_eq!(to_decimal0(9_500_000), "10");
}

#[test]
fn no_places_agrees_with_the_standard_formatter_on_binary_fractions() {
    let mut quarters: i64 = -400;
    while quarters <= 400 {
        let expected = format!("{:.0}", quarters as f64 / 4.0);
        assert_eq!(to_decimal0(quarters * 250_000), expected);
        quarters += 1;
    }
}
