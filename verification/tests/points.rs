use standings::points::{Points, THOUSANDTHS_PER_POINT};

fn thousandths_of(text: &str) -> Option<u64> {
    Points::parse(text).map(|points| points.thousandths())
}

#[test]
fn whole_numbers_are_scaled_by_a_thousand() {
    assert_eq!(THOUSANDTHS_PER_POINT, 1000);
    assert_eq!(thousandths_of("25"), Some(25_000));
    assert_eq!(thousandths_of("18"), Some(18_000));
    assert_eq!(thousandths_of("0"), Some(0));
    assert_eq!(thousandths_of("007"), Some(7_000));
}

#[test]
fn fractions_are_read_to_three_places() {
    assert_eq!(thousandths_of("12.5"), Some(12_500));
    assert_eq!(thousandths_of("0.125"), Some(125));
    assert_eq!(thousandths_of("1.05"), Some(1_050));
    assert_eq!(thousandths_of("3.000"), Some(3_000));
}

#[test]
fn zeros_past_the_third_place_change_nothing() {
    assert_eq!(thousandths_of("0.1250"), Some(125));
    assert_eq!(thousandths_of("7.00000000"), Some(7_000));
}

#[test]
fn places_past_the_third_are_left_out() {
    assert_eq!(thousandths_of("0.0001"), Some(0));
    assert_eq!(thousandths_of("0.1255"), Some(125));
    assert_eq!(thousandths_of("0.1259"), Some(125));
    assert_eq!(thousandths_of("0.9999"), Some(999));
    assert_eq!(thousandths_of("12.50049"), Some(12_500));
    assert_eq!(thousandths_of("3.14159265358979323846264338327950288"), Some(3_141));
}

#[test]
fn a_fine_fraction_must_still_be_made_of_digits() {
    assert_eq!(thousandths_of("0.1255x"), None);
    assert_eq!(thousandths_of("0.12.55"), None);
    assert_eq!(thousandths_of("0.1255 "), None);
    assert_eq!(thousandths_of("0.1255e1"), None);
    assert_eq!(thousandths_of("0.1255-"), None);
}

#[test]
fn a_plus_sign_and_a_bare_point_are_accepted() {
    assert_eq!(thousandths_of("+3"), Some(3_000));
    assert_eq!(thousandths_of(".5"), Some(500));
    assert_eq!(thousandths_of("5."), Some(5_000));
    assert_eq!(thousandths_of("+.5"), Some(500));
}

#[test]
fn texts_without_a_digit_are_refused() {
    assert_eq!(thousandths_of(""), None);
    assert_eq!(thousandths_of("."), None);
    assert_eq!(thousandths_of("+"), None);
    assert_eq!(thousandths_of("+."), None);
}

#[test]
fn anything_but_a_plain_decimal_is_refused() {
    assert_eq!(thousandths_of("abc"), None);
    assert_eq!(thousandths_of("-1"), None);
    assert_eq!(thousandths_of("-0"), None);
    assert_eq!(thousandths_of("1e3"), None);
    assert_eq!(thousandths_of(" 1"), None);
    assert_eq!(thousandths_of("1 "), None);
    assert_eq!(thousandths_of("1.2.3"), None);
    assert_eq!(thousandths_of("1,5"), None);
    assert_eq!(thousandths_of("++1"), None);
    assert_eq!(thousandths_of("1+"), None);
    assert_eq!(thousandths_of("inf"), None);
    assert_eq!(thousandths_of("NaN"), None);
}

#[test]
fn digits_of_other_scripts_are_refused() {
    assert_eq!(thousandths_of("\u{0661}\u{0662}"), None);
    assert_eq!(thousandths_of("1\u{00bd}"), None);
}

#[test]
fn the_largest_score_fits_and_the_next_does_not() {
    assert_eq!(thousandths_of("18446744073709551.615"), Some(u64::MAX));
    assert_eq!(thousandths_of("18446744073709551.6159"), Some(u64::MAX));
    assert_eq!(thousandths_of("18446744073709551.616"), None);
    assert_eq!(thousandths_of("18446744073709552"), None);
    assert_eq!(thousandths_of("99999999999999999999999999999999"), None);
    assert_eq!(thousandths_of("000000000000000000000000000000001"), Some(1_000));
}

#[test]
fn scores_are_written_canonically() {
    assert_eq!(Points::from_thousandths(0).to_text(), "0");
    assert_eq!(Points::from_thousandths(25_000).to_text(), "25");
    assert_eq!(Points::from_thousandths(12_500).to_text(), "12.5");
    assert_eq!(Points::from_thousandths(1_050).to_text(), "1.05");
    assert_eq!(Points::from_thousandths(125).to_text(), "0.125");
    assert_eq!(Points::from_thousandths(100).to_text(), "0.1");
    assert_eq!(Points::from_thousandths(10).to_text(), "0.01");
    assert_eq!(Points::from_thousandths(1).to_text(), "0.001");
    assert_eq!(Points::from_thousandths(1_000_000).to_text(), "1000");
    assert_eq!(Points::from_thousandths(u64::MAX).to_text(), "18446744073709551.615");
}

#[test]
fn writing_and_reading_back_gives_the_score_again() {
    for thousandths in [0u64, 1, 9, 10, 99, 100, 999, 1_000, 1_001, 12_500, 43_000, u64::MAX] {
        let points = Points::from_thousandths(thousandths);
        assert_eq!(Points::parse(&points.to_text()), Some(points));
    }
}

#[test]
fn scores_compare_by_value() {
    assert!(Points::from_thousandths(18_000) < Points::from_thousandths(25_000));
    assert_eq!(Points::parse("25.0"), Points::parse("25"));
    assert_eq!(Points::from_thousandths(7).thousandths(), 7);
}
