use webgpu_worker::thousands::{format_decimal, format_thousands};

#[test]
fn zero_has_one_digit() {
    assert_eq!(format_thousands(0), "0");
}

#[test]
fn single_digit() {
    assert_eq!(format_thousands(7), "7");
}

#[test]
fn three_digits_stay_ungrouped() {
    assert_eq!(format_thousands(999), "999");
    assert_eq!(format_thousands(100), "100");
    assert_eq!(format_thousands(-999), "-999");
}

#[test]
fn four_digits_get_one_separator() {
    assert_eq!(format_thousands(1000), "1,000");
    assert_eq!(format_thousands(1234), "1,234");
}

#[test]
fn groups_of_three_from_the_right() {
    assert_eq!(format_thousands(1234567), "1,234,567");
    assert_eq!(format_thousands(100000), "100,000");
    assert_eq!(format_thousands(12345678), "12,345,678");
}

#[test]
fn negative_values_keep_their_sign() {
    assert_eq!(format_thousands(-1234), "-1,234");
    assert_eq!(format_thousands(-5), "-5");
    assert_eq!(format_thousands(-100000), "-100,000");
}

#[test]
fn extremes_of_i64() {
    assert_eq!(format_thousands(i64::MAX), "9,223,372,036,854,775,807");
    assert_eq!(format_thousands(i64::MIN), "-9,223,372,036,854,775,808");
}

#[test]
fn separators_only_added() {
    for value in [0i64, 5, -5, 999, 1000, -1000, 65536, 987654321, i64::MIN, i64::MAX] {
        assert_eq!(format_thousands(value).replace(',', ""), value.to_string());
    }
}

#[test]
fn grouped_text_reads_back() {
    for value in [0i64, 42, -42, 1000, -1000, 123456789, i64::MIN, i64::MAX] {
        let text = format_thousands(value);
        let read: i128 = text.replace(',', "").parse().unwrap();
        assert_eq!(read, value as i128);
    }
}

#[test]
fn every_group_after_the_first_has_three_digits() {
    let text = format_thousands(1234567890);
    let groups: Vec<&str> = text.split(',').collect();
    assert_eq!(groups, vec!["1", "234", "567", "890"]);
}

#[test]
fn decimal_matches_display() {
    for value in [0i64, 1, -1, 42, -42, 3000, i64::MIN, i64::MAX] {
        assert_eq!(format_decimal(value), value.to_string());
    }
}
