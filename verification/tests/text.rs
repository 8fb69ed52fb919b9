use zwave_scan::text::{decimal_text, format_durations};

#[test]
fn decimal_of_small_numbers() {
    assert_eq!(decimal_text(0), "0");
    assert_eq!(decimal_text(7), "7");
    assert_eq!(decimal_text(9), "9");
    assert_eq!(decimal_text(10), "10");
    assert_eq!(decimal_text(1234567890), "1234567890");
}

#[test]
fn decimal_of_the_largest_number() {
    assert_eq!(decimal_text(u64::MAX), "18446744073709551615");
}

#[test]
fn decimal_agrees_with_the_standard_formatting() {
    let mut n: u64 = 1;
    for _ in 0..64 {
        assert_eq!(decimal_text(n), format!("{}", n));
        assert_eq!(decimal_text(n - 1), format!("{}", n - 1));
        n = n.wrapping_mul(2).max(1);
    }
}

#[test]
fn durations_of_no_interval_is_empty() {
    assert_eq!(format_durations(&vec![]), "");
}

#[test]
fn durations_of_one_interval() {
    assert_eq!(format_durations(&vec![(2, 7)]), "2-7");
}

#[test]
fn durations_are_joined_by_commas() {
    assert_eq!(format_durations(&vec![(0, 1), (10, 11)]), "0-1,10-11");
    assert_eq!(format_durations(&vec![(0, 3), (20, 21), (400, 1041)]), "0-3,20-21,400-1041");
}
