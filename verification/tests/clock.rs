use arg_parser::clock::{format_time, get_time_tuple};
use arg_parser::text::push_padded;

fn pad(n: i64, width: u64) -> String {
    let mut out = String::from("<");
    push_padded(&mut out, n, width);
    out
}

#[test]
fn epoch_is_the_first_of_january_1970() {
    assert_eq!(get_time_tuple(0, 0), (1970, 1, 1, 0, 0, 0));
    assert_eq!(format_time(0, 0), "1970-01-01 00:00:00");
}

#[test]
fn last_second_of_the_first_day() {
    assert_eq!(get_time_tuple(86399, 0), (1970, 1, 1, 23, 59, 59));
    assert_eq!(get_time_tuple(86400, 0), (1970, 1, 2, 0, 0, 0));
}

#[test]
fn leap_day_of_2000() {
    assert_eq!(get_time_tuple(951782400, 0), (2000, 2, 29, 0, 0, 0));
    assert_eq!(get_time_tuple(951868800, 0), (2000, 3, 1, 0, 0, 0));
}

#[test]
fn a_time_in_2016() {
    assert_eq!(get_time_tuple(1456835405, 0), (2016, 3, 1, 12, 30, 5));
    assert_eq!(format_time(1456835405, 0), "2016-03-01 12:30:05");
}

#[test]
fn offset_moves_the_clock_by_hours() {
    assert_eq!(format_time(0, 1), "1970-01-01 01:00:00");
    assert_eq!(format_time(1456835405, 12), "2016-03-02 00:30:05");
    assert_eq!(get_time_tuple(3600, -1), (1970, 1, 1, 0, 0, 0));
}

#[test]
fn before_the_epoch_the_clock_runs_backwards() {
    assert_eq!(get_time_tuple(-1, 0), (1970, 1, 1, 0, 0, -1));
    assert_eq!(format_time(-1, 0), "1970-01-01 00:00:-1");
}

#[test]
fn numbers_are_filled_with_zeros() {
    assert_eq!(pad(5, 4), "<0005");
    assert_eq!(pad(0, 2), "<00");
    assert_eq!(pad(7, 0), "<7");
    assert_eq!(pad(12345, 4), "<12345");
    assert_eq!(pad(-5, 4), "<-005");
    assert_eq!(pad(-12, 2), "<-12");
    assert_eq!(pad(i64::MIN, 2), "<-9223372036854775808");
    assert_eq!(pad(i64::MAX, 20), "<09223372036854775807");
}

#[test]
fn padding_agrees_with_the_standard_formatter() {
    for n in [-1000i64, -99, -10, -9, -1, 0, 1, 9, 10, 99, 100, 999, 1000, 9999, 10000] {
        assert_eq!(pad(n, 4), format!("<{:>04}", n));
        assert_eq!(pad(n, 2), format!("<{:>02}", n));
    }
}

#[test]
fn the_year_2100_has_no_leap_day() {
    assert_eq!(get_time_tuple(4107542399, 0), (2100, 2, 28, 23, 59, 59));
    assert_eq!(get_time_tuple(4107542400, 0), (2100, 3, 1, 0, 0, 0));
}

#[test]
fn last_day_of_a_year_and_first_of_the_next() {
    assert_eq!(get_time_tuple(31449600, 0), (1970, 12, 31, 0, 0, 0));
    assert_eq!(get_time_tuple(31536000, 0), (1971, 1, 1, 0, 0, 0));
    assert_eq!(get_time_tuple(68255999, 0), (1972, 2, 29, 23, 59, 59));
}
