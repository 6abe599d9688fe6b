use flowtime_statistics::day::{date_is_valid, day_of_year, is_leap_year, same_day, Date, Day};
use flowtime_statistics::loader::StatisticsElement;
use flowtime_statistics::text::{parse_date, parse_u32};

fn d(year: i32, month: u32, day: u32) -> Date {
    Date { year, month, day }
}

#[test]
fn day_round_trip() {
    let date = d(2024, 5, 1);
    let day = Day::new(date, 3600, 600);
    assert_eq!(day.date(), date);
    assert_eq!(day.worktime(), 3600);
    assert_eq!(day.breaktime(), 600);
}

#[test]
fn parse_u32_plain() {
    assert_eq!(parse_u32("100"), Some(100));
    assert_eq!(parse_u32("0"), Some(0));
    assert_eq!(parse_u32("007"), Some(7));
}

#[test]
fn parse_u32_plus_prefix() {
    assert_eq!(parse_u32("+7"), Some(7));
    assert_eq!(parse_u32("+"), None);
}

#[test]
fn parse_u32_rejects_garbage() {
    assert_eq!(parse_u32(""), None);
    assert_eq!(parse_u32("abc"), None);
    assert_eq!(parse_u32("12a"), None);
    assert_eq!(parse_u32("-3"), None);
    assert_eq!(parse_u32(" 5"), None);
}

#[test]
fn parse_u32_limits() {
    assert_eq!(parse_u32("4294967295"), Some(u32::MAX));
    assert_eq!(parse_u32("4294967296"), None);
    assert_eq!(parse_u32("99999999999999999999"), None);
}

#[test]
fn parse_date_plain() {
    assert_eq!(parse_date("2024-05-01"), Some(d(2024, 5, 1)));
    assert_eq!(parse_date("0000-01-01"), Some(d(0, 1, 1)));
    assert_eq!(parse_date("9999-12-31"), Some(d(9999, 12, 31)));
}

#[test]
fn parse_date_with_time_part() {
    assert_eq!(parse_date("2020-01-01T10:11:12Z"), Some(d(2020, 1, 1)));
    assert_eq!(parse_date("2020-01-01 10:11:12"), Some(d(2020, 1, 1)));
    assert_eq!(parse_date("2020-01-01X10:11:12"), None);
}

#[test]
fn parse_date_rejects_malformed() {
    assert_eq!(parse_date(""), None);
    assert_eq!(parse_date("2020-1-1"), None);
    assert_eq!(parse_date("2020/01/01"), None);
    assert_eq!(parse_date("yesterday"), None);
    assert_eq!(parse_date("2020-13-01"), None);
    assert_eq!(parse_date("2020-00-10"), None);
    assert_eq!(parse_date("2020-04-31"), None);
    assert_eq!(parse_date("2020-04-00"), None);
}

#[test]
fn parse_date_honours_leap_years() {
    assert_eq!(parse_date("2024-02-29"), Some(d(2024, 2, 29)));
    assert_eq!(parse_date("2023-02-29"), None);
    assert_eq!(parse_date("2000-02-29"), Some(d(2000, 2, 29)));
    assert_eq!(parse_date("1900-02-29"), None);
}

#[test]
fn leap_year_rule() {
    assert!(is_leap_year(2024));
    assert!(!is_leap_year(2023));
    assert!(is_leap_year(2000));
    assert!(!is_leap_year(1900));
}

#[test]
fn day_of_year_exact() {
    assert_eq!(day_of_year(&d(2023, 1, 1)), 1);
    assert_eq!(day_of_year(&d(2023, 3, 1)), 60);
    assert_eq!(day_of_year(&d(2024, 3, 1)), 61);
    assert_eq!(day_of_year(&d(2024, 12, 31)), 366);
    assert_eq!(day_of_year(&d(2023, 12, 31)), 365);
}

#[test]
fn same_day_comparison() {
    assert!(same_day(&d(2024, 5, 1), &d(2024, 5, 1)));
    assert!(!same_day(&d(2024, 5, 1), &d(2024, 5, 2)));
    assert!(!same_day(&d(2024, 5, 1), &d(2024, 6, 1)));
    assert!(!same_day(&d(2024, 5, 1), &d(2023, 5, 1)));
}

#[test]
fn element_vocabulary() {
    assert_eq!(StatisticsElement::from_name("day"), Some(StatisticsElement::Day));
    assert_eq!(StatisticsElement::from_name("worktime"), Some(StatisticsElement::Worktime));
    assert_eq!(StatisticsElement::from_name("breaktime"), Some(StatisticsElement::Breaktime));
    assert_eq!(StatisticsElement::from_name("statistics"), Some(StatisticsElement::Statistics));
    assert_eq!(StatisticsElement::from_name("Day"), None);
    assert_eq!(StatisticsElement::from_name("pause"), None);
}

#[test]
fn date_validity() {
    assert!(date_is_valid(&d(2024, 2, 29)));
    assert!(!date_is_valid(&d(2023, 2, 29)));
    assert!(!date_is_valid(&d(2024, 0, 1)));
    assert!(!date_is_valid(&d(2024, 13, 1)));
    assert!(!date_is_valid(&d(-5, 1, 1)));
    assert!(!date_is_valid(&d(10000, 1, 1)));
    assert!(date_is_valid(&d(0, 1, 1)));
}
