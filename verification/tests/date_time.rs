use backups_cleaner::date_time::Duration;
use backups_cleaner::date_time::Timestamp;
use backups_cleaner::pruning_strategy::keep_one_per_month::date_time_utilities::beginning_of_month;
use backups_cleaner::pruning_strategy::keep_one_per_month::date_time_utilities::beginning_of_next_month;
use backups_cleaner::pruning_strategy::keep_one_per_month::date_time_utilities::is_closer;

fn ymd(year: u32, month: u32, day: u32) -> Timestamp {
    Timestamp::from_ymd_hms(year, month, day, 0, 0, 0)
}

#[test]
fn test_duration_constructors() {
    assert_eq!(Duration::seconds(5).secs, 5);
    assert_eq!(Duration::minutes(1).secs, 60);
    assert_eq!(Duration::days(20).secs, 1_728_000);
    assert_eq!(Duration::days(-1).secs, -86_400);
}

#[test]
fn test_seconds_within_a_day() {
    let midnight = ymd(2014, 11, 14);
    let later = Timestamp::from_ymd_hms(2014, 11, 14, 8, 9, 10);
    assert_eq!(later.seconds() - midnight.seconds(), 8 * 3600 + 9 * 60 + 10);
}

#[test]
fn test_seconds_across_month_and_year_boundaries() {
    assert_eq!(ymd(2014, 8, 1).seconds() - ymd(2014, 7, 19).seconds(), 13 * 86_400);
    assert_eq!(ymd(2015, 1, 1).seconds() - ymd(2014, 12, 31).seconds(), 86_400);
    assert_eq!(
        ymd(2015, 1, 1).seconds() - Timestamp::from_ymd_hms(2014, 12, 31, 23, 59, 59).seconds(),
        1,
    );
}

#[test]
fn test_seconds_across_leap_days() {
    // 2014 is not a leap year, 2012 is.
    assert_eq!(ymd(2014, 3, 1).seconds() - ymd(2014, 2, 28).seconds(), 86_400);
    assert_eq!(ymd(2012, 3, 1).seconds() - ymd(2012, 2, 28).seconds(), 2 * 86_400);
    assert_eq!(ymd(2012, 3, 1).seconds() - ymd(2012, 2, 29).seconds(), 86_400);
    // A century year is a leap year only when divisible by 400.
    assert_eq!(ymd(1900, 3, 1).seconds() - ymd(1900, 2, 28).seconds(), 86_400);
    assert_eq!(ymd(2000, 3, 1).seconds() - ymd(2000, 2, 28).seconds(), 2 * 86_400);
}

#[test]
fn test_beginning_of_month() {
    let date = Timestamp::from_ymd_hms(2014, 7, 19, 22, 15, 3);
    let start = beginning_of_month(date);
    assert_eq!(start.year, 2014);
    assert_eq!(start.month, 7);
    assert_eq!(start.day, 1);
    assert_eq!(start.hour, 0);
    assert_eq!(start.minute, 0);
    assert_eq!(start.second, 0);
}

#[test]
fn test_beginning_of_next_month() {
    let start = beginning_of_next_month(Timestamp::from_ymd_hms(2014, 6, 19, 4, 0, 0));
    assert_eq!(start.year, 2014);
    assert_eq!(start.month, 7);
    assert_eq!(start.day, 1);
}

#[test]
fn test_beginning_of_next_month_carries_the_year_over_a_december() {
    let start = beginning_of_next_month(ymd(2014, 12, 30));
    assert_eq!(start.year, 2015);
    assert_eq!(start.month, 1);
    assert_eq!(start.day, 1);
}

#[test]
fn test_is_closer() {
    let target = ymd(2014, 8, 1);
    assert!(is_closer(target, ymd(2014, 8, 2), ymd(2014, 7, 25)));
    assert!(!is_closer(target, ymd(2014, 7, 25), ymd(2014, 8, 2)));
    // A tie is not closer.
    assert!(!is_closer(target, ymd(2014, 8, 3), ymd(2014, 7, 30)));
}
