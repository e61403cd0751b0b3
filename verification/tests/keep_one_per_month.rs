use backups_cleaner::BackupFileMeta;
use backups_cleaner::date_time::Duration;
use backups_cleaner::date_time::Timestamp;
use backups_cleaner::pruning_strategy::KeepOnePerMonth;
use backups_cleaner::pruning_strategy::PruningStrategy;

fn build_meta(id: &str, date: Timestamp) -> BackupFileMeta {
    BackupFileMeta { id: String::from(id), human_readable_id: String::from(id), date }
}

fn collect_ids(backup_file_metas: Vec<BackupFileMeta>) -> Vec<String> {
    backup_file_metas.iter().map(|backup_file_meta| backup_file_meta.id.clone()).collect()
}

fn as_vector(ids: &str) -> Vec<String> {
    ids.chars().map(|character| String::from(character.to_string())).collect()
}

fn ymd(year: u32, month: u32, day: u32) -> Timestamp {
    Timestamp::from_ymd_hms(year, month, day, 0, 0, 0)
}

#[test]
fn keep_one_per_month_test_expendable_backups() {
    let strategy = KeepOnePerMonth::new(Duration::days(20));
    let mut backups = vec![
        build_meta("A", Timestamp::from_ymd_hms(2014, 7, 19, 22, 0, 0)),
        build_meta("B", ymd(2014, 8, 1)),
        build_meta("1", ymd(2014, 8, 2)),
        build_meta("C", ymd(2014, 8, 30)),
        build_meta("D", ymd(2014, 11, 1)),
        build_meta("E", ymd(2014, 12, 1)),
        build_meta("2", ymd(2014, 12, 2)),
        build_meta("F", ymd(2014, 12, 30)),
    ];

    let expendable_backups = strategy.expendable_backups(&mut backups);

    assert_eq!(collect_ids(expendable_backups), as_vector("12"));
    assert_eq!(collect_ids(backups), as_vector("ABCDEF"));
}

#[test]
fn test_expendable_backups_when_no_backups_are_given() {
    let strategy = KeepOnePerMonth::new(Duration::days(20));
    let mut backups = vec![];

    let expendable_backups = strategy.expendable_backups(&mut backups);

    assert!(expendable_backups.is_empty());
    assert!(backups.is_empty());
}

#[test]
fn test_expendable_backups_when_one_backup_is_given() {
    let strategy = KeepOnePerMonth::new(Duration::days(20));
    let mut backups = vec![build_meta("A", Timestamp::from_ymd_hms(2014, 7, 19, 21, 46, 12))];

    let expendable_backups = strategy.expendable_backups(&mut backups);

    assert!(expendable_backups.is_empty());
    assert_eq!(collect_ids(backups), as_vector("A"));
}

#[test]
fn test_expendable_backups_when_a_backup_is_given_that_does_not_belong_to_a_month() {
    let strategy = KeepOnePerMonth::new(Duration::days(1));
    let mut backups = vec![build_meta("A", ymd(2014, 7, 15))];

    let expendable_backups = strategy.expendable_backups(&mut backups);

    assert_eq!(collect_ids(expendable_backups), as_vector("A"));
    assert!(backups.is_empty());
}

#[test]
fn test_expendable_backups_when_the_closest_backup_was_already_used_for_another_month() {
    let strategy = KeepOnePerMonth::new(Duration::days(32));
    let mut backups = vec![
        // Would be closer to the first of June, but will already be used for May.
        build_meta("A", ymd(2014, 5, 31)),
        // Should be used for June.
        build_meta("B", ymd(2014, 6, 3)),
    ];

    let expendable_backups = strategy.expendable_backups(&mut backups);

    assert!(expendable_backups.is_empty());
    assert_eq!(collect_ids(backups), as_vector("AB"));
}

#[test]
fn test_expendable_backups_when_the_closest_backup_is_before_the_beginning_of_the_month() {
    let strategy = KeepOnePerMonth::new(Duration::days(10));
    let mut backups = vec![
        build_meta("C", ymd(2014, 6, 4)),
        // Is the first date in June.
        build_meta("B", ymd(2014, 6, 2)),
        // Is the closest date to the first of June.
        build_meta("A", ymd(2014, 5, 31)),
    ];

    let expendable_backups = strategy.expendable_backups(&mut backups);

    assert_eq!(collect_ids(expendable_backups), as_vector("BC"));
    assert_eq!(collect_ids(backups), as_vector("A"));
}

#[test]
fn test_expendable_backups_with_records_of_equal_date() {
    // Of two records dated alike, the tie goes to the sorted-first one; the
    // other is not strictly closer and is excluded.
    let strategy = KeepOnePerMonth::new(Duration::days(20));
    let mut backups = vec![
        build_meta("A", ymd(2014, 8, 1)),
        build_meta("B", ymd(2014, 8, 1)),
    ];

    let expendable_backups = strategy.expendable_backups(&mut backups);

    assert_eq!(collect_ids(expendable_backups), as_vector("B"));
    assert_eq!(collect_ids(backups), as_vector("A"));
}
