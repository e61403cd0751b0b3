use backups_cleaner::BackupFileMeta;
use backups_cleaner::date_time::Duration;
use backups_cleaner::date_time::Timestamp;
use backups_cleaner::pruning_strategy::OlderThanButKeepOnePerMonth;
use backups_cleaner::pruning_strategy::PruningStrategy;

fn build_meta(id: &str, date: Timestamp) -> BackupFileMeta {
    BackupFileMeta { id: String::from(id), human_readable_id: String::from(id), date }
}

fn collect_ids(backup_file_metas: Vec<BackupFileMeta>) -> Vec<String> {
    backup_file_metas.iter().map(|backup_file_meta| backup_file_meta.id.clone()).collect()
}

fn as_vector(ids: &str) -> Vec<String> {
    ids.chars().map(|character| String::from(character.to_string())).collect()
}

fn ymd(year: u32, month: u32, day: u32) -> Timestamp {
    Timestamp::from_ymd_hms(year, month, day, 0, 0, 0)
}

#[test]
fn older_than_but_keep_history_test_expendable_backups() {
    let strategy = OlderThanButKeepOnePerMonth::new(
        ymd(2014, 6, 15),
        Duration::days(1),
        Duration::days(15),
        Duration::days(90),
    )
        .unwrap();

    let mut backups = vec![
        // The below should not be considered expendable, as it's _after_
        // `reference_time`.
        build_meta("A", ymd(2015, 6, 15)),
        // All of the below should not be considered expendable, as they are
        // within `keep_all_within`.
        build_meta("B", ymd(2014, 6, 15)),
        build_meta("C", Timestamp::from_ymd_hms(2014, 6, 14, 16, 0, 0)),
        build_meta("D", Timestamp::from_ymd_hms(2014, 6, 14, 8, 0, 0)),
        build_meta("E", ymd(2014, 6, 14)),
        // Only one per month of the below should be kept.
        build_meta("F", Timestamp::from_ymd_hms(2014, 6, 13, 23, 59, 59)),
        build_meta("G", ymd(2014, 6, 3)),
        build_meta("H", ymd(2014, 6, 1)),  // Should be kept for June.
        build_meta("I", ymd(2014, 5, 31)),
        build_meta("J", ymd(2014, 5, 17)),
        build_meta("K", ymd(2014, 4, 3)),
        build_meta("L", ymd(2014, 4, 2)),
        build_meta("M", ymd(2014, 3, 31)),  // Should be kept for April.
        // The below is expendable, as it's older than `one_per_month_within`
        // from `reference_time`.
        build_meta("N", ymd(2014, 3, 1)),
    ];

    let expendable_backups = strategy.expendable_backups(&mut backups);

    assert_eq!(collect_ids(expendable_backups), as_vector("NLKJIGF"));
    assert_eq!(collect_ids(backups), as_vector("ABCDEMH"));
}

#[test]
fn older_than_but_keep_history_test_expendable_backups_with_no_backups_given() {
    let strategy = OlderThanButKeepOnePerMonth::new(
        ymd(2014, 6, 15),
        Duration::days(1),
        Duration::days(15),
        Duration::days(120),
    )
        .unwrap();
    let mut backups = vec![];

    let expendable_backups = strategy.expendable_backups(&mut backups);

    assert!(expendable_backups.is_empty());
    assert!(backups.is_empty());
}

#[test]
fn test_new_when_one_per_month_within_is_less_than_keep_all_within() {
    // The configuration is contradictory, so building the strategy fails.
    let result = OlderThanButKeepOnePerMonth::new(
        ymd(2014, 6, 15),
        Duration::days(2),
        Duration::days(15),
        Duration::days(1),
    );

    assert!(result.is_err());
}

#[test]
fn test_new_when_one_per_month_within_equal_to_keep_all_within() {
    // Should succeed.
    let result = OlderThanButKeepOnePerMonth::new(
        ymd(2014, 6, 15),
        Duration::days(1),
        Duration::days(15),
        Duration::days(1),
    );

    assert!(result.is_ok());
}
