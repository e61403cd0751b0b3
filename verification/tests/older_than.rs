use backups_cleaner::BackupFileMeta;
use backups_cleaner::date_time::Duration;
use backups_cleaner::date_time::Timestamp;
use backups_cleaner::pruning_strategy::OlderThan;
use backups_cleaner::pruning_strategy::PruningStrategy;

fn build_meta(id: &str, date: Timestamp) -> BackupFileMeta {
    BackupFileMeta { id: String::from(id), human_readable_id: String::from(id), date }
}

fn collect_ids(backup_file_metas: Vec<BackupFileMeta>) -> Vec<String> {
    backup_file_metas.iter().map(|backup_file_meta| backup_file_meta.id.clone()).collect()
}

fn as_vector(ids: &str) -> Vec<String> {
    ids.chars().map(|character| String::from(character.to_string())).collect()
}

#[test]
fn older_than_test_expendable_backups() {
    let strategy = OlderThan::new(
        Duration::minutes(1),
        Timestamp::from_ymd_hms(2014, 11, 14, 8, 9, 10),
    );

    let mut backups = vec![
        // A day _after_ `reference_time` shouldn't be considered expendable.
        build_meta("0", Timestamp::from_ymd_hms(2014, 11, 15, 8, 9, 10)),
        // `duration` + 1 second old backups should be considered expendable.
        build_meta("C", Timestamp::from_ymd_hms(2014, 11, 14, 8, 8, 9)),
        // Same date as `reference_time` shouldn't be considered expendable.
        build_meta("A", Timestamp::from_ymd_hms(2014, 11, 14, 8, 9, 10)),
        // Very old backups should be considered expendable.
        build_meta("D", Timestamp::from_ymd_hms(2013, 11, 14, 8, 9, 10)),
        // Exactly `duration` before `reference_time` shouldn't be considered expendable.
        build_meta("B", Timestamp::from_ymd_hms(2014, 11, 14, 8, 8, 10)),
    ];

    let expendable_backups = strategy.expendable_backups(&mut backups);

    assert_eq!(collect_ids(expendable_backups), as_vector("CD"));
    assert_eq!(collect_ids(backups), as_vector("0AB"));
}

#[test]
fn older_than_test_expendable_backups_with_no_backups_given() {
    let strategy = OlderThan::new(
        Duration::minutes(1),
        Timestamp::from_ymd_hms(2014, 11, 14, 8, 9, 10),
    );
    let mut backups = vec![];

    let expendable_backups = strategy.expendable_backups(&mut backups);

    assert!(expendable_backups.is_empty());
    assert!(backups.is_empty());
}

#[test]
fn test_expendable_backups_at_the_exact_age_boundary() {
    // A record exactly `duration` old is kept; one second older is expendable.
    let strategy = OlderThan::new(
        Duration::seconds(90),
        Timestamp::from_ymd_hms(2014, 11, 14, 8, 9, 10),
    );

    let mut backups = vec![
        build_meta("A", Timestamp::from_ymd_hms(2014, 11, 14, 8, 7, 40)),
        build_meta("B", Timestamp::from_ymd_hms(2014, 11, 14, 8, 7, 39)),
    ];

    let expendable_backups = strategy.expendable_backups(&mut backups);

    assert_eq!(collect_ids(expendable_backups), as_vector("B"));
    assert_eq!(collect_ids(backups), as_vector("A"));
}
