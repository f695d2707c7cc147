use sidewire::cleanup::{
    cleanup_report, expired_files, has_expired, FileEntry, Stamp, CLEANUP_INTERVAL_SECS,
    FILE_RETENTION_SECS,
};

fn file(created: Stamp, modified: Stamp) -> FileEntry {
    FileEntry { is_file: true, created, modified }
}

#[test]
fn files_are_kept_for_an_hour() {
    assert_eq!(FILE_RETENTION_SECS, 3600);
    assert_eq!(CLEANUP_INTERVAL_SECS, 300);
    let f = file(Stamp::Secs(1000), Stamp::Unavailable);
    assert!(!has_expired(&f, 4600));
    assert!(has_expired(&f, 4601));
    assert!(has_expired(&f, u64::MAX));
    assert!(!has_expired(&f, 0));
}

#[test]
fn modification_counts_where_creation_is_unknown() {
    assert!(has_expired(&file(Stamp::Unavailable, Stamp::Secs(0)), 5000));
    assert!(!has_expired(&file(Stamp::Secs(4000), Stamp::Secs(0)), 5000));
    assert!(!has_expired(&file(Stamp::BeforeEpoch, Stamp::Secs(0)), 5000));
    assert!(!has_expired(&file(Stamp::Unavailable, Stamp::Unavailable), 5000));
    assert!(!has_expired(&file(Stamp::Unavailable, Stamp::BeforeEpoch), 5000));
}

#[test]
fn directories_are_kept() {
    let f = FileEntry { is_file: false, created: Stamp::Secs(0), modified: Stamp::Secs(0) };
    assert!(!has_expired(&f, 5000));
}

#[test]
fn expired_entries_are_picked() {
    let entries = vec![
        file(Stamp::Secs(0), Stamp::Unavailable),
        file(Stamp::Secs(4999), Stamp::Unavailable),
        file(Stamp::Secs(1), Stamp::Unavailable),
    ];
    assert_eq!(expired_files(&entries, 5000), [0, 2]);
    assert!(expired_files(&entries, 100).is_empty());
}

#[test]
fn report_counts_files() {
    assert_eq!(cleanup_report(0), "Cleaned up 0 old file(s)");
    assert_eq!(cleanup_report(12), "Cleaned up 12 old file(s)");
}
