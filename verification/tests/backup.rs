use flate2::read::GzDecoder;
use my_finances::backup::{
    backup_contents, backup_names, check_frequency, compress_snapshot, due_since, names_at, prune_backups,
    snapshot_statement, BackupFile,
};
use my_finances::dates::{day_text, Moment};
use my_finances::ledger::Ledger;
use my_finances::{backup_interval_secs, backup_keep_count};
use std::io::Read;

fn at(secs: i64) -> Moment {
    Moment { secs, nanos: 0 }
}

fn file(name: &str, modified: i128) -> BackupFile {
    BackupFile { name: name.to_string(), modified }
}

#[test]
fn frequencies_keep_and_repeat() {
    assert_eq!(backup_keep_count("daily"), 30);
    assert_eq!(backup_keep_count("weekly"), 12);
    assert_eq!(backup_keep_count("monthly"), 24);
    assert_eq!(backup_keep_count("off"), 0);
    assert_eq!(backup_keep_count("Daily"), 0);
    assert_eq!(backup_interval_secs("daily"), Some(86_400));
    assert_eq!(backup_interval_secs("weekly"), Some(604_800));
    assert_eq!(backup_interval_secs("monthly"), Some(2_592_000));
    assert_eq!(backup_interval_secs("off"), None);
    assert_eq!(backup_interval_secs(""), None);
}

#[test]
fn frequencies_are_validated() {
    let mut ledger = Ledger::new();
    assert_eq!(ledger.backup_frequency(), "off");
    assert_eq!(ledger.set_backup_frequency("weekly"), Ok(()));
    assert_eq!(ledger.backup_frequency(), "weekly");
    assert_eq!(
        ledger.set_backup_frequency("hourly"),
        Err("Invalid backup frequency: hourly".to_string())
    );
    assert_eq!(ledger.backup_frequency(), "weekly");
    assert_eq!(ledger.set_backup_frequency("off"), Ok(()));
    assert_eq!(ledger.backup_frequency(), "off");
    assert_eq!(check_frequency("monthly"), Ok(()));
    assert_eq!(check_frequency("Off"), Err("Invalid backup frequency: Off".to_string()));
}

#[test]
fn backups_are_named_by_the_second() {
    let names = backup_names(&at(1_704_164_645));
    assert_eq!(names.snapshot, "my_finances-20240102-030405.tmp");
    assert_eq!(names.backup, "my_finances-20240102-030405.db.gz");
    assert_eq!(names_at("now").backup, "my_finances-now.db.gz");
}

#[test]
fn days_are_written_in_full() {
    assert_eq!(day_text(&at(0)), "1970-01-01");
    assert_eq!(day_text(&at(-1)), "1969-12-31");
    assert_eq!(day_text(&at(1_709_164_800)), "2024-02-29");
}

#[test]
fn moments_have_limits() {
    assert!(at(0).is_valid());
    assert!(at(253_402_387_199).is_valid());
    assert!(!at(253_402_387_200).is_valid());
    assert!(at(-62_167_305_600).is_valid());
    assert!(!at(-62_167_305_601).is_valid());
    assert!(Moment { secs: 59, nanos: 1_500_000_000 }.is_valid());
    assert!(Moment { secs: -1, nanos: 1_500_000_000 }.is_valid());
    assert!(!Moment { secs: 58, nanos: 1_500_000_000 }.is_valid());
    assert!(!Moment { secs: 59, nanos: 2_000_000_000 }.is_valid());
}

#[test]
fn the_snapshot_statement_names_the_target() {
    assert_eq!(snapshot_statement("/a b/c.tmp"), "VACUUM INTO '/a b/c.tmp';");
    assert_eq!(snapshot_statement("/a\"b\"/c"), "VACUUM INTO '/a\"b\"/c';");
    assert_eq!(snapshot_statement("/Jo's/c"), "VACUUM INTO '/Jo''s/c';");
    assert_eq!(snapshot_statement("''"), "VACUUM INTO '''''';");
    assert_eq!(snapshot_statement(""), "VACUUM INTO '';");
}

#[test]
fn sqlite_reads_the_target_in_the_statement() {
    let conn = rusqlite::Connection::open_in_memory().unwrap();
    for target in ["/a b/c.tmp", "/Jo's/c", "/a\"b\"/c", "'", "''\"'", "", "\u{e9}';--"] {
        let statement = snapshot_statement(target);
        let literal = statement.strip_prefix("VACUUM INTO ").unwrap();
        let read: String =
            conn.query_row(&format!("SELECT {}", literal), [], |row| row.get(0)).unwrap();
        assert_eq!(read, target);
    }
}

#[test]
fn compressed_snapshots_can_be_restored() {
    let snapshot: Vec<u8> = (0..100_000u32).map(|i| (i % 251) as u8).collect();
    let packed = compress_snapshot(&snapshot).unwrap();
    assert_eq!(packed[..3], [0x1f, 0x8b, 8]);
    assert!(packed.len() < snapshot.len());
    let mut restored = Vec::new();
    GzDecoder::new(packed.as_slice()).read_to_end(&mut restored).unwrap();
    assert_eq!(restored, snapshot);
    assert_eq!(compress_snapshot(&snapshot), Ok(packed));
    let mut nothing = Vec::new();
    let empty = compress_snapshot(&Vec::new()).unwrap();
    GzDecoder::new(empty.as_slice()).read_to_end(&mut nothing).unwrap();
    assert!(nothing.is_empty());
}

#[test]
fn failed_compressions_are_reported() {
    assert_eq!(backup_contents(Ok(Ok(vec![1, 2]))), Ok(vec![1, 2]));
    assert_eq!(
        backup_contents(Ok(Err("late".to_string()))),
        Err("Failed to finalize backup: late".to_string())
    );
    assert_eq!(
        backup_contents(Err("early".to_string())),
        Err("Failed to compress backup: early".to_string())
    );
}

#[test]
fn pruning_keeps_the_newest() {
    // Fourteen backups in mixed order; weekly keeps twelve.
    let mut files: Vec<BackupFile> = Vec::new();
    for i in [3, 11, 0, 7, 13, 5, 1, 9, 12, 2, 10, 4, 8, 6] {
        files.push(file(&format!("my_finances-{}.db.gz", i), 1_000 + i));
    }
    assert_eq!(
        prune_backups(&files, "weekly"),
        vec!["my_finances-1.db.gz".to_string(), "my_finances-0.db.gz".to_string()]
    );
    assert!(prune_backups(&files, "daily").is_empty());
    assert!(prune_backups(&files, "off").is_empty());
    assert!(prune_backups(&files[..12].to_vec(), "weekly").is_empty());
}

#[test]
fn pruning_leaves_other_files_alone() {
    let mut files: Vec<BackupFile> = Vec::new();
    for i in 0..12 {
        files.push(file(&format!("my_finances-{}.db.gz", i), 100 + i));
    }
    files.push(file("my_finances-x.tmp", 1));
    files.push(file("my_finances.db.gz", 1));
    files.push(file("notes.txt", 1));
    files.push(file("x-my_finances-1.db.gz", 1));
    assert!(prune_backups(&files, "weekly").is_empty());
    files.push(file("my_finances-.db.gz", 1));
    assert_eq!(prune_backups(&files, "weekly"), vec!["my_finances-.db.gz".to_string()]);
}

#[test]
fn equally_old_backups_keep_their_order() {
    let mut files: Vec<BackupFile> = Vec::new();
    for i in 0..14 {
        files.push(file(&format!("my_finances-{}.db.gz", i), 5));
    }
    assert_eq!(
        prune_backups(&files, "weekly"),
        vec!["my_finances-12.db.gz".to_string(), "my_finances-13.db.gz".to_string()]
    );
}

#[test]
fn the_first_backup_is_due_at_once() {
    let mut ledger = Ledger::new();
    assert!(!ledger.backup_due(&at(1_000)));
    assert_eq!(ledger.set_backup_frequency("daily"), Ok(()));
    assert!(ledger.backup_due(&at(1_000)));
}

#[test]
fn the_next_backup_is_due_after_an_interval() {
    let mut ledger = Ledger::new();
    assert_eq!(ledger.set_backup_frequency("daily"), Ok(()));
    let then = Moment { secs: 1_704_164_645, nanos: 123_456_789 };
    ledger.record_backup(&then);
    assert_eq!(
        ledger.setting("last_backup_at"),
        Some("2024-01-02T03:04:05.123456789+00:00".to_string())
    );
    assert!(!ledger.backup_due(&then));
    let early = Moment { secs: then.secs + 86_400, nanos: 123_456_788 };
    assert!(!ledger.backup_due(&early));
    let due = Moment { secs: then.secs + 86_400, nanos: 123_456_789 };
    assert!(ledger.backup_due(&due));
    // A clock that was set back.
    assert!(!ledger.backup_due(&at(then.secs - 1_000_000)));
    assert_eq!(ledger.set_backup_frequency("off"), Ok(()));
    assert!(!ledger.backup_due(&due));
}

#[test]
fn whole_seconds_count_in_utc() {
    let mut ledger = Ledger::new();
    assert_eq!(ledger.set_backup_frequency("weekly"), Ok(()));
    ledger.set_setting("last_backup_at", "1970-01-08T13:00:00+13:00");
    assert!(!ledger.backup_due(&at(2 * 604_800 - 1)));
    assert!(ledger.backup_due(&at(2 * 604_800)));
}

#[test]
fn an_unreadable_record_counts_as_none() {
    let mut ledger = Ledger::new();
    assert_eq!(ledger.set_backup_frequency("monthly"), Ok(()));
    ledger.set_setting("last_backup_at", "yesterday");
    assert!(ledger.backup_due(&at(0)));
}

#[test]
fn leap_seconds_count() {
    let leap = Moment { secs: 59, nanos: 1_000_000_000 };
    // One second lies between the leap second and the one after it.
    assert!(due_since(Some(1), Some(leap), &at(60)));
    assert!(due_since(Some(1), Some(at(59)), &leap));
    assert!(!due_since(Some(2), Some(at(59)), &leap));
    assert!(!due_since(None, None, &leap));
    assert!(due_since(Some(1), None, &leap));
}
