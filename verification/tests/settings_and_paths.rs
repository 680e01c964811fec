use my_finances::ledger::Ledger;
use my_finances::paths::{
    icloud_root, is_absolute, join_path, legacy_local_db_path, resolve_backups_dir,
    resolve_db_path, should_migrate,
};

fn some(s: &str) -> Option<String> {
    Some(s.to_string())
}

#[test]
fn settings_read_back() {
    let mut ledger = Ledger::new();
    assert_eq!(ledger.setting("k"), None);
    ledger.set_setting("k", "1");
    ledger.set_setting("l", "2");
    ledger.set_setting("k", "3");
    assert_eq!(ledger.setting("k"), some("3"));
    assert_eq!(ledger.setting("l"), some("2"));
    assert_eq!(ledger.settings.len(), 2);
}

#[test]
fn autofetch_is_off_until_chosen() {
    let mut ledger = Ledger::new();
    assert!(!ledger.get_autofetch_setting());
    ledger.set_autofetch_setting(true);
    assert!(ledger.get_autofetch_setting());
    assert_eq!(ledger.setting("autofetch"), some("true"));
    ledger.set_autofetch_setting(false);
    assert!(!ledger.get_autofetch_setting());
    assert_eq!(ledger.setting("autofetch"), some("false"));
    ledger.set_setting("autofetch", "TRUE");
    assert!(!ledger.get_autofetch_setting());
}

#[test]
fn a_migration_is_noted() {
    let mut ledger = Ledger::new();
    ledger.mark_migrated();
    assert_eq!(ledger.setting("migrated_to_icloud"), some("true"));
}

#[test]
fn paths_are_joined_with_one_slash() {
    assert_eq!(join_path("/a", "b"), "/a/b");
    assert_eq!(join_path("/a/", "b"), "/a/b");
    assert_eq!(join_path("/", "b"), "/b");
    assert_eq!(join_path("", "b"), "b");
    assert!(is_absolute("/"));
    assert!(!is_absolute("a/b"));
    assert!(!is_absolute(""));
}

#[test]
fn the_database_prefers_icloud() {
    let root = icloud_root("/Users/me");
    assert_eq!(root, "/Users/me/Library/Mobile Documents/com~apple~CloudDocs");
    let place = resolve_db_path(&Some(root.clone()), &some("/data"));
    assert_eq!(place.dir, format!("{}/my_finances", root));
    assert_eq!(place.path, format!("{}/my_finances/my_finances.db", root));
    let place = resolve_db_path(&None, &some("/data"));
    assert_eq!(place.dir, "/data");
    assert_eq!(place.path, "/data/my_finances.db");
    assert_eq!(place.path, legacy_local_db_path(&some("/data")));
    assert_eq!(resolve_db_path(&None, &None).path, "./my_finances.db");
}

#[test]
fn a_database_is_copied_only_where_there_is_none() {
    assert!(should_migrate(false, true));
    assert!(!should_migrate(false, false));
    assert!(!should_migrate(true, true));
    assert!(!should_migrate(true, false));
}

#[test]
fn the_chosen_backups_directory_has_to_be_absolute() {
    let data = some("/data");
    assert_eq!(resolve_backups_dir(&None, &data), "/data/my_finances/backups");
    assert_eq!(resolve_backups_dir(&some("/mnt/b"), &data), "/mnt/b");
    assert_eq!(resolve_backups_dir(&some("b"), &data), "/data/my_finances/backups");
    assert_eq!(resolve_backups_dir(&None, &None), "./my_finances/backups");
}

#[test]
fn backup_settings_tell_the_directory_in_use() {
    let mut ledger = Ledger::new();
    let data = some("/data");
    let s = ledger.get_backup_settings(&data);
    assert_eq!(s.frequency, "off");
    assert_eq!(s.last_backup_at, None);
    assert_eq!(s.backup_dir, "/data/my_finances/backups");
    assert!(s.is_default_dir);
    ledger.set_setting("backup_dir", "/mnt/b");
    ledger.set_setting("backup_frequency", "daily");
    ledger.set_setting("last_backup_at", "2024-01-02T03:04:05+00:00");
    let s = ledger.get_backup_settings(&data);
    assert_eq!(s.frequency, "daily");
    assert_eq!(s.last_backup_at, some("2024-01-02T03:04:05+00:00"));
    assert_eq!(s.backup_dir, "/mnt/b");
    assert!(!s.is_default_dir);
    assert_eq!(ledger.backups_dir(&data), "/mnt/b");
    ledger.set_setting("backup_dir", "relative");
    let s = ledger.get_backup_settings(&data);
    assert_eq!(s.backup_dir, "/data/my_finances/backups");
    assert!(s.is_default_dir);
    assert_eq!(ledger.backups_dir(&data), "/data/my_finances/backups");
}
