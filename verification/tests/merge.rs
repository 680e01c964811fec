use my_finances::dates::{archive_stamp, Moment};
use my_finances::ledger::{Ledger, LedgerError};
use my_finances::merge::{archive_name, conflict_copies, file_stem, free_archive_name};
use my_finances::model::{Account, AccountValue, FetchEntry, Setting};
use my_finances::Balance;

fn money(x: f64) -> Balance {
    Balance::from_bits(x.to_bits())
}

fn amount(b: Balance) -> f64 {
    f64::from_bits(b.to_bits())
}

fn sum(v: &Vec<Balance>) -> Balance {
    money(v.iter().map(|b| amount(*b)).sum())
}

fn account(id: &str, name: &str) -> Account {
    Account {
        id: id.to_string(),
        name: name.to_string(),
        account_type: String::new(),
        institution: String::new(),
        currency: "NZD".to_string(),
        is_manual: false,
        is_ignored: false,
    }
}

fn value(id: i64, account: &str, balance: f64, date: &str) -> AccountValue {
    AccountValue {
        id,
        account_id: account.to_string(),
        balance: money(balance),
        recorded_date: date.to_string(),
    }
}

fn fetch(id: i64, day: &str) -> FetchEntry {
    FetchEntry { id, fetched_at: day.to_string() }
}

fn setting(key: &str, value: &str) -> Setting {
    Setting { key: key.to_string(), value: value.to_string() }
}

fn live() -> Ledger {
    Ledger {
        accounts: vec![account("a", "Live A")],
        values: vec![value(3, "a", 1.0, "2024-01-01"), value(7, "a", 2.0, "2024-01-02")],
        last_value_id: 9,
        fetches: vec![fetch(1, "2024-01-01")],
        last_fetch_id: 1,
        settings: vec![setting("autofetch", "true")],
    }
}

fn other() -> Ledger {
    Ledger {
        accounts: vec![account("b", "Other B"), account("a", "Other A")],
        values: vec![
            value(1, "a", 100.0, "2024-01-02"),
            value(2, "b", 5.0, "2024-01-02"),
            value(3, "a", 6.0, "2024-01-03"),
            value(4, "a", 7.0, "2024-01-03"),
        ],
        last_value_id: 4,
        fetches: vec![fetch(1, "2024-01-01"), fetch(2, "2024-01-03")],
        last_fetch_id: 2,
        settings: vec![setting("autofetch", "false"), setting("backup_dir", "/b")],
    }
}

fn merged() -> Ledger {
    Ledger {
        accounts: vec![account("a", "Live A"), account("b", "Other B")],
        values: vec![
            value(3, "a", 1.0, "2024-01-01"),
            value(7, "a", 2.0, "2024-01-02"),
            value(10, "b", 5.0, "2024-01-02"),
            value(11, "a", 6.0, "2024-01-03"),
            value(12, "a", 7.0, "2024-01-03"),
        ],
        last_value_id: 12,
        fetches: vec![fetch(1, "2024-01-01"), fetch(2, "2024-01-03")],
        last_fetch_id: 2,
        settings: vec![setting("autofetch", "true"), setting("backup_dir", "/b")],
    }
}

#[test]
fn merging_is_a_union_in_which_the_live_rows_win() {
    let mut ledger = live();
    assert_eq!(ledger.merge_one_conflict(&other()), Ok(()));
    assert_eq!(ledger, merged());
    assert!(ledger.is_well_formed());
}

#[test]
fn merging_again_changes_nothing() {
    let mut ledger = merged();
    assert_eq!(ledger.merge_one_conflict(&other()), Ok(()));
    assert_eq!(ledger, merged());
}

#[test]
fn merging_with_itself_changes_nothing() {
    let mut ledger = live();
    assert_eq!(ledger.merge_one_conflict(&live()), Ok(()));
    assert_eq!(ledger, live());
}

#[test]
fn merging_stops_without_identifiers() {
    let mut ledger = live();
    ledger.last_value_id = i64::MAX - 2;
    let before = ledger.clone();
    assert_eq!(ledger.merge_one_conflict(&other()), Err(LedgerError::NoIdLeft));
    assert_eq!(ledger.accounts, merged().accounts);
    assert_eq!(ledger.values, before.values);
    assert_eq!(ledger.fetches, before.fetches);
    assert_eq!(ledger.settings, before.settings);
    let mut ledger = live();
    ledger.last_fetch_id = i64::MAX;
    assert_eq!(ledger.merge_one_conflict(&other()), Err(LedgerError::NoIdLeft));
    assert_eq!(ledger.values, merged().values);
    assert_eq!(ledger.settings, live().settings);
}

#[test]
fn copies_that_failed_are_not_archived() {
    let mut ledger = live();
    ledger.last_value_id = i64::MAX - 1;
    let mut small = Ledger::new();
    small.accounts.push(account("c", "C"));
    small.values.push(value(1, "c", 3.0, "2024-02-01"));
    small.last_value_id = 1;
    let errors = ledger.merge_conflict_copies(&vec![other(), small, live()]);
    assert_eq!(errors, vec![Some(LedgerError::NoIdLeft), None, None]);
    assert_eq!(ledger.accounts.len(), 3);
    assert_eq!(ledger.values.last(), Some(&value(i64::MAX, "c", 3.0, "2024-02-01")));
}

#[test]
fn opening_merges_and_then_seeds_totals() {
    let mut ledger = live();
    let errors = ledger.reconcile(&vec![other()], "2024-01-04", sum);
    assert_eq!(errors, vec![None]);
    let totals: Vec<f64> = ledger
        .values
        .iter()
        .filter(|v| v.account_id == "__total__")
        .map(|v| amount(v.balance))
        .collect();
    assert_eq!(totals, vec![12.0]);
    let opened = ledger.clone();
    assert!(ledger.reconcile(&Vec::new(), "2024-01-05", sum).is_empty());
    assert_eq!(ledger, opened);
}

#[test]
fn stems_lose_every_ending() {
    assert_eq!(file_stem("my_finances.db"), "my_finances");
    assert_eq!(file_stem("a.db.db"), "a");
    assert_eq!(file_stem("a.dbx"), "a.dbx");
    assert_eq!(file_stem(".db"), "");
}

#[test]
fn conflict_copies_are_told_by_name() {
    let names: Vec<String> = [
        "my_finances.db",
        "my_finances (Mac 2).db",
        "my_finances.db-journal",
        "other.db",
        "my_finances 2.db",
        "conflicts",
    ]
    .iter()
    .map(|n| n.to_string())
    .collect();
    assert_eq!(
        conflict_copies(&names, "my_finances.db"),
        vec!["my_finances (Mac 2).db".to_string(), "my_finances 2.db".to_string()]
    );
}

#[test]
fn archive_names_are_numbered() {
    assert_eq!(archive_name("f", "20240101T000000", 1), "f-20240101T000000.db");
    assert_eq!(archive_name("f", "20240101T000000", 2), "f-20240101T000000-2.db");
    assert_eq!(archive_name("f", "20240101T000000", 120), "f-20240101T000000-120.db");
}

#[test]
fn the_first_free_archive_name_is_taken() {
    let mut taken: Vec<String> = Vec::new();
    assert_eq!(free_archive_name(&taken, "f", "s"), "f-s.db");
    taken.push("f-s-2.db".to_string());
    assert_eq!(free_archive_name(&taken, "f", "s"), "f-s.db");
    taken.push("f-s.db".to_string());
    assert_eq!(free_archive_name(&taken, "f", "s"), "f-s-3.db");
}

#[test]
fn archive_stamps_tell_the_second() {
    let m = Moment { secs: 1_704_164_645, nanos: 5 };
    assert!(m.is_valid());
    assert_eq!(archive_stamp(&m), "20240102T030405");
}

#[test]
fn of_several_copies_the_earlier_one_wins() {
    let mut second = Ledger::new();
    second.accounts = vec![account("b", "Second B"), account("c", "Second C")];
    second.values =
        vec![value(1, "b", 50.0, "2024-01-02"), value(2, "c", 8.0, "2024-01-02")];
    second.last_value_id = 2;
    second.settings = vec![setting("backup_dir", "/s"), setting("backup_frequency", "daily")];
    let mut ledger = live();
    assert_eq!(ledger.merge_conflict_copies(&vec![other(), second]), vec![None, None]);
    let mut expected = merged();
    expected.accounts.push(account("c", "Second C"));
    expected.values.push(value(13, "c", 8.0, "2024-01-02"));
    expected.last_value_id = 13;
    expected.settings.push(setting("backup_frequency", "daily"));
    assert_eq!(ledger, expected);
}

#[test]
fn values_without_an_account_are_refused() {
    let mut copy = other();
    copy.values.push(value(5, "ghost", 9.0, "2024-01-09"));
    copy.last_value_id = 5;
    let mut ledger = live();
    assert_eq!(ledger.merge_one_conflict(&copy), Err(LedgerError::UnknownAccount));
    assert_eq!(LedgerError::UnknownAccount.message(), "FOREIGN KEY constraint failed");
    // The accounts were taken over, and nothing else.
    let mut expected = live();
    expected.accounts = merged().accounts;
    assert_eq!(ledger, expected);
    // An account of the live ledger or of an earlier copy will do.
    let mut first = Ledger::new();
    first.accounts.push(account("ghost", "Ghost"));
    let mut ledger = live();
    assert_eq!(
        ledger.merge_conflict_copies(&vec![copy.clone(), first, copy]),
        vec![Some(LedgerError::UnknownAccount), None, None]
    );
    assert_eq!(ledger.values.last(), Some(&value(13, "ghost", 9.0, "2024-01-09")));
}

#[test]
fn values_of_taken_days_need_no_account() {
    let mut ledger = live();
    ledger.values.push(value(8, "gone", 1.0, "2024-01-09"));
    let mut copy = Ledger::new();
    copy.values.push(value(1, "gone", 2.0, "2024-01-09"));
    copy.last_value_id = 1;
    let before = ledger.clone();
    assert_eq!(ledger.merge_one_conflict(&copy), Ok(()));
    assert_eq!(ledger, before);
}
