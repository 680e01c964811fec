use my_finances::ledger::{Ledger, LedgerError};
use my_finances::manual::check_can_hide;
use my_finances::model::{AddManualAccountRequest, AddManualValueRequest, AccountValue};
use my_finances::Balance;

fn money(x: f64) -> Balance {
    Balance::from_bits(x.to_bits())
}

fn amount(b: Balance) -> f64 {
    f64::from_bits(b.to_bits())
}

fn sum(v: &Vec<Balance>) -> Balance {
    money(v.iter().map(|b| amount(*b)).sum())
}

fn house() -> AddManualAccountRequest {
    AddManualAccountRequest {
        name: "House".to_string(),
        account_type: "Property".to_string(),
        institution: "Self".to_string(),
    }
}

fn with_house() -> Ledger {
    let mut ledger = Ledger::new();
    assert!(ledger.add_manual_account_as("manual_1".to_string(), house()).is_ok());
    ledger
}

fn entry(account_id: &str, balance: f64) -> AddManualValueRequest {
    AddManualValueRequest { account_id: account_id.to_string(), balance: money(balance) }
}

fn values_of(ledger: &Ledger, id: &str) -> Vec<AccountValue> {
    ledger.values.iter().filter(|v| v.account_id == id).cloned().collect()
}

fn total(ledger: &Ledger, date: &str) -> Option<f64> {
    ledger
        .values
        .iter()
        .find(|v| v.account_id == "__total__" && v.recorded_date == date)
        .map(|v| amount(v.balance))
}

#[test]
fn manual_accounts_get_random_identifiers() {
    let mut ledger = Ledger::new();
    let first = ledger.add_manual_account(house()).unwrap();
    let second = ledger.add_manual_account(house()).unwrap();
    assert_ne!(first.id, second.id);
    assert_eq!(first.id.len(), 43);
    assert!(first.id.starts_with("manual_"));
    let parts: Vec<usize> = first.id["manual_".len()..].split('-').map(|p| p.len()).collect();
    assert_eq!(parts, vec![8, 4, 4, 4, 12]);
    assert_eq!(first.id.as_bytes()["manual_".len() + 14], b'4');
    assert_eq!(ledger.accounts, vec![first.clone(), second]);
    assert_eq!(first.name, "House");
    assert_eq!(first.account_type, "Property");
    assert_eq!(first.institution, "Self");
    assert_eq!(first.currency, "NZD");
    assert!(first.is_manual);
    assert!(!first.is_ignored);
}

#[test]
fn an_identifier_is_used_once() {
    let mut ledger = with_house();
    let before = ledger.clone();
    let again = ledger.add_manual_account_as("manual_1".to_string(), house());
    assert_eq!(again, Err(LedgerError::DuplicateAccount));
    assert_eq!(ledger, before);
    assert_eq!(
        LedgerError::DuplicateAccount.message(),
        "UNIQUE constraint failed: accounts.id"
    );
}

#[test]
fn manual_values_go_into_the_total() {
    let mut ledger = with_house();
    assert_eq!(ledger.add_manual_account_value(entry("manual_1", 500.5), "2024-05-01", sum), Ok(()));
    let rows = values_of(&ledger, "manual_1");
    assert_eq!(rows.len(), 1);
    assert_eq!(rows[0].balance, money(500.5));
    assert_eq!(rows[0].recorded_date, "2024-05-01");
    assert_eq!(total(&ledger, "2024-05-01"), Some(500.5));
}

#[test]
fn several_manual_values_a_day_are_kept() {
    let mut ledger = with_house();
    assert_eq!(ledger.add_manual_account_value(entry("manual_1", 1.0), "2024-05-01", sum), Ok(()));
    assert_eq!(ledger.add_manual_account_value(entry("manual_1", 2.0), "2024-05-01", sum), Ok(()));
    assert_eq!(values_of(&ledger, "manual_1").len(), 2);
    assert_eq!(total(&ledger, "2024-05-01"), Some(2.0));
}

#[test]
fn values_cannot_be_added_elsewhere() {
    let mut ledger = with_house();
    ledger.accounts[0].is_manual = false;
    let before = ledger.clone();
    let refused = ledger.add_manual_account_value(entry("manual_1", 1.0), "2024-05-01", sum);
    assert_eq!(refused, Err(LedgerError::AddToForeignAccount));
    let missing = ledger.add_manual_account_value(entry("nobody", 1.0), "2024-05-01", sum);
    assert_eq!(missing, Err(LedgerError::AccountNotFound));
    assert_eq!(ledger, before);
    assert_eq!(
        LedgerError::AddToForeignAccount.message(),
        "Can only add values to manual accounts"
    );
    assert_eq!(
        LedgerError::AccountNotFound.message(),
        "Account not found: Query returned no rows"
    );
}

#[test]
fn unusable_manual_values_are_refused() {
    let mut ledger = with_house();
    let refused = ledger.add_manual_account_value(entry("manual_1", f64::NAN), "2024-05-01", sum);
    assert_eq!(refused, Err(LedgerError::NotANumber));
    ledger.last_value_id = i64::MAX;
    let refused = ledger.add_manual_account_value(entry("manual_1", 1.0), "2024-05-01", sum);
    assert_eq!(refused, Err(LedgerError::NoIdLeft));
}

#[test]
fn deleting_undoes_adding() {
    let mut ledger = with_house();
    assert_eq!(ledger.add_manual_account_value(entry("manual_1", 10.0), "2024-05-01", sum), Ok(()));
    let before = values_of(&ledger, "manual_1");
    assert_eq!(ledger.add_manual_account_value(entry("manual_1", 99.0), "2024-05-02", sum), Ok(()));
    assert_eq!(total(&ledger, "2024-05-02"), Some(99.0));
    let deleted = ledger.delete_last_manual_value("manual_1", "2024-05-02", sum).unwrap().unwrap();
    assert_eq!(deleted.balance, money(99.0));
    assert_eq!(deleted.recorded_date, "2024-05-02");
    assert_eq!(values_of(&ledger, "manual_1"), before);
    assert_eq!(total(&ledger, "2024-05-02"), Some(10.0));
}

#[test]
fn deleting_takes_the_value_added_last() {
    let mut ledger = with_house();
    assert_eq!(ledger.add_manual_account_value(entry("manual_1", 1.0), "2024-05-09", sum), Ok(()));
    assert_eq!(ledger.add_manual_account_value(entry("manual_1", 2.0), "2024-05-01", sum), Ok(()));
    let deleted = ledger.delete_last_manual_value("manual_1", "2024-05-09", sum).unwrap().unwrap();
    assert_eq!(deleted.recorded_date, "2024-05-01");
}

#[test]
fn there_may_be_nothing_to_delete() {
    let mut ledger = with_house();
    let before = ledger.clone();
    assert_eq!(ledger.delete_last_manual_value("manual_1", "2024-05-01", sum), Ok(None));
    assert_eq!(ledger, before);
}

#[test]
fn values_cannot_be_deleted_elsewhere() {
    let mut ledger = with_house();
    ledger.accounts[0].is_manual = false;
    let refused = ledger.delete_last_manual_value("manual_1", "2024-05-01", sum);
    assert_eq!(refused, Err(LedgerError::DeleteFromForeignAccount));
    let missing = ledger.delete_last_manual_value("nobody", "2024-05-01", sum);
    assert_eq!(missing, Err(LedgerError::AccountNotFound));
    assert_eq!(
        LedgerError::DeleteFromForeignAccount.message(),
        "Can only delete values from manual accounts"
    );
}

#[test]
fn hidden_accounts_leave_the_total() {
    let mut ledger = with_house();
    assert_eq!(ledger.add_manual_account_value(entry("manual_1", 5.0), "2024-05-01", sum), Ok(()));
    assert_eq!(ledger.toggle_ignore_account("manual_1", "2024-05-01", sum), Ok(true));
    assert!(ledger.accounts[0].is_ignored);
    assert_eq!(total(&ledger, "2024-05-01"), Some(0.0));
    assert_eq!(ledger.toggle_ignore_account("manual_1", "2024-05-01", sum), Ok(false));
    assert!(!ledger.accounts[0].is_ignored);
    assert_eq!(total(&ledger, "2024-05-01"), Some(5.0));
}

#[test]
fn virtual_accounts_cannot_be_hidden() {
    let mut ledger = with_house();
    assert_eq!(ledger.recompute_total("2024-05-01", sum), Ok(()));
    let before = ledger.clone();
    for id in ["__total__", "__assets_total__", "__liabilities_total__", "__x"] {
        let refused = ledger.toggle_ignore_account(id, "2024-05-01", sum);
        assert_eq!(refused, Err(LedgerError::VirtualAccount));
        assert_eq!(check_can_hide(id), Err(LedgerError::VirtualAccount));
    }
    let missing = ledger.toggle_ignore_account("_x", "2024-05-01", sum);
    assert_eq!(missing, Err(LedgerError::NoSuchRow));
    assert_eq!(check_can_hide("_x"), Ok(()));
    assert_eq!(ledger, before);
    assert_eq!(LedgerError::VirtualAccount.message(), "Cannot ignore virtual accounts");
    assert_eq!(LedgerError::NoSuchRow.message(), "Query returned no rows");
}
