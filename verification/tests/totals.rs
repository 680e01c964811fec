use my_finances::ledger::{Ledger, LedgerError};
use my_finances::model::{Account, AccountValue};
use my_finances::Balance;

fn money(x: f64) -> Balance {
    Balance::from_bits(x.to_bits())
}

fn amount(b: Balance) -> f64 {
    f64::from_bits(b.to_bits())
}

fn sum(v: &Vec<Balance>) -> Balance {
    money(v.iter().map(|b| amount(*b)).sum())
}

fn account(id: &str, ignored: bool) -> Account {
    Account {
        id: id.to_string(),
        name: id.to_uppercase(),
        account_type: "Savings".to_string(),
        institution: "Bank".to_string(),
        currency: "NZD".to_string(),
        is_manual: false,
        is_ignored: ignored,
    }
}

fn value(id: i64, account: &str, balance: f64, date: &str) -> AccountValue {
    AccountValue {
        id,
        account_id: account.to_string(),
        balance: money(balance),
        recorded_date: date.to_string(),
    }
}

fn sample() -> Ledger {
    Ledger {
        accounts: vec![account("a", false), account("b", false), account("c", true)],
        values: vec![
            value(1, "a", 100.0, "2024-01-01"),
            value(2, "b", -30.0, "2024-01-01"),
            value(3, "c", 1000.0, "2024-01-01"),
            value(4, "a", 150.0, "2024-01-02"),
        ],
        last_value_id: 4,
        fetches: Vec::new(),
        last_fetch_id: 0,
        settings: Vec::new(),
    }
}

fn on_day(ledger: &Ledger, id: &str, date: &str) -> Vec<f64> {
    ledger
        .values
        .iter()
        .filter(|v| v.account_id == id && v.recorded_date == date)
        .map(|v| amount(v.balance))
        .collect()
}

#[test]
fn totals_use_the_latest_balances_of_shown_accounts() {
    let mut ledger = sample();
    assert!(ledger.is_well_formed());
    assert_eq!(ledger.recompute_total("2024-01-03", sum), Ok(()));
    assert_eq!(on_day(&ledger, "__total__", "2024-01-03"), vec![120.0]);
    assert_eq!(on_day(&ledger, "__assets_total__", "2024-01-03"), vec![150.0]);
    assert_eq!(on_day(&ledger, "__liabilities_total__", "2024-01-03"), vec![-30.0]);
    assert!(ledger.is_well_formed());
}

#[test]
fn virtual_accounts_are_created_once() {
    let mut ledger = sample();
    assert_eq!(ledger.recompute_total("2024-01-03", sum), Ok(()));
    assert_eq!(ledger.recompute_total("2024-01-03", sum), Ok(()));
    let names: Vec<&str> = ledger.accounts[3..].iter().map(|a| a.name.as_str()).collect();
    assert_eq!(names, vec!["Total", "Assets Total", "Liabilities Total"]);
    let total = &ledger.accounts[3];
    assert_eq!(total.id, "__total__");
    assert_eq!(total.account_type, "");
    assert_eq!(total.institution, "");
    assert_eq!(total.currency, "NZD");
    assert!(!total.is_manual);
    assert!(!total.is_ignored);
}

#[test]
fn one_total_per_day() {
    let mut ledger = sample();
    for _ in 0..3 {
        assert_eq!(ledger.recompute_total("2024-01-03", sum), Ok(()));
    }
    assert_eq!(ledger.recompute_total("2024-01-04", sum), Ok(()));
    assert_eq!(on_day(&ledger, "__total__", "2024-01-03").len(), 1);
    assert_eq!(on_day(&ledger, "__total__", "2024-01-04").len(), 1);
    assert_eq!(on_day(&ledger, "a", "2024-01-01"), vec![100.0]);
}

#[test]
fn stored_totals_do_not_count() {
    let mut ledger = sample();
    assert_eq!(ledger.recompute_total("2024-01-03", sum), Ok(()));
    let parts = ledger.total_parts();
    assert_eq!(parts.all, vec![money(-30.0), money(150.0)]);
    assert_eq!(parts.assets, vec![money(150.0)]);
    assert_eq!(parts.liabilities, vec![money(-30.0)]);
}

#[test]
fn nothing_adds_up_to_zero() {
    let mut ledger = Ledger::new();
    assert_eq!(ledger.recompute_total("2024-01-03", sum), Ok(()));
    assert_eq!(on_day(&ledger, "__total__", "2024-01-03"), vec![0.0]);
    assert_eq!(on_day(&ledger, "__liabilities_total__", "2024-01-03"), vec![0.0]);
}

#[test]
fn a_sum_that_is_no_number_counts_as_zero() {
    let mut ledger = sample();
    ledger.values[1].balance = money(f64::NEG_INFINITY);
    ledger.values[3].balance = money(f64::INFINITY);
    assert_eq!(ledger.recompute_total("2024-01-03", sum), Ok(()));
    assert_eq!(on_day(&ledger, "__total__", "2024-01-03"), vec![0.0]);
    assert_eq!(on_day(&ledger, "__assets_total__", "2024-01-03"), vec![f64::INFINITY]);
}

#[test]
fn zero_is_an_asset() {
    let mut ledger = sample();
    ledger.values[1].balance = money(-0.0);
    let parts = ledger.total_parts();
    assert_eq!(parts.assets.len(), 2);
    assert!(parts.liabilities.is_empty());
}

#[test]
fn upsert_replaces_the_day() {
    let mut ledger = sample();
    assert_eq!(ledger.upsert_daily_total("a", money(7.0), "2024-01-01"), Ok(()));
    assert_eq!(on_day(&ledger, "a", "2024-01-01"), vec![7.0]);
    assert_eq!(on_day(&ledger, "a", "2024-01-02"), vec![150.0]);
    assert_eq!(ledger.last_value_id, 5);
    assert_eq!(ledger.values.last().map(|v| v.id), Some(5));
}

#[test]
fn totals_fail_without_identifiers() {
    let mut ledger = sample();
    ledger.last_value_id = i64::MAX;
    assert_eq!(ledger.recompute_total("2024-01-03", sum), Err(LedgerError::NoIdLeft));
    assert_eq!(LedgerError::NoIdLeft.message(), "database or disk is full");
    assert!(on_day(&ledger, "__total__", "2024-01-03").is_empty());
    // Identifiers for two more values only.
    let mut ledger = sample();
    ledger.last_value_id = i64::MAX - 2;
    assert_eq!(ledger.recompute_total("2024-01-03", sum), Err(LedgerError::NoIdLeft));
    assert_eq!(on_day(&ledger, "__assets_total__", "2024-01-03"), vec![150.0]);
    assert!(on_day(&ledger, "__liabilities_total__", "2024-01-03").is_empty());
}

#[test]
fn a_value_has_to_be_a_number() {
    let mut ledger = sample();
    assert_eq!(
        ledger.upsert_daily_total("a", money(f64::NAN), "2024-01-02"),
        Err(LedgerError::NotANumber)
    );
    assert!(on_day(&ledger, "a", "2024-01-02").is_empty());
    assert_eq!(
        LedgerError::NotANumber.message(),
        "NOT NULL constraint failed: account_values.balance"
    );
}

#[test]
fn totals_are_seeded_only_where_missing() {
    let mut ledger = sample();
    ledger.seed_total_if_missing("2024-01-03", sum);
    assert_eq!(on_day(&ledger, "__total__", "2024-01-03"), vec![120.0]);
    let seeded = ledger.clone();
    ledger.seed_total_if_missing("2024-01-04", sum);
    assert_eq!(ledger, seeded);
    ledger.values.retain(|v| v.account_id != "__assets_total__");
    ledger.seed_total_if_missing("2024-01-04", sum);
    assert_eq!(on_day(&ledger, "__assets_total__", "2024-01-04"), vec![150.0]);
}

#[test]
fn malformed_rows_are_recognised() {
    assert!(Ledger::new().is_well_formed());
    let mut ledger = sample();
    ledger.accounts.push(account("a", false));
    assert!(!ledger.is_well_formed());
    let mut ledger = sample();
    ledger.values.swap(0, 1);
    assert!(!ledger.is_well_formed());
    let mut ledger = sample();
    ledger.last_value_id = 3;
    assert!(!ledger.is_well_formed());
    let mut ledger = sample();
    ledger.values[0].balance = money(f64::NAN);
    assert!(!ledger.is_well_formed());
    let mut ledger = sample();
    ledger.last_fetch_id = -1;
    assert!(!ledger.is_well_formed());
    let mut ledger = sample();
    ledger.set_setting("k", "v");
    ledger.settings.push(ledger.settings[0].clone());
    assert!(!ledger.is_well_formed());
}

#[test]
fn recomputing_again_leaves_everything_as_it_was() {
    let mut ledger = sample();
    assert_eq!(ledger.recompute_total("2024-01-02", sum), Ok(()));
    let first: Vec<Vec<f64>> = ["__total__", "__assets_total__", "__liabilities_total__"]
        .iter()
        .map(|id| on_day(&ledger, id, "2024-01-02"))
        .collect();
    assert_eq!(first, vec![vec![120.0], vec![150.0], vec![-30.0]]);
    let accounts = ledger.accounts.clone();
    for _ in 0..3 {
        assert_eq!(ledger.recompute_total("2024-01-02", sum), Ok(()));
        let again: Vec<Vec<f64>> = ["__total__", "__assets_total__", "__liabilities_total__"]
            .iter()
            .map(|id| on_day(&ledger, id, "2024-01-02"))
            .collect();
        assert_eq!(again, first);
        assert_eq!(ledger.accounts, accounts);
        assert_eq!(ledger.values[..4], sample().values[..]);
        assert_eq!(ledger.values.len(), 7);
    }
}

#[test]
fn a_value_needs_an_account() {
    let mut ledger = sample();
    let before = ledger.clone();
    assert_eq!(
        ledger.upsert_daily_total("nobody", money(1.0), "2024-01-02"),
        Err(LedgerError::UnknownAccount)
    );
    assert_eq!(ledger, before);
    assert_eq!(
        ledger.record_totals("2024-01-02", money(1.0), money(1.0), money(0.0)),
        Err(LedgerError::UnknownAccount)
    );
    assert_eq!(ledger, before);
}
