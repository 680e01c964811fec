use my_finances::dates::lookback_date;
use my_finances::ledger::{Ledger, LedgerError};
use my_finances::model::{Account, AccountValue, BalanceChange};
use my_finances::Balance;

fn money(x: f64) -> Balance {
    Balance::from_bits(x.to_bits())
}

fn account(id: &str, institution: &str, name: &str) -> Account {
    Account {
        id: id.to_string(),
        name: name.to_string(),
        account_type: "Savings".to_string(),
        institution: institution.to_string(),
        currency: "NZD".to_string(),
        is_manual: false,
        is_ignored: false,
    }
}

fn value(id: i64, account: &str, balance: f64, date: &str) -> AccountValue {
    AccountValue {
        id,
        account_id: account.to_string(),
        balance: money(balance),
        recorded_date: date.to_string(),
    }
}

fn ledger(accounts: Vec<Account>, values: Vec<AccountValue>) -> Ledger {
    let last_value_id = values.last().map(|v| v.id).unwrap_or(0);
    let ledger = Ledger {
        accounts,
        values,
        last_value_id,
        fetches: Vec::new(),
        last_fetch_id: 0,
        settings: Vec::new(),
    };
    assert!(ledger.is_well_formed());
    ledger
}

fn ids(accounts: &[Account]) -> Vec<&str> {
    accounts.iter().map(|a| a.id.as_str()).collect()
}

#[test]
fn the_dashboard_lists_totals_first() {
    let mut hidden = account("h", "A", "A");
    hidden.is_ignored = true;
    let l = ledger(
        vec![
            account("z", "Bank", "Zed"),
            hidden,
            account("__liabilities_total__", "", "Liabilities Total"),
            account("y", "Bank", "Abe"),
            account("x", "ANZ", "Zoe"),
            account("__total__", "", "Total"),
            account("__assets_total__", "", "Assets Total"),
        ],
        Vec::new(),
    );
    let shown: Vec<Account> = l.get_accounts_summary().into_iter().map(|s| s.account).collect();
    assert_eq!(
        ids(&shown),
        vec!["__total__", "__assets_total__", "__liabilities_total__", "x", "y", "z"]
    );
}

#[test]
fn the_configuration_lists_manual_accounts_last() {
    let mut manual = account("m", "AAA", "AAA");
    manual.is_manual = true;
    let mut hidden = account("h", "B", "B");
    hidden.is_ignored = true;
    let l = ledger(
        vec![
            manual,
            account("__total__", "", "Total"),
            account("c", "C", "C"),
            hidden,
            account("a", "B", "A"),
        ],
        Vec::new(),
    );
    assert_eq!(ids(&l.get_all_accounts_config()), vec!["a", "h", "c", "m"]);
}

#[test]
fn names_are_ordered_by_code_point() {
    let l = ledger(
        vec![account("1", "bank", ""), account("2", "Bank", ""), account("3", "", "")],
        Vec::new(),
    );
    assert_eq!(ids(&l.get_all_accounts_config()), vec!["3", "2", "1"]);
}

#[test]
fn a_summary_shows_the_value_added_last_and_the_highest() {
    let l = ledger(
        vec![account("a", "", "a"), account("b", "", "b")],
        vec![
            value(1, "a", 5.0, "2024-01-05"),
            value(2, "a", 9.0, "2024-01-06"),
            value(3, "a", 7.0, "2024-01-01"),
        ],
    );
    let s = l.get_accounts_summary();
    assert_eq!(s.len(), 2);
    assert_eq!(s[0].latest_balance, Some(money(7.0)));
    assert_eq!(s[0].latest_date, Some("2024-01-01".to_string()));
    assert_eq!(s[0].max_balance, Some(money(9.0)));
    assert_eq!(s[1].account.id, "b");
    assert_eq!(s[1].latest_balance, None);
    assert_eq!(s[1].latest_date, None);
    assert_eq!(s[1].max_balance, None);
}

#[test]
fn a_history_is_ordered_by_day() {
    let l = ledger(
        vec![account("a", "", "a"), account("b", "", "b")],
        vec![
            value(1, "a", 5.0, "2024-01-05"),
            value(2, "b", 1.0, "2024-01-05"),
            value(3, "a", -9.0, "2024-01-06"),
            value(4, "a", 7.0, "2024-01-01"),
            value(5, "a", 6.0, "2024-01-05"),
        ],
    );
    let h = l.get_account_history("a").unwrap();
    let order: Vec<i64> = h.values.iter().map(|v| v.id).collect();
    assert_eq!(order, vec![4, 1, 5, 3]);
    assert_eq!(h.account, l.accounts[0]);
    assert_eq!(h.current_balance, Some(money(-9.0)));
    assert_eq!(h.min_balance, Some(money(-9.0)));
    assert_eq!(h.max_balance, Some(money(7.0)));
}

#[test]
fn extremes_are_finite() {
    let l = ledger(
        vec![account("a", "", "a"), account("b", "", "b")],
        vec![value(1, "a", f64::INFINITY, "2024-01-05"), value(2, "a", 3.0, "2024-01-06")],
    );
    let h = l.get_account_history("a").unwrap();
    assert_eq!(h.max_balance, None);
    assert_eq!(h.min_balance, Some(money(3.0)));
    let none = l.get_account_history("b").unwrap();
    assert!(none.values.is_empty());
    assert_eq!(none.current_balance, None);
    assert_eq!(none.min_balance, None);
    assert_eq!(none.max_balance, None);
}

#[test]
fn an_unknown_account_has_no_history() {
    let l = ledger(Vec::new(), Vec::new());
    assert_eq!(l.get_account_history("a"), Err(LedgerError::AccountNotFound));
}

#[test]
fn lookback_crosses_months_and_years() {
    assert_eq!(lookback_date("2024-03-30", 30), Some("2024-02-29".to_string()));
    assert_eq!(lookback_date("2023-03-30", 30), Some("2023-02-28".to_string()));
    assert_eq!(lookback_date("2024-01-10", 360), Some("2023-01-15".to_string()));
    assert_eq!(lookback_date("2024-01-10", 0), Some("2024-01-10".to_string()));
    assert_eq!(lookback_date("not a day", 30), None);
    assert_eq!(lookback_date("2024-02-30", 30), None);
}

#[test]
fn lookback_ends_with_the_calendar() {
    assert_eq!(lookback_date("-262143-01-01", 0), Some("-262143-01-01".to_string()));
    assert_eq!(lookback_date("-262143-01-01", 1), None);
}

#[test]
fn changes_are_measured_from_the_newest_earlier_value() {
    let l = ledger(
        vec![account("a", "", "a")],
        vec![
            value(1, "a", 100.0, "2023-12-01"),
            value(2, "a", 110.0, "2024-01-01"),
            value(3, "a", 120.0, "2024-02-20"),
            value(4, "a", 130.0, "2024-03-30"),
        ],
    );
    let c = l.get_account_changes("a", "2024-03-30");
    assert_eq!(c.len(), 3);
    assert_eq!(c[0].period, "30d");
    assert_eq!(c[0].previous_balance, Some(money(120.0)));
    assert_eq!(c[0].previous_date, Some("2024-02-20".to_string()));
    let change = BalanceChange { current: money(130.0), previous: money(120.0) };
    assert_eq!(c[0].change_amount, Some(change));
    assert_eq!(c[0].change_percent, Some(change));
    assert_eq!(c[1].period, "180d");
    assert_eq!(c[1].previous_balance, None);
    assert_eq!(c[1].previous_date, None);
    assert_eq!(c[1].change_amount, None);
    assert_eq!(c[1].change_percent, None);
    assert_eq!(c[2].period, "360d");
}

#[test]
fn a_value_on_the_day_itself_counts() {
    let l = ledger(
        vec![account("a", "", "a")],
        vec![
            value(1, "a", 50.0, "2024-02-29"),
            value(2, "a", 55.0, "2024-03-01"),
            value(3, "a", 60.0, "2024-03-30"),
        ],
    );
    let c = l.get_account_changes("a", "2024-03-30");
    assert_eq!(c[0].previous_balance, Some(money(50.0)));
    assert_eq!(c[0].previous_date, Some("2024-02-29".to_string()));
}

#[test]
fn there_is_no_percentage_of_nothing() {
    let l = ledger(
        vec![account("a", "", "a")],
        vec![value(1, "a", -0.0, "2024-01-01"), value(2, "a", 60.0, "2024-03-30")],
    );
    let c = l.get_account_changes("a", "2024-03-30");
    assert_eq!(
        c[0].change_amount,
        Some(BalanceChange { current: money(60.0), previous: money(-0.0) })
    );
    assert_eq!(c[0].change_percent, None);
}

#[test]
fn without_a_day_to_look_back_to_nothing_is_reported() {
    let l = ledger(vec![account("a", "", "a")], vec![value(1, "a", 5.0, "2024-01-01")]);
    let c = l.period_change("a", "30d", None);
    assert_eq!(c.previous_balance, None);
    assert_eq!(c.change_amount, None);
    let c = l.get_account_changes("a", "yesterday");
    assert!(c.iter().all(|c| c.previous_balance.is_none() && c.change_amount.is_none()));
    let c = l.get_account_changes("nobody", "2024-03-30");
    assert!(c.iter().all(|c| c.previous_balance.is_none() && c.change_amount.is_none()));
}

#[test]
fn the_history_ends_where_changes_are_measured() {
    let l = ledger(
        vec![account("a", "", "a")],
        vec![
            value(1, "a", 10.0, "2024-01-01"),
            value(2, "a", 40.0, "2024-03-30"),
            value(3, "a", 30.0, "2024-03-30"),
            value(4, "a", 20.0, "2024-03-01"),
        ],
    );
    let h = l.get_account_history("a").unwrap();
    let c = l.get_account_changes("a", "2024-03-30");
    assert_eq!(h.current_balance, Some(money(30.0)));
    assert_eq!(c[0].change_amount.map(|change| change.current), h.current_balance);
    assert!(h.min_balance.unwrap().key <= h.current_balance.unwrap().key);
    assert!(h.current_balance.unwrap().key <= h.max_balance.unwrap().key);
}

#[test]
fn the_highest_balance_is_at_least_the_latest() {
    let l = ledger(
        vec![account("a", "", "a")],
        vec![value(1, "a", -5.0, "2024-01-01"), value(2, "a", -3.0, "2024-01-02")],
    );
    let s = l.get_accounts_summary();
    assert_eq!(s[0].latest_balance, Some(money(-3.0)));
    assert_eq!(s[0].max_balance, s[0].latest_balance);
}
