use my_finances::akahu::{
    after_check, after_list, after_start, after_wait, choose_credentials, has_credentials,
    wait_step, AkahuAccount, AkahuApiResponse, AkahuBalance, AkahuCall, AkahuConnection,
    AkahuInstitution, AkahuRefreshItem, FetchStep, Reply,
};
use my_finances::ledger::{Ledger, LedgerError};
use my_finances::Balance;

fn money(x: f64) -> Balance {
    Balance::from_bits(x.to_bits())
}

fn amount(b: Balance) -> f64 {
    f64::from_bits(b.to_bits())
}

fn sum(v: &Vec<Balance>) -> Balance {
    money(v.iter().map(|b| amount(*b)).sum())
}

fn account(id: &str, balance: f64, currency: Option<&str>) -> AkahuAccount {
    AkahuAccount {
        id: id.to_string(),
        name: format!("Name {}", id),
        account_type: Some("CHECKING".to_string()),
        connection: Some(AkahuConnection {
            institution: Some(AkahuInstitution { name: Some("Kiwi".to_string()) }),
            name: Some("Connection".to_string()),
        }),
        balance: Some(AkahuBalance {
            current: Some(money(balance)),
            currency: currency.map(|c| c.to_string()),
        }),
    }
}

fn received<T>(status: u16, body: &str, data: AkahuApiResponse<T>) -> Reply<T> {
    Reply::Received { status, body: body.to_string(), parsed: Ok(data) }
}

fn refresh(id: &str, status: Option<&str>) -> AkahuApiResponse<AkahuRefreshItem> {
    AkahuApiResponse {
        success: true,
        items: None,
        item: Some(AkahuRefreshItem {
            id: id.to_string(),
            status: status.map(|s| s.to_string()),
        }),
        message: None,
    }
}

fn fails(step: FetchStep) -> String {
    match step {
        FetchStep::Finish { outcome: Err(message) } => message,
        other => panic!("{:?}", other),
    }
}

fn day(ledger: &Ledger, id: &str, date: &str) -> Vec<f64> {
    ledger
        .values
        .iter()
        .filter(|v| v.account_id == id && v.recorded_date == date)
        .map(|v| amount(v.balance))
        .collect()
}

#[test]
fn requests_carry_the_credentials() {
    let r = AkahuCall::StartRefresh.request("app", "user");
    assert!(r.post);
    assert_eq!(r.url, "https://api.akahu.io/v1/refresh");
    let headers: Vec<(&str, &str)> =
        r.headers.iter().map(|h| (h.0.as_str(), h.1.as_str())).collect();
    assert_eq!(
        headers,
        vec![
            ("Authorization", "Bearer user"),
            ("X-Akahu-Id", "app"),
            ("Accept", "application/json"),
        ]
    );
    let r = AkahuCall::RefreshStatus { id: "r1".to_string() }.request("app", "user");
    assert!(!r.post);
    assert_eq!(r.url, "https://api.akahu.io/v1/refresh/r1");
    let r = AkahuCall::ListAccounts.request("app", "user");
    assert!(!r.post);
    assert_eq!(r.url, "https://api.akahu.io/v1/accounts");
}

#[test]
fn failed_requests_are_reported() {
    assert_eq!(
        fails(after_start(Reply::Unsent("down".to_string()))),
        "HTTP error triggering refresh: down"
    );
    assert_eq!(
        fails(after_check("r".to_string(), Reply::Unsent("down".to_string()))),
        "HTTP error checking refresh: down"
    );
    assert_eq!(
        fails(after_list(Reply::Unsent("down".to_string()))),
        "HTTP error fetching accounts: down"
    );
}

#[test]
fn unread_bodies_are_reported() {
    assert_eq!(
        fails(after_start(Reply::Unread("cut".to_string()))),
        "Failed to read refresh response: cut"
    );
    assert_eq!(
        fails(after_check("r".to_string(), Reply::Unread("cut".to_string()))),
        "Failed to read refresh status: cut"
    );
    assert_eq!(
        fails(after_list(Reply::Unread("cut".to_string()))),
        "Failed to read accounts response: cut"
    );
}

#[test]
fn http_errors_quote_the_body() {
    let body = "x".repeat(201);
    let expected = format!("Akahu refresh returned HTTP 401: {}...", "x".repeat(200));
    assert_eq!(fails(after_start(received(401, &body, refresh("r", None)))), expected);
    assert_eq!(
        fails(after_check("r".to_string(), received(500, "oops", refresh("r", None)))),
        "Refresh status HTTP 500: oops"
    );
    let list: Reply<AkahuAccount> =
        Reply::Received { status: 300, body: "moved".to_string(), parsed: Err("no".to_string()) };
    assert_eq!(fails(after_list(list)), "Akahu accounts returned HTTP 300: moved");
}

#[test]
fn unparsed_bodies_are_quoted() {
    let reply: Reply<AkahuRefreshItem> =
        Reply::Received { status: 200, body: "{".to_string(), parsed: Err("EOF".to_string()) };
    assert_eq!(fails(after_start(reply)), "Failed to parse refresh response: EOF. Body: {");
    let reply: Reply<AkahuRefreshItem> =
        Reply::Received { status: 299, body: "{".to_string(), parsed: Err("EOF".to_string()) };
    assert_eq!(
        fails(after_check("r".to_string(), reply)),
        "Failed to parse refresh status: EOF. Body: {"
    );
    let reply: Reply<AkahuAccount> =
        Reply::Received { status: 200, body: "{".to_string(), parsed: Err("EOF".to_string()) };
    assert_eq!(fails(after_list(reply)), "Failed to parse accounts response: EOF. Body: {");
}

#[test]
fn refusals_by_akahu_are_passed_on() {
    let mut refused = refresh("r", None);
    refused.success = false;
    assert_eq!(fails(after_start(received(200, "", refused))), "Unknown error");
    let refused: AkahuApiResponse<AkahuAccount> = AkahuApiResponse {
        success: false,
        items: None,
        item: None,
        message: Some("No access".to_string()),
    };
    assert_eq!(fails(after_list(received(200, "", refused))), "No access");
}

#[test]
fn a_started_refresh_is_waited_for() {
    assert_eq!(
        after_start(received(200, "", refresh("r1", None))),
        FetchStep::Wait { refresh_id: "r1".to_string() }
    );
    let nothing: AkahuApiResponse<AkahuRefreshItem> =
        AkahuApiResponse { success: true, items: None, item: None, message: None };
    assert_eq!(after_start(received(200, "", nothing)), FetchStep::ListAccounts);
}

#[test]
fn waiting_is_limited() {
    assert_eq!(
        after_wait("r1".to_string(), 0),
        FetchStep::CheckRefresh { refresh_id: "r1".to_string(), pause_secs: 3 }
    );
    assert_eq!(
        after_wait("r1".to_string(), 119),
        FetchStep::CheckRefresh { refresh_id: "r1".to_string(), pause_secs: 3 }
    );
    assert_eq!(fails(after_wait("r1".to_string(), 120)), "Refresh timed out");
    let mut looks = 0;
    let mut elapsed = 0;
    while let FetchStep::CheckRefresh { pause_secs, .. } = after_wait("r1".to_string(), elapsed) {
        looks += 1;
        elapsed += pause_secs;
    }
    assert_eq!(looks, 40);
}

#[test]
fn the_status_decides() {
    let check = |status: Option<&str>| {
        after_check("r1".to_string(), received(200, "", refresh("r1", status)))
    };
    assert_eq!(check(Some("COMPLETED")), FetchStep::ListAccounts);
    assert_eq!(fails(check(Some("ERROR"))), "Refresh failed with error");
    assert_eq!(check(Some("PENDING")), FetchStep::Wait { refresh_id: "r1".to_string() });
    assert_eq!(check(None), FetchStep::Wait { refresh_id: "r1".to_string() });
    let nothing: AkahuApiResponse<AkahuRefreshItem> =
        AkahuApiResponse { success: true, items: None, item: None, message: None };
    assert_eq!(
        after_check("r1".to_string(), received(200, "", nothing)),
        FetchStep::Wait { refresh_id: "r1".to_string() }
    );
}

#[test]
fn listed_accounts_are_stored_next() {
    let data = AkahuApiResponse {
        success: true,
        items: Some(vec![account("a", 1.0, None)]),
        item: None,
        message: None,
    };
    assert_eq!(
        after_list(received(200, "", data)),
        FetchStep::Store { accounts: vec![account("a", 1.0, None)] }
    );
    let none: AkahuApiResponse<AkahuAccount> =
        AkahuApiResponse { success: true, items: None, item: None, message: None };
    assert_eq!(after_list(received(200, "", none)), FetchStep::Store { accounts: Vec::new() });
}

#[test]
fn fetched_balances_are_stored_and_totalled() {
    let mut ledger = Ledger::new();
    let accounts =
        vec![account("a", 10.0, Some("NZD")), account("b", 99.0, Some("AUD")), account("c", -4.0, None)];
    let message = ledger.store_fetched(&accounts, "2024-06-01", sum);
    assert_eq!(message, Ok("Fetched 2 NZD accounts".to_string()));
    assert_eq!(day(&ledger, "a", "2024-06-01"), vec![10.0]);
    assert_eq!(day(&ledger, "c", "2024-06-01"), vec![-4.0]);
    assert!(ledger.accounts.iter().all(|a| a.id != "b"));
    assert!(ledger.values.iter().all(|v| v.account_id != "b"));
    assert_eq!(day(&ledger, "__total__", "2024-06-01"), vec![6.0]);
    assert_eq!(day(&ledger, "__assets_total__", "2024-06-01"), vec![10.0]);
    assert_eq!(day(&ledger, "__liabilities_total__", "2024-06-01"), vec![-4.0]);
    let a = &ledger.accounts[0];
    assert_eq!(a.name, "Name a");
    assert_eq!(a.account_type, "CHECKING");
    assert_eq!(a.institution, "Kiwi");
    assert_eq!(a.currency, "NZD");
    assert!(!a.is_manual);
    assert!(!a.is_ignored);
    assert!(ledger.is_well_formed());
}

#[test]
fn missing_details_have_defaults() {
    let mut bare = account("a", 1.0, None);
    bare.account_type = None;
    bare.connection = None;
    bare.balance = None;
    let mut unnamed = account("b", 1.0, None);
    unnamed.connection = Some(AkahuConnection {
        institution: Some(AkahuInstitution { name: None }),
        name: Some("Connection".to_string()),
    });
    unnamed.balance = Some(AkahuBalance { current: None, currency: None });
    let mut silent = account("c", 1.0, None);
    silent.connection = Some(AkahuConnection { institution: None, name: None });
    let mut ledger = Ledger::new();
    let message = ledger.store_fetched(&vec![bare, unnamed, silent], "2024-06-01", sum);
    assert_eq!(message, Ok("Fetched 3 NZD accounts".to_string()));
    assert_eq!(ledger.accounts[0].account_type, "Unknown");
    assert_eq!(ledger.accounts[0].institution, "Unknown");
    assert_eq!(day(&ledger, "a", "2024-06-01"), vec![0.0]);
    assert_eq!(ledger.accounts[1].institution, "Connection");
    assert_eq!(day(&ledger, "b", "2024-06-01"), vec![0.0]);
    assert_eq!(ledger.accounts[2].institution, "Unknown");
}

#[test]
fn fetching_again_keeps_choices_and_one_value_a_day() {
    let mut ledger = Ledger::new();
    let first = vec![account("a", 10.0, None)];
    assert!(ledger.store_fetched(&first, "2024-06-01", sum).is_ok());
    assert_eq!(ledger.toggle_ignore_account("a", "2024-06-01", sum), Ok(true));
    ledger.accounts[0].currency = "XYZ".to_string();
    let mut renamed = account("a", 12.0, None);
    renamed.name = "Renamed".to_string();
    assert!(ledger.store_fetched(&vec![renamed], "2024-06-01", sum).is_ok());
    assert_eq!(ledger.accounts[0].name, "Renamed");
    assert_eq!(ledger.accounts[0].currency, "XYZ");
    assert!(ledger.accounts[0].is_ignored);
    assert_eq!(day(&ledger, "a", "2024-06-01"), vec![12.0]);
    assert_eq!(day(&ledger, "__total__", "2024-06-01"), vec![0.0]);
    assert_eq!(ledger.fetches.len(), 1);
}

#[test]
fn an_account_listed_twice_gets_its_last_balance() {
    let mut ledger = Ledger::new();
    let twice = vec![account("a", 1.0, None), account("a", 2.0, None)];
    assert_eq!(
        ledger.store_fetched(&twice, "2024-06-01", sum),
        Ok("Fetched 2 NZD accounts".to_string())
    );
    assert_eq!(day(&ledger, "a", "2024-06-01"), vec![2.0]);
}

#[test]
fn balances_are_fetched_once_a_day() {
    let mut ledger = Ledger::new();
    assert_eq!(ledger.begin_fetch("2024-06-01"), FetchStep::StartRefresh);
    assert!(ledger.store_fetched(&Vec::new(), "2024-06-01", sum).is_ok());
    assert_eq!(
        ledger.begin_fetch("2024-06-01"),
        FetchStep::Finish { outcome: Ok("Already fetched today".to_string()) }
    );
    assert_eq!(ledger.begin_fetch("2024-06-02"), FetchStep::StartRefresh);
}

#[test]
fn a_fetch_stops_without_identifiers() {
    let mut ledger = Ledger::new();
    ledger.last_value_id = i64::MAX - 1;
    let accounts = vec![account("a", 1.0, None), account("b", 2.0, None), account("c", 3.0, None)];
    assert_eq!(
        ledger.store_fetched(&accounts, "2024-06-01", sum),
        Err(LedgerError::NoIdLeft)
    );
    assert_eq!(day(&ledger, "a", "2024-06-01"), vec![1.0]);
    let ids: Vec<&str> = ledger.accounts.iter().map(|a| a.id.as_str()).collect();
    assert_eq!(ids, vec!["a", "b"]);
    assert!(ledger.fetches.is_empty());
    let mut ledger = Ledger::new();
    ledger.last_fetch_id = i64::MAX;
    assert_eq!(
        ledger.store_fetched(&Vec::new(), "2024-06-01", sum),
        Err(LedgerError::NoIdLeft)
    );
    assert_eq!(day(&ledger, "__total__", "2024-06-01"), vec![0.0]);
}

#[test]
fn credentials_come_from_the_keychain_first() {
    let some = |s: &str| Some(s.to_string());
    assert_eq!(
        choose_credentials(some("k"), some("t"), some("e"), some("f")),
        Ok(("k".to_string(), "t".to_string()))
    );
    assert_eq!(
        choose_credentials(some("k"), None, some("e"), some("f")),
        Ok(("e".to_string(), "f".to_string()))
    );
    assert_eq!(
        choose_credentials(None, some("t"), some("e"), None),
        Err("Akahu credentials not found. Go to Settings to add them.".to_string())
    );
    assert!(has_credentials(&some("k"), &some("t")));
    assert!(!has_credentials(&some("k"), &None));
    assert!(!has_credentials(&None, &some("t")));
}

#[test]
fn a_fetch_runs_through_its_steps() {
    let mut ledger = Ledger::new();
    assert_eq!(ledger.begin_fetch("2024-06-01"), FetchStep::StartRefresh);
    let step = after_start(received(201, "", refresh("r1", Some("PENDING"))));
    let id = match step {
        FetchStep::Wait { refresh_id } => refresh_id,
        other => panic!("{:?}", other),
    };
    let id = match after_wait(id, 0) {
        FetchStep::CheckRefresh { refresh_id, pause_secs: 3 } => refresh_id,
        other => panic!("{:?}", other),
    };
    let id = match after_check(id, received(200, "", refresh("r1", Some("RUNNING")))) {
        FetchStep::Wait { refresh_id } => refresh_id,
        other => panic!("{:?}", other),
    };
    assert_eq!(id, "r1");
    let step = after_check(id, received(200, "", refresh("r1", Some("COMPLETED"))));
    assert_eq!(step, FetchStep::ListAccounts);
    let data = AkahuApiResponse {
        success: true,
        items: Some(vec![account("a", 1.0, None)]),
        item: None,
        message: None,
    };
    let accounts = match after_list(received(200, "", data)) {
        FetchStep::Store { accounts } => accounts,
        other => panic!("{:?}", other),
    };
    assert_eq!(
        ledger.store_fetched(&accounts, "2024-06-01", sum),
        Ok("Fetched 1 NZD accounts".to_string())
    );
}

#[test]
fn other_currencies_make_no_difference() {
    let all = vec![account("a", 1.0, None), account("b", 2.0, Some("USD")), account("c", 3.0, Some("nzd"))];
    let mut with = Ledger::new();
    let mut without = Ledger::new();
    let first = with.store_fetched(&all, "2024-06-01", sum);
    let second = without.store_fetched(&all[..1].to_vec(), "2024-06-01", sum);
    assert_eq!(first, second);
    assert_eq!(with, without);
}

#[test]
fn the_wait_has_the_given_limit() {
    for (limit, looks) in [(0, 0), (1, 1), (3, 1), (4, 2), (120, 40), (121, 41)] {
        let mut seen = 0;
        let mut elapsed = 0;
        while let FetchStep::CheckRefresh { pause_secs, .. } =
            wait_step("r1".to_string(), elapsed, limit)
        {
            seen += 1;
            elapsed += pause_secs;
        }
        assert_eq!(seen, looks);
    }
    assert_eq!(fails(wait_step("r1".to_string(), 5, 5)), "Refresh timed out");
}
