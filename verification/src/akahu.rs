//! Fetching balances from Akahu: what is asked, how replies are read, and how
//! fetched balances are stored.
use vstd::prelude::*;

use crate::balance::Balance;
use crate::ledger::{Ledger, LedgerData, LedgerError};
use crate::model::{Account, AccountData, FetchData, FetchEntry};
use crate::text::{decimal_text, joined, text_eq, truncate_str};

verus! {

/// How long a refresh is waited for, in seconds.
pub const WAIT_SECS: u64 = 120;

/// The pause before each look at a refresh, in seconds.
pub const PAUSE_SECS: u64 = 3;

/// How many bytes of a reply's body an error message quotes.
pub const QUOTED_BYTES: usize = 200;

/// What Akahu answers.
#[derive(Debug, Clone, PartialEq, Eq)]
pub struct AkahuApiResponse<T> {
    pub success: bool,
    pub items: Option<Vec<T>>,
    pub item: Option<T>,
    pub message: Option<String>,
}

/// An account as Akahu describes it.
#[derive(Debug, Clone, PartialEq, Eq)]
pub struct AkahuAccount {
    pub id: String,
    pub name: String,
    pub account_type: Option<String>,
    pub connection: Option<AkahuConnection>,
    pub balance: Option<AkahuBalance>,
}

/// Where an account is held.
#[derive(Debug, Clone, PartialEq, Eq)]
pub struct AkahuConnection {
    pub institution: Option<AkahuInstitution>,
    pub name: Option<String>,
}

/// The institution behind a connection.
#[derive(Debug, Clone, PartialEq, Eq)]
pub struct AkahuInstitution {
    pub name: Option<String>,
}

/// The balance of an account.
#[derive(Debug, Clone, PartialEq, Eq)]
pub struct AkahuBalance {
    pub current: Option<Balance>,
    pub currency: Option<String>,
}

/// A refresh of all accounts.
#[derive(Debug, Clone, PartialEq, Eq)]
pub struct AkahuRefreshItem {
    pub id: String,
    pub status: Option<String>,
}

/// A question to Akahu.
#[derive(Debug, Clone, PartialEq, Eq)]
pub enum AkahuCall {
    /// Start a refresh of all accounts.
    StartRefresh,
    /// How far is the refresh?
    RefreshStatus { id: String },
    /// Which accounts are there?
    ListAccounts,
}

/// An HTTP request without a body.
#[derive(Debug, Clone, PartialEq, Eq)]
pub struct HttpRequest {
    /// Whether it is a POST; otherwise it is a GET.
    pub post: bool,
    pub url: String,
    pub headers: Vec<(String, String)>,
}

/// What came of a question to Akahu.
#[derive(Debug, PartialEq, Eq)]
pub enum Reply<T> {
    /// The request failed, and why.
    Unsent(String),
    /// The body could not be read, and why.
    Unread(String),
    /// The HTTP status, the body, and the response that the body spells, or why
    /// it spells none.
    Received { status: u16, body: String, parsed: Result<AkahuApiResponse<T>, String> },
}

impl AkahuCall {
    /// Where the question goes.
    pub open spec fn url(self) -> Seq<char> {
        match self {
            AkahuCall::StartRefresh => "https://api.akahu.io/v1/refresh"@,
            AkahuCall::RefreshStatus { id } => "https://api.akahu.io/v1/refresh/"@ + id@,
            AkahuCall::ListAccounts => "https://api.akahu.io/v1/accounts"@,
        }
    }

    /// The start of the message when the request fails.
    pub open spec fn unsent_label(self) -> Seq<char> {
        match self {
            AkahuCall::StartRefresh => "HTTP error triggering refresh: "@,
            AkahuCall::RefreshStatus { id } => "HTTP error checking refresh: "@,
            AkahuCall::ListAccounts => "HTTP error fetching accounts: "@,
        }
    }

    /// The start of the message when the body cannot be read.
    pub open spec fn unread_label(self) -> Seq<char> {
        match self {
            AkahuCall::StartRefresh => "Failed to read refresh response: "@,
            AkahuCall::RefreshStatus { id } => "Failed to read refresh status: "@,
            AkahuCall::ListAccounts => "Failed to read accounts response: "@,
        }
    }

    /// The start of the message when the status is not one of success.
    pub open spec fn status_label(self) -> Seq<char> {
        match self {
            AkahuCall::StartRefresh => "Akahu refresh returned HTTP "@,
            AkahuCall::RefreshStatus { id } => "Refresh status HTTP "@,
            AkahuCall::ListAccounts => "Akahu accounts returned HTTP "@,
        }
    }

    /// The start of the message when the body spells no response.
    pub open spec fn parse_label(self) -> Seq<char> {
        match self {
            AkahuCall::StartRefresh => "Failed to parse refresh response: "@,
            AkahuCall::RefreshStatus { id } => "Failed to parse refresh status: "@,
            AkahuCall::ListAccounts => "Failed to parse accounts response: "@,
        }
    }

    /// The request that asks the question.
    pub fn request(&self, app_id: &str, user_token: &str) -> (r: HttpRequest)
        ensures
            r.post == (*self is StartRefresh),
            r.url@ == self.url(),
            r.headers.len() == 3,
            r.headers[0].0@ == "Authorization"@,
            r.headers[0].1@ == "Bearer "@ + user_token@,
            r.headers[1].0@ == "X-Akahu-Id"@,
            r.headers[1].1@ == app_id@,
            r.headers[2].0@ == "Accept"@,
            r.headers[2].1@ == "application/json"@,
    {
        let url: String = match self {
            AkahuCall::StartRefresh => "https://api.akahu.io/v1/refresh".to_owned(),
            AkahuCall::RefreshStatus { id } => joined(
                "https://api.akahu.io/v1/refresh/",
                id.as_str(),
            ),
            AkahuCall::ListAccounts => "https://api.akahu.io/v1/accounts".to_owned(),
        };
        let post: bool = match self {
            AkahuCall::StartRefresh => true,
            _ => false,
        };
        let mut headers: Vec<(String, String)> = Vec::new();
        headers.push(("Authorization".to_owned(), joined("Bearer ", user_token)));
        headers.push(("X-Akahu-Id".to_owned(), app_id.to_owned()));
        headers.push(("Accept".to_owned(), "application/json".to_owned()));
        HttpRequest { post, url, headers }
    }
}

/// Whether the HTTP status is one of success.
pub open spec fn is_success(status: u16) -> bool {
    200 <= status < 300
}

/// The message of an unsuccessful response.
pub open spec fn failure_message(message: Option<String>) -> Seq<char> {
    match message {
        Some(m) => m@,
        None => "Unknown error"@,
    }
}

/// The response that the reply spells.
pub open spec fn response_of<T>(reply: Reply<T>) -> Option<AkahuApiResponse<T>> {
    match reply {
        Reply::Received { status, body, parsed } => match parsed {
            Ok(data) => Some(data),
            Err(_) => None,
        },
        _ => None,
    }
}

/// Why the reply cannot be used, if it cannot.
pub open spec fn reply_refusal<T>(call: AkahuCall, reply: Reply<T>) -> Option<Seq<char>> {
    match reply {
        Reply::Unsent(why) => Some(call.unsent_label() + why@),
        Reply::Unread(why) => Some(call.unread_label() + why@),
        Reply::Received { status, body, parsed } => {
            let quote = crate::text::truncated(body@, QUOTED_BYTES as nat);
            if !is_success(status) {
                Some(
                    call.status_label() + crate::text::decimal(status as nat) + ": "@ + quote,
                )
            } else {
                match parsed {
                    Err(why) => Some(call.parse_label() + why@ + ". Body: "@ + quote),
                    Ok(data) => if !data.success {
                        Some(failure_message(data.message))
                    } else {
                        None
                    },
                }
            }
        },
    }
}

/// Whether the body can be quoted, in case a message is to quote it: whether the
/// cut does not fall inside a character.
pub open spec fn quotable<T>(reply: Reply<T>) -> bool {
    reply matches Reply::Received { status, body, parsed } ==> (!is_success(status)
        || parsed is Err) ==> crate::text::can_truncate(body@, QUOTED_BYTES as nat)
}

/// The response of a successful reply, or why there is none.
pub fn accept_reply<T>(call: &AkahuCall, reply: Reply<T>) -> (r: Result<
    AkahuApiResponse<T>,
    String,
>)
    requires
        quotable(reply),
    ensures
        match r {
            Ok(data) => reply_refusal(*call, reply) is None && response_of(reply) == Some(data),
            Err(message) => reply_refusal(*call, reply) == Some(message@),
        },
{
    match reply {
        Reply::Unsent(why) => {
            let label: &str = match call {
                AkahuCall::StartRefresh => "HTTP error triggering refresh: ",
                AkahuCall::RefreshStatus { .. } => "HTTP error checking refresh: ",
                AkahuCall::ListAccounts => "HTTP error fetching accounts: ",
            };
            Err(joined(label, why.as_str()))
        },
        Reply::Unread(why) => {
            let label: &str = match call {
                AkahuCall::StartRefresh => "Failed to read refresh response: ",
                AkahuCall::RefreshStatus { .. } => "Failed to read refresh status: ",
                AkahuCall::ListAccounts => "Failed to read accounts response: ",
            };
            Err(joined(label, why.as_str()))
        },
        Reply::Received { status, body, parsed } => {
            if !(200 <= status && status < 300) {
                let label: &str = match call {
                    AkahuCall::StartRefresh => "Akahu refresh returned HTTP ",
                    AkahuCall::RefreshStatus { .. } => "Refresh status HTTP ",
                    AkahuCall::ListAccounts => "Akahu accounts returned HTTP ",
                };
                let quote: String = truncate_str(body.as_str(), QUOTED_BYTES);
                let head: String = joined(label, decimal_text(status as u64).as_str());
                return Err(head.concat(": ").concat(quote.as_str()));
            }
            match parsed {
                Err(why) => {
                    let label: &str = match call {
                        AkahuCall::StartRefresh => "Failed to parse refresh response: ",
                        AkahuCall::RefreshStatus { .. } => "Failed to parse refresh status: ",
                        AkahuCall::ListAccounts => "Failed to parse accounts response: ",
                    };
                    let quote: String = truncate_str(body.as_str(), QUOTED_BYTES);
                    let head: String = joined(label, why.as_str());
                    Err(head.concat(". Body: ").concat(quote.as_str()))
                },
                Ok(data) => {
                    if !data.success {
                        match data.message {
                            Some(message) => Err(message),
                            None => Err("Unknown error".to_owned()),
                        }
                    } else {
                        Ok(data)
                    }
                },
            }
        },
    }
}

/// What a fetch does next.
#[derive(Debug, PartialEq, Eq)]
pub enum FetchStep {
    /// Ask Akahu to start a refresh.
    StartRefresh,
    /// See how long the refresh has been waited for.
    Wait { refresh_id: String },
    /// Pause for so many seconds, then ask how far the refresh is.
    CheckRefresh { refresh_id: String, pause_secs: u64 },
    /// Ask Akahu for the accounts.
    ListAccounts,
    /// Store the accounts.
    Store { accounts: Vec<AkahuAccount> },
    /// End with a message for the user.
    Finish { outcome: Result<String, String> },
}

/// Whether the fetch ends with the given error.
pub open spec fn fails_with(step: FetchStep, message: Seq<char>) -> bool {
    step matches FetchStep::Finish { outcome } && outcome is Err && outcome->Err_0@ == message
}

/// Whether the fetch ends well, with the given message.
pub open spec fn ends_with_message(step: FetchStep, message: Seq<char>) -> bool {
    step matches FetchStep::Finish { outcome } && outcome is Ok && outcome->Ok_0@ == message
}

/// Whether one step of a fetch can lead to the other.
pub open spec fn leads_to(step: FetchStep, next: FetchStep) -> bool {
    match step {
        FetchStep::StartRefresh => next is Wait || next is ListAccounts || is_failure(next),
        FetchStep::Wait { refresh_id } => is_failure(next) || (next matches FetchStep::CheckRefresh {
            refresh_id: id,
            pause_secs,
        } && id@ == refresh_id@ && pause_secs == PAUSE_SECS),
        FetchStep::CheckRefresh { refresh_id, pause_secs } => next is ListAccounts || is_failure(
            next,
        ) || (next matches FetchStep::Wait { refresh_id: id } && id@ == refresh_id@),
        FetchStep::ListAccounts => next is Store || is_failure(next),
        FetchStep::Store { accounts } => next is Finish,
        FetchStep::Finish { outcome } => false,
    }
}

/// Whether the fetch ends with an error.
pub open spec fn is_failure(step: FetchStep) -> bool {
    step matches FetchStep::Finish { outcome } && outcome is Err
}

/// Whether the steps follow each other in a fetch.
pub open spec fn is_path(path: Seq<FetchStep>) -> bool {
    &&& path.len() > 0
    &&& path[0] is StartRefresh || path[0] is Finish
    &&& forall|i: int, j: int|
        0 <= i && j == i + 1 && j < path.len() ==> leads_to(#[trigger] path[i], #[trigger] path[j])
}

/// The identifier of the refresh that a step is about.
pub open spec fn refresh_of(step: FetchStep) -> Option<Seq<char>> {
    match step {
        FetchStep::Wait { refresh_id } => Some(refresh_id@),
        FetchStep::CheckRefresh { refresh_id, pause_secs } => Some(refresh_id@),
        _ => None,
    }
}

/// The identifier of the started refresh.
pub open spec fn started_refresh(data: AkahuApiResponse<AkahuRefreshItem>) -> Option<Seq<char>> {
    match data.item {
        Some(item) => Some(item.id@),
        None => None,
    }
}

/// The status of the refresh, if the response tells one.
pub open spec fn refresh_status(data: AkahuApiResponse<AkahuRefreshItem>) -> Option<Seq<char>> {
    match data.item {
        Some(item) => crate::model::text_data(item.status),
        None => None,
    }
}

/// The accounts of the response.
pub open spec fn listed_accounts(data: AkahuApiResponse<AkahuAccount>) -> Seq<AkahuAccount> {
    match data.items {
        Some(items) => items@,
        None => Seq::empty(),
    }
}

/// What follows the reply to the start of a refresh: waiting for the refresh, or
/// the accounts at once when there is nothing to refresh.
pub fn after_start(reply: Reply<AkahuRefreshItem>) -> (r: FetchStep)
    requires
        quotable(reply),
    ensures
        match reply_refusal(AkahuCall::StartRefresh, reply) {
            Some(message) => fails_with(r, message),
            None => match started_refresh(response_of(reply)->0) {
                Some(id) => r matches FetchStep::Wait { refresh_id } && refresh_id@ == id,
                None => r is ListAccounts,
            },
        },
        leads_to(FetchStep::StartRefresh, r),
{
    match accept_reply(&AkahuCall::StartRefresh, reply) {
        Err(message) => FetchStep::Finish { outcome: Err(message) },
        Ok(data) => match data.item {
            Some(item) => FetchStep::Wait { refresh_id: item.id },
            None => FetchStep::ListAccounts,
        },
    }
}

/// What follows so many seconds after the wait for a refresh began, given how
/// long it may take: another look at it, or the end when the time is up.
pub fn wait_step(refresh_id: String, elapsed_secs: u64, timeout_secs: u64) -> (r: FetchStep)
    ensures
        if elapsed_secs >= timeout_secs {
            fails_with(r, "Refresh timed out"@)
        } else {
            r == (FetchStep::CheckRefresh { refresh_id, pause_secs: PAUSE_SECS })
        },
        leads_to((FetchStep::Wait { refresh_id }), r),
{
    if elapsed_secs >= timeout_secs {
        FetchStep::Finish { outcome: Err("Refresh timed out".to_owned()) }
    } else {
        FetchStep::CheckRefresh { refresh_id, pause_secs: PAUSE_SECS }
    }
}

/// What follows so many seconds after a fetch began to wait for its refresh.
pub fn after_wait(refresh_id: String, elapsed_secs: u64) -> (r: FetchStep)
    ensures
        if elapsed_secs >= WAIT_SECS {
            fails_with(r, "Refresh timed out"@)
        } else {
            r == (FetchStep::CheckRefresh { refresh_id, pause_secs: PAUSE_SECS })
        },
        leads_to((FetchStep::Wait { refresh_id }), r),
{
    wait_step(refresh_id, elapsed_secs, WAIT_SECS)
}

/// What follows the reply on how far a refresh is.
pub fn after_check(refresh_id: String, reply: Reply<AkahuRefreshItem>) -> (r: FetchStep)
    requires
        quotable(reply),
    ensures
        match reply_refusal((AkahuCall::RefreshStatus { id: refresh_id }), reply) {
            Some(message) => fails_with(r, message),
            None => {
                let status = refresh_status(response_of(reply)->0);
                if status == Some("COMPLETED"@) {
                    r is ListAccounts
                } else if status == Some("ERROR"@) {
                    fails_with(r, "Refresh failed with error"@)
                } else {
                    r == (FetchStep::Wait { refresh_id })
                }
            },
        },
        leads_to((FetchStep::CheckRefresh { refresh_id, pause_secs: PAUSE_SECS }), r),
{
    let call = AkahuCall::RefreshStatus { id: refresh_id.clone() };
    match accept_reply(&call, reply) {
        Err(message) => FetchStep::Finish { outcome: Err(message) },
        Ok(data) => {
            let status: Option<String> = match data.item {
                Some(item) => item.status,
                None => None,
            };
            match status {
                Some(text) => {
                    proof {
                        reveal_strlit("COMPLETED");
                        reveal_strlit("ERROR");
                        assert("COMPLETED"@.len() != "ERROR"@.len());
                    }
                    if text_eq(text.as_str(), "COMPLETED") {
                        FetchStep::ListAccounts
                    } else if text_eq(text.as_str(), "ERROR") {
                        FetchStep::Finish { outcome: Err("Refresh failed with error".to_owned()) }
                    } else {
                        FetchStep::Wait { refresh_id }
                    }
                },
                None => FetchStep::Wait { refresh_id },
            }
        },
    }
}

/// What follows the reply that lists the accounts.
pub fn after_list(reply: Reply<AkahuAccount>) -> (r: FetchStep)
    requires
        quotable(reply),
    ensures
        match reply_refusal(AkahuCall::ListAccounts, reply) {
            Some(message) => fails_with(r, message),
            None => r matches FetchStep::Store { accounts } && accounts@ == listed_accounts(
                response_of(reply)->0,
            ),
        },
        leads_to(FetchStep::ListAccounts, r),
{
    match accept_reply(&AkahuCall::ListAccounts, reply) {
        Err(message) => FetchStep::Finish { outcome: Err(message) },
        Ok(data) => match data.items {
            Some(accounts) => FetchStep::Store { accounts },
            None => {
                let accounts: Vec<AkahuAccount> = Vec::new();
                assert(accounts@ =~= Seq::<AkahuAccount>::empty());
                FetchStep::Store { accounts }
            },
        },
    }
}

/// Whether the account is stored: its currency is NZD, or not told.
pub open spec fn is_nzd(account: AkahuAccount) -> bool {
    match account.balance {
        Some(balance) => match balance.currency {
            Some(currency) => currency@ == "NZD"@,
            None => true,
        },
        None => true,
    }
}

/// The accounts that are stored.
pub open spec fn nzd_accounts(accounts: Seq<AkahuAccount>) -> Seq<AkahuAccount> {
    accounts.filter(|a: AkahuAccount| is_nzd(a))
}

/// Who holds the account: the institution, else the connection, by name.
pub open spec fn institution_name(account: AkahuAccount) -> Seq<char> {
    match account.connection {
        Some(connection) => match connection.institution {
            Some(AkahuInstitution { name: Some(name) }) => name@,
            _ => match connection.name {
                Some(name) => name@,
                None => "Unknown"@,
            },
        },
        None => "Unknown"@,
    }
}

/// What kind of account it is.
pub open spec fn kind_name(account: AkahuAccount) -> Seq<char> {
    match account.account_type {
        Some(name) => name@,
        None => "Unknown"@,
    }
}

/// The balance of the account, zero if it is not told.
pub open spec fn current_balance(account: AkahuAccount) -> Balance {
    match account.balance {
        Some(AkahuBalance { current: Some(balance), currency }) => balance,
        _ => Balance::zero_spec(),
    }
}

impl LedgerData {
    /// The account as it is stored. A known account keeps its currency, its kind
    /// and whether it is hidden.
    pub open spec fn fetched_account(self, account: AkahuAccount) -> AccountData {
        let id = account.id@;
        let known = self.accounts.contains_key(id);
        AccountData {
            id,
            name: account.name@,
            account_type: kind_name(account),
            institution: institution_name(account),
            currency: if known {
                self.accounts[id].currency
            } else {
                "NZD"@
            },
            is_manual: known && self.accounts[id].is_manual,
            is_ignored: known && self.accounts[id].is_ignored,
        }
    }

    /// The ledger with a fetched account and its balance of the day.
    pub open spec fn with_fetched(self, account: AkahuAccount, date: Seq<char>) -> (
        LedgerData,
        Option<LedgerError>,
    ) {
        self.with_account(self.fetched_account(account)).upserted(
            account.id@,
            current_balance(account),
            date,
        )
    }

    /// The ledger with fetched accounts, one after the other up to the first
    /// refusal.
    pub open spec fn with_all_fetched(self, accounts: Seq<AkahuAccount>, date: Seq<char>) -> (
        LedgerData,
        Option<LedgerError>,
    )
        decreases accounts.len(),
    {
        if accounts.len() == 0 {
            (self, None)
        } else {
            let before = self.with_all_fetched(accounts.drop_last(), date);
            if before.1 is Some {
                before
            } else {
                before.0.with_fetched(accounts.last(), date)
            }
        }
    }

    /// The ledger with the day as one entry of the fetch log, or with none of
    /// that day because no identifier is left.
    pub open spec fn with_logged(self, date: Seq<char>) -> (LedgerData, Option<LedgerError>) {
        let others = self.fetches.filter(|f: FetchData| f.fetched_at != date);
        let cleared = LedgerData { fetches: others, ..self };
        if self.last_fetch_id == i64::MAX {
            (cleared, Some(LedgerError::NoIdLeft))
        } else {
            let id = (self.last_fetch_id + 1) as i64;
            let entry = FetchData { id, fetched_at: date };
            (LedgerData { fetches: others.push(entry), last_fetch_id: id, ..self }, None)
        }
    }

    /// Whether `after` is this ledger with the fetched accounts stored, the
    /// totals recomputed and the fetch logged, up to the first refusal.
    pub open spec fn fetch_stored<F: Fn(&Vec<Balance>) -> Balance>(
        self,
        sum: F,
        accounts: Seq<AkahuAccount>,
        date: Seq<char>,
        after: LedgerData,
        error: Option<LedgerError>,
    ) -> bool {
        let saved = self.with_all_fetched(nzd_accounts(accounts), date);
        if saved.1 is Some {
            saved == (after, error)
        } else {
            exists|totalled: LedgerData, e: Option<LedgerError>|
                {
                    &&& #[trigger] saved.0.recomputed(sum, date, totalled, e)
                    &&& if e is Some {
                        (after, error) == (totalled, e)
                    } else {
                        (after, error) == totalled.with_logged(date)
                    }
                }
        }
    }
}

/// Whether the account is stored.
fn holds_nzd(account: &AkahuAccount) -> (r: bool)
    ensures
        r == is_nzd(*account),
{
    match &account.balance {
        Some(balance) => match &balance.currency {
            Some(currency) => text_eq(currency.as_str(), "NZD"),
            None => true,
        },
        None => true,
    }
}

/// The name of who holds the account.
fn institution_of(account: &AkahuAccount) -> (r: String)
    ensures
        r@ == institution_name(*account),
{
    match &account.connection {
        Some(connection) => {
            match &connection.institution {
                Some(institution) => match &institution.name {
                    Some(name) => {
                        return name.clone();
                    },
                    None => {},
                },
                None => {},
            }
            match &connection.name {
                Some(name) => name.clone(),
                None => "Unknown".to_owned(),
            }
        },
        None => "Unknown".to_owned(),
    }
}

/// The name of the kind of account.
fn kind_of(account: &AkahuAccount) -> (r: String)
    ensures
        r@ == kind_name(*account),
{
    match &account.account_type {
        Some(name) => name.clone(),
        None => "Unknown".to_owned(),
    }
}

/// The balance of the account.
fn balance_of(account: &AkahuAccount) -> (r: Balance)
    ensures
        r == current_balance(*account),
{
    match &account.balance {
        Some(balance) => match balance.current {
            Some(current) => current,
            None => Balance::zero(),
        },
        None => Balance::zero(),
    }
}

impl Ledger {
    /// What a fetch does first: nothing if one of today is logged.
    pub fn begin_fetch(&self, today: &str) -> (r: FetchStep)
        ensures
            if crate::merge::has_fetch(self@.fetches, today@) {
                ends_with_message(r, "Already fetched today"@)
            } else {
                r is StartRefresh
            },
    {
        if self.has_fetch_on(today) {
            FetchStep::Finish { outcome: Ok("Already fetched today".to_owned()) }
        } else {
            FetchStep::StartRefresh
        }
    }

    /// Stores a fetched account and its balance of the day.
    fn store_account(&mut self, account: &AkahuAccount, today: &str) -> (r: Result<
        (),
        LedgerError,
    >)
        requires
            old(self).well_formed(),
        ensures
            final(self).well_formed(),
            (final(self)@, crate::totals::failure(r)) == old(self)@.with_fetched(*account, today@),
    {
        let (currency, is_manual, is_ignored) = match self.find_account(account.id.as_str()) {
            Some(i) => (
                self.accounts[i].currency.clone(),
                self.accounts[i].is_manual,
                self.accounts[i].is_ignored,
            ),
            None => ("NZD".to_owned(), false, false),
        };
        let row = Account {
            id: account.id.clone(),
            name: account.name.clone(),
            account_type: kind_of(account),
            institution: institution_of(account),
            currency,
            is_manual,
            is_ignored,
        };
        assert(row@ == old(self)@.fetched_account(*account));
        self.put_account(row);
        self.upsert_daily_total(account.id.as_str(), balance_of(account), today)
    }

    /// Makes the day one entry of the fetch log.
    pub(crate) fn log_fetch(&mut self, today: &str) -> (r: Result<(), LedgerError>)
        requires
            old(self).well_formed(),
        ensures
            final(self).well_formed(),
            (final(self)@, crate::totals::failure(r)) == old(self)@.with_logged(today@),
    {
        let ghost keep = |f: FetchData| f.fetched_at != today@;
        let ghost rows = crate::ledger::fetch_rows(self.fetches@);
        let mut kept: Vec<FetchEntry> = Vec::new();
        let mut i: usize = 0;
        assert(rows.take(0).filter(keep) =~= crate::ledger::fetch_rows(kept@)) by {
            reveal(Seq::filter);
        }
        while i < self.fetches.len()
            invariant
                i <= self.fetches.len(),
                *self == *old(self),
                keep == (|f: FetchData| f.fetched_at != today@),
                rows == crate::ledger::fetch_rows(self.fetches@),
                crate::ledger::fetch_rows(kept@) == rows.take(i as int).filter(keep),
            decreases self.fetches.len() - i,
        {
            let ghost next = rows.take(i + 1);
            assert(next.drop_last() =~= rows.take(i as int));
            assert(next.last() == self.fetches[i as int]@);
            proof {
                reveal(Seq::filter);
            }
            if !text_eq(self.fetches[i].fetched_at.as_str(), today) {
                let ghost before = kept@;
                kept.push(self.fetches[i].duplicate());
                assert(crate::ledger::fetch_rows(kept@) =~= crate::ledger::fetch_rows(before).push(
                    next.last(),
                ));
            }
            i = i + 1;
        }
        proof {
            assert(rows.take(rows.len() as int) =~= rows);
            kept_fetches_ordered(rows, self.last_fetch_id, keep);
        }
        self.fetches = kept;
        if self.last_fetch_id == i64::MAX {
            return Err(LedgerError::NoIdLeft);
        }
        let id: i64 = self.last_fetch_id + 1;
        let entry = FetchEntry { id, fetched_at: today.to_owned() };
        self.last_fetch_id = id;
        self.fetches.push(entry);
        assert(crate::ledger::fetch_rows(self.fetches@) =~= rows.filter(keep).push(entry@));
        Ok(())
    }

    /// Stores the fetched NZD accounts with their balances of the day,
    /// recomputes the totals and logs the fetch. Says how many accounts there
    /// were.
    pub fn store_fetched<F: Fn(&Vec<Balance>) -> Balance>(
        &mut self,
        accounts: &Vec<AkahuAccount>,
        today: &str,
        sum: F,
    ) -> (r: Result<String, LedgerError>)
        requires
            old(self).well_formed(),
            crate::totals::sums_all(sum),
        ensures
            final(self).well_formed(),
            match r {
                Ok(message) => {
                    &&& old(self)@.fetch_stored(sum, accounts@, today@, final(self)@, None)
                    &&& message@ == "Fetched "@ + crate::text::decimal(
                        nzd_accounts(accounts@).len(),
                    ) + " NZD accounts"@
                    &&& crate::outcomes::totals::totals_hold(final(self)@, sum, today@)
                },
                Err(e) => old(self)@.fetch_stored(sum, accounts@, today@, final(self)@, Some(e)),
            },
    {
        let ghost keep = |a: AkahuAccount| is_nzd(a);
        let ghost start = self@;
        let mut count: u64 = 0;
        let mut i: usize = 0;
        assert(accounts@.take(0).filter(keep).len() == 0) by {
            reveal(Seq::filter);
        }
        while i < accounts.len()
            invariant
                i <= accounts.len(),
                self.well_formed(),
                start == old(self)@,
                keep == (|a: AkahuAccount| is_nzd(a)),
                count <= i,
                count == accounts@.take(i as int).filter(keep).len(),
                (self@, None::<LedgerError>) == start.with_all_fetched(
                    accounts@.take(i as int).filter(keep),
                    today@,
                ),
            decreases accounts.len() - i,
        {
            let ghost next = accounts@.take(i + 1);
            assert(next.drop_last() =~= accounts@.take(i as int));
            assert(next.last() == accounts[i as int]);
            proof {
                reveal(Seq::filter);
            }
            if holds_nzd(&accounts[i]) {
                assert(next.filter(keep).drop_last() =~= accounts@.take(i as int).filter(keep));
                let stored: Result<(), LedgerError> = self.store_account(&accounts[i], today);
                match stored {
                    Err(e) => {
                        proof {
                            stops_early(start, accounts@, i + 1, today@);
                        }
                        return Err(e);
                    },
                    Ok(_) => {},
                }
                count = count + 1;
            }
            i = i + 1;
        }
        assert(accounts@.take(accounts@.len() as int) =~= accounts@);
        let ghost saved = start.with_all_fetched(nzd_accounts(accounts@), today@);
        assert(saved == (self@, None::<LedgerError>));
        let totals: Result<(), LedgerError> = self.recompute_total(today, sum);
        match totals {
            Err(e) => {
                assert(saved.0.recomputed(sum, today@, self@, Some(e)));
                return Err(e);
            },
            Ok(_) => {},
        }
        let ghost totalled = self@;
        assert(saved.0.recomputed(sum, today@, totalled, None::<LedgerError>));
        match self.log_fetch(today) {
            Err(e) => Err(e),
            Ok(_) => {
                let head: String = joined("Fetched ", decimal_text(count).as_str());
                proof {
                    crate::outcomes::fetch::law_fetch_outcome(
                        start,
                        sum,
                        accounts@,
                        today@,
                        self@,
                    );
                }
                Ok(head.concat(" NZD accounts"))
            },
        }
    }
}

/// A refusal among the first accounts is the refusal of all.
proof fn stops_early(d: LedgerData, accounts: Seq<AkahuAccount>, n: int, date: Seq<char>)
    requires
        0 <= n <= accounts.len(),
        d.with_all_fetched(nzd_accounts(accounts.take(n)), date).1 is Some,
    ensures
        d.with_all_fetched(nzd_accounts(accounts), date) == d.with_all_fetched(
            nzd_accounts(accounts.take(n)),
            date,
        ),
    decreases accounts.len() - n,
{
    let keep = |a: AkahuAccount| is_nzd(a);
    if n < accounts.len() {
        let next = accounts.take(n + 1);
        assert(next.drop_last() =~= accounts.take(n));
        reveal(Seq::filter);
        if is_nzd(next.last()) {
            assert(nzd_accounts(next).drop_last() =~= nzd_accounts(accounts.take(n)));
        }
        stops_early(d, accounts, n + 1, date);
    } else {
        assert(accounts.take(n) =~= accounts);
    }
}

/// Keeping some of the entries of an ordered log leaves it ordered.
proof fn kept_fetches_ordered(fetches: Seq<FetchData>, last: i64, keep: spec_fn(FetchData) -> bool)
    requires
        crate::ledger::fetches_ordered(fetches, last),
    ensures
        crate::ledger::fetches_ordered(fetches.filter(keep), last),
    decreases fetches.len(),
{
    reveal(Seq::filter);
    if fetches.len() > 0 {
        let rest = fetches.drop_last();
        let kept = fetches.filter(keep);
        let kept_rest = rest.filter(keep);
        assert forall|i: int, j: int| 0 <= i < j < rest.len() implies (#[trigger] rest[i]).id < (
        #[trigger] rest[j]).id by {
            assert(rest[i] == fetches[i] && rest[j] == fetches[j]);
        }
        assert forall|i: int| 0 <= i < rest.len() implies (#[trigger] rest[i]).id
            <= fetches.last().id - 1 by {
            assert(rest[i] == fetches[i]);
        }
        if rest.len() > 0 {
            assert(rest[0] == fetches[0]);
            kept_fetches_ordered(rest, (fetches.last().id - 1) as i64, keep);
        } else {
            assert(kept_rest.len() == 0);
        }
        assert forall|i: int, j: int| 0 <= i < j < kept.len() implies (#[trigger] kept[i]).id < (
        #[trigger] kept[j]).id by {
            assert(kept[i] == kept_rest[i]);
            if j < kept_rest.len() {
                assert(kept[j] == kept_rest[j]);
            }
        }
        assert forall|i: int| 0 <= i < kept.len() implies (#[trigger] kept[i]).id <= last by {
            if i < kept_rest.len() {
                assert(kept[i] == kept_rest[i]);
            }
        }
    }
}

/// The app identifier and the user token to use, if both are known: those in the
/// keychain, or those in the environment when one of the former is missing.
pub open spec fn credentials_spec(
    stored_id: Option<Seq<char>>,
    stored_token: Option<Seq<char>>,
    env_id: Option<Seq<char>>,
    env_token: Option<Seq<char>>,
) -> Option<(Seq<char>, Seq<char>)> {
    if stored_id is Some && stored_token is Some {
        Some((stored_id->0, stored_token->0))
    } else if env_id is Some && env_token is Some {
        Some((env_id->0, env_token->0))
    } else {
        None
    }
}

/// Picks the credentials, out of the keychain or else out of the environment.
pub fn choose_credentials(
    stored_id: Option<String>,
    stored_token: Option<String>,
    env_id: Option<String>,
    env_token: Option<String>,
) -> (r: Result<(String, String), String>)
    ensures
        match r {
            Ok((id, token)) => credentials_spec(
                crate::model::text_data(stored_id),
                crate::model::text_data(stored_token),
                crate::model::text_data(env_id),
                crate::model::text_data(env_token),
            ) == Some((id@, token@)),
            Err(message) => {
                &&& credentials_spec(
                    crate::model::text_data(stored_id),
                    crate::model::text_data(stored_token),
                    crate::model::text_data(env_id),
                    crate::model::text_data(env_token),
                ) is None
                &&& message@ == "Akahu credentials not found. Go to Settings to add them."@
            },
        },
{
    match (stored_id, stored_token) {
        (Some(id), Some(token)) => Ok((id, token)),
        _ => match (env_id, env_token) {
            (Some(id), Some(token)) => Ok((id, token)),
            _ => Err("Akahu credentials not found. Go to Settings to add them.".to_owned()),
        },
    }
}

/// Whether the keychain has both credentials.
pub fn has_credentials(stored_id: &Option<String>, stored_token: &Option<String>) -> (r: bool)
    ensures
        r == (stored_id is Some && stored_token is Some),
{
    stored_id.is_some() && stored_token.is_some()
}

/// Credentials in the keychain are used whatever the environment holds.
pub proof fn law_keychain_comes_first(
    id: Seq<char>,
    token: Seq<char>,
    env_id: Option<Seq<char>>,
    env_token: Option<Seq<char>>,
)
    ensures
        credentials_spec(Some(id), Some(token), env_id, env_token) == Some((id, token)),
{
}

/// On its way a fetch deals with one refresh only, stores accounts only right
/// after it got their list, and then ends: one that fails before has stored
/// nothing.
pub proof fn law_fetch_takes_its_steps_in_order(path: Seq<FetchStep>, i: int, j: int)
    requires
        is_path(path),
        0 <= i < j < path.len(),
    ensures
        path[i] !is Finish,
        path[i] is Store ==> j == i + 1 && path[j] is Finish,
        path[j] is Store ==> path[j - 1] is ListAccounts,
        refresh_of(path[i]) is Some && refresh_of(path[j]) is Some ==> refresh_of(path[i])
            == refresh_of(path[j]),
    decreases j,
{
    assert(leads_to(path[i], path[i + 1]));
    assert(leads_to(path[j - 1], path[j]));
    if i < j - 1 {
        assert(leads_to(path[j - 2], path[j - 1]));
        law_fetch_takes_its_steps_in_order(path, i, j - 1);
    }
}

/// Waiting for a refresh ends: with a pause before each look there are at most as
/// many looks that do not come too late as pauses begin within the time limit,
/// which makes forty for a fetch.
pub proof fn law_waiting_ends(elapsed: Seq<u64>, timeout_secs: u64)
    requires
        forall|i: int| 0 <= i < elapsed.len() ==> #[trigger] elapsed[i] < timeout_secs,
        forall|i: int, j: int|
            0 <= i && j == i + 1 && j < elapsed.len() ==> #[trigger] elapsed[i] + PAUSE_SECS
                <= #[trigger] elapsed[j],
    ensures
        elapsed.len() <= (timeout_secs + PAUSE_SECS - 1) / PAUSE_SECS as int,
        timeout_secs == WAIT_SECS ==> elapsed.len() <= 40,
{
    if elapsed.len() > 0 {
        waited_at_least(elapsed, elapsed.len() - 1);
    }
}

/// Each look comes a pause later.
proof fn waited_at_least(elapsed: Seq<u64>, n: int)
    requires
        0 <= n < elapsed.len(),
        forall|i: int, j: int|
            0 <= i && j == i + 1 && j < elapsed.len() ==> #[trigger] elapsed[i] + PAUSE_SECS
                <= #[trigger] elapsed[j],
    ensures
        elapsed[n] >= n * PAUSE_SECS,
    decreases n,
{
    if n > 0 {
        waited_at_least(elapsed, n - 1);
        assert(elapsed[n - 1] + PAUSE_SECS <= elapsed[n]);
    }
}

/// Accounts in other currencies are ignored: leaving them out beforehand makes
/// no difference.
pub proof fn law_other_currencies_are_ignored<F: Fn(&Vec<Balance>) -> Balance>(
    d: LedgerData,
    sum: F,
    accounts: Seq<AkahuAccount>,
    date: Seq<char>,
    after: LedgerData,
    error: Option<LedgerError>,
)
    ensures
        d.fetch_stored(sum, accounts, date, after, error) <==> d.fetch_stored(
            sum,
            nzd_accounts(accounts),
            date,
            after,
            error,
        ),
{
    let keep = |a: AkahuAccount| is_nzd(a);
    crate::filters::filter_twice(accounts, keep, keep, keep);
}

/// Whether one of the accounts has the identifier.
pub open spec fn lists(accounts: Seq<AkahuAccount>, id: Seq<char>) -> bool {
    exists|i: int| 0 <= i < accounts.len() && (#[trigger] accounts[i]).id@ == id
}

/// Storing fetched accounts keeps every account that there was, with its
/// currency, its kind and whether it is hidden, and leaves those that were not
/// fetched as they are. Every other new account is visible, in NZD and not
/// manual.
pub proof fn law_fetch_keeps_choices(
    d: LedgerData,
    accounts: Seq<AkahuAccount>,
    date: Seq<char>,
    id: Seq<char>,
)
    ensures
        ({
            let after = d.with_all_fetched(accounts, date).0;
            &&& d.accounts.contains_key(id) ==> {
                &&& after.accounts.contains_key(id)
                &&& after.accounts[id].currency == d.accounts[id].currency
                &&& after.accounts[id].is_manual == d.accounts[id].is_manual
                &&& after.accounts[id].is_ignored == d.accounts[id].is_ignored
            }
            &&& !d.accounts.contains_key(id) && after.accounts.contains_key(id) ==> {
                &&& after.accounts[id].currency == "NZD"@
                &&& !after.accounts[id].is_manual
                &&& !after.accounts[id].is_ignored
            }
            &&& !lists(accounts, id) ==> {
                &&& after.accounts.contains_key(id) == d.accounts.contains_key(id)
                &&& after.accounts[id] == d.accounts[id]
            }
        }),
    decreases accounts.len(),
{
    if accounts.len() > 0 {
        let rest = accounts.drop_last();
        law_fetch_keeps_choices(d, rest, date, id);
        assert(accounts[accounts.len() - 1] == accounts.last());
        if lists(rest, id) {
            let i = choose|i: int| 0 <= i < rest.len() && (#[trigger] rest[i]).id@ == id;
            assert(accounts[i].id@ == id);
        }
    }
}

/// After fetched accounts are stored, each of them has exactly one value on the
/// day, its balance, the last one where an account is listed twice. The values
/// of other accounts and of other days are what they were.
pub proof fn law_fetch_stores_each_balance_once(
    d: LedgerData,
    accounts: Seq<AkahuAccount>,
    date: Seq<char>,
    i: int,
    other_id: Seq<char>,
    other_date: Seq<char>,
)
    requires
        d.with_all_fetched(accounts, date).1 is None,
    ensures
        ({
            let after = d.with_all_fetched(accounts, date).0;
            &&& 0 <= i < accounts.len() && !lists(accounts.skip(i + 1), accounts[i].id@) ==> {
                &&& crate::totals::day_values(after, accounts[i].id@, date).len() == 1
                &&& crate::totals::day_values(after, accounts[i].id@, date)[0].balance
                    == current_balance(accounts[i])
            }
            &&& !lists(accounts, other_id) || other_date != date ==> crate::totals::day_values(
                after,
                other_id,
                other_date,
            ) == crate::totals::day_values(d, other_id, other_date)
        }),
    decreases accounts.len(),
{
    if accounts.len() > 0 {
        let n = accounts.len() - 1;
        let rest = accounts.drop_last();
        let last = accounts.last();
        let before = d.with_all_fetched(rest, date).0;
        let filed = before.with_account(before.fetched_account(last));
        assert(accounts[n] == last);
        law_fetch_stores_each_balance_once(d, rest, date, i, other_id, other_date);
        if lists(rest, other_id) {
            let k = choose|k: int| 0 <= k < rest.len() && (#[trigger] rest[k]).id@ == other_id;
            assert(accounts[k].id@ == other_id);
        }
        crate::totals::law_one_value_per_day(
            filed,
            last.id@,
            current_balance(last),
            date,
            other_id,
            other_date,
        );
        if 0 <= i < n && !lists(accounts.skip(i + 1), accounts[i].id@) {
            assert(rest[i] == accounts[i]);
            assert(accounts.skip(i + 1)[n - i - 1] == last);
            if lists(rest.skip(i + 1), accounts[i].id@) {
                let k = choose|k: int|
                    0 <= k < rest.skip(i + 1).len() && (#[trigger] rest.skip(i + 1)[k]).id@
                        == accounts[i].id@;
                assert(accounts.skip(i + 1)[k].id@ == accounts[i].id@);
            }
            crate::totals::law_one_value_per_day(
                filed,
                last.id@,
                current_balance(last),
                date,
                accounts[i].id@,
                date,
            );
        }
    }
}

/// The entries of the fetch log for a day.
pub open spec fn day_fetches(d: LedgerData, day: Seq<char>) -> Seq<FetchData> {
    d.fetches.filter(|f: FetchData| f.fetched_at == day)
}

/// Logging a fetch leaves exactly one entry for the day, however many there
/// were, and the entries of other days as they were.
pub proof fn law_one_log_entry_per_day(d: LedgerData, day: Seq<char>, other: Seq<char>)
    requires
        d.with_logged(day).1 is None,
    ensures
        day_fetches(d.with_logged(day).0, day).len() == 1,
        crate::merge::has_fetch(d.with_logged(day).0.fetches, day),
        other != day ==> day_fetches(d.with_logged(day).0, other) == day_fetches(d, other),
{
    let keep = |f: FetchData| f.fetched_at != day;
    let here = |f: FetchData| f.fetched_at == day;
    let there = |f: FetchData| f.fetched_at == other;
    let never = |f: FetchData| false;
    let after = d.with_logged(day).0;
    reveal(Seq::filter);
    assert(after.fetches.drop_last() =~= d.fetches.filter(keep));
    assert(after.fetches[after.fetches.len() - 1].fetched_at == day);
    crate::filters::filter_twice(d.fetches, keep, here, never);
    crate::filters::filter_keeps_nothing(d.fetches, never);
    if other != day {
        crate::filters::filter_twice(d.fetches, keep, there, there);
    }
}

/// A fetch that went through has stored each fetched balance once under the day,
/// has kept which accounts are hidden, and is on record, so that the next fetch
/// of the day does nothing.
pub proof fn law_fetch_goes_on_record<F: Fn(&Vec<Balance>) -> Balance>(
    d: LedgerData,
    sum: F,
    accounts: Seq<AkahuAccount>,
    date: Seq<char>,
    after: LedgerData,
    i: int,
    id: Seq<char>,
)
    requires
        d.fetch_stored(sum, accounts, date, after, None),
    ensures
        crate::merge::has_fetch(after.fetches, date),
        day_fetches(after, date).len() == 1,
        ({
            let nzd = nzd_accounts(accounts);
            0 <= i < nzd.len() && !lists(nzd.skip(i + 1), nzd[i].id@)
                && !crate::totals::is_virtual(nzd[i].id@) ==> {
                &&& crate::totals::day_values(after, nzd[i].id@, date).len() == 1
                &&& crate::totals::day_values(after, nzd[i].id@, date)[0].balance
                    == current_balance(nzd[i])
            }
        }),
        d.accounts.contains_key(id) ==> after.accounts.contains_key(id)
            && after.accounts[id].is_ignored == d.accounts[id].is_ignored,
{
    let nzd = nzd_accounts(accounts);
    let saved = d.with_all_fetched(nzd, date);
    let (totalled, e) = choose|totalled: LedgerData, e: Option<LedgerError>|
        {
            &&& #[trigger] saved.0.recomputed(sum, date, totalled, e)
            &&& if e is Some {
                (after, None::<LedgerError>) == (totalled, e)
            } else {
                (after, None::<LedgerError>) == totalled.with_logged(date)
            }
        };
    law_one_log_entry_per_day(totalled, date, date);
    law_fetch_keeps_choices(d, nzd, date, id);
    if 0 <= i < nzd.len() {
        law_fetch_stores_each_balance_once(d, nzd, date, i, id, date);
        crate::totals::law_one_total_per_day(
            saved.0,
            sum,
            date,
            totalled,
            nzd[i].id@,
            date,
        );
    }
}

} // verus!
