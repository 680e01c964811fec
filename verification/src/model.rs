//! The records of the ledger and what they hold.
use vstd::prelude::*;

use crate::balance::Balance;

verus! {

/// An account, real, manual or virtual.
#[derive(Debug, Clone, PartialEq, Eq)]
pub struct Account {
    pub id: String,
    pub name: String,
    pub account_type: String,
    pub institution: String,
    pub currency: String,
    pub is_manual: bool,
    pub is_ignored: bool,
}

/// What an [`Account`] holds.
pub struct AccountData {
    pub id: Seq<char>,
    pub name: Seq<char>,
    pub account_type: Seq<char>,
    pub institution: Seq<char>,
    pub currency: Seq<char>,
    pub is_manual: bool,
    pub is_ignored: bool,
}

impl View for Account {
    type V = AccountData;

    open spec fn view(&self) -> AccountData {
        AccountData {
            id: self.id@,
            name: self.name@,
            account_type: self.account_type@,
            institution: self.institution@,
            currency: self.currency@,
            is_manual: self.is_manual,
            is_ignored: self.is_ignored,
        }
    }
}

impl Account {
    /// An equal account.
    pub(crate) fn duplicate(&self) -> (r: Account)
        ensures
            r == *self,
    {
        Account {
            id: self.id.clone(),
            name: self.name.clone(),
            account_type: self.account_type.clone(),
            institution: self.institution.clone(),
            currency: self.currency.clone(),
            is_manual: self.is_manual,
            is_ignored: self.is_ignored,
        }
    }
}

/// One recorded balance of an account.
#[derive(Debug, Clone, PartialEq, Eq)]
pub struct AccountValue {
    pub id: i64,
    pub account_id: String,
    pub balance: Balance,
    pub recorded_date: String,
}

/// What an [`AccountValue`] holds.
pub struct ValueData {
    pub id: i64,
    pub account_id: Seq<char>,
    pub balance: Balance,
    pub recorded_date: Seq<char>,
}

impl View for AccountValue {
    type V = ValueData;

    open spec fn view(&self) -> ValueData {
        ValueData {
            id: self.id,
            account_id: self.account_id@,
            balance: self.balance,
            recorded_date: self.recorded_date@,
        }
    }
}

impl AccountValue {
    /// An equal value.
    pub(crate) fn duplicate(&self) -> (r: AccountValue)
        ensures
            r == *self,
    {
        AccountValue {
            id: self.id,
            account_id: self.account_id.clone(),
            balance: self.balance,
            recorded_date: self.recorded_date.clone(),
        }
    }
}

/// One entry of the fetch log: the day of a completed fetch.
#[derive(Debug, Clone, PartialEq, Eq)]
pub struct FetchEntry {
    pub id: i64,
    pub fetched_at: String,
}

/// What a [`FetchEntry`] holds.
pub struct FetchData {
    pub id: i64,
    pub fetched_at: Seq<char>,
}

impl View for FetchEntry {
    type V = FetchData;

    open spec fn view(&self) -> FetchData {
        FetchData { id: self.id, fetched_at: self.fetched_at@ }
    }
}

impl FetchEntry {
    /// An equal entry.
    pub(crate) fn duplicate(&self) -> (r: FetchEntry)
        ensures
            r == *self,
    {
        FetchEntry { id: self.id, fetched_at: self.fetched_at.clone() }
    }
}

/// A named setting.
#[derive(Debug, Clone, PartialEq, Eq)]
pub struct Setting {
    pub key: String,
    pub value: String,
}

/// An account with its latest and its highest balance.
#[derive(Debug, Clone, PartialEq, Eq)]
pub struct AccountSummary {
    pub account: Account,
    pub latest_balance: Option<Balance>,
    pub latest_date: Option<String>,
    pub max_balance: Option<Balance>,
}

/// An account with all its values by date.
#[derive(Debug, Clone, PartialEq, Eq)]
pub struct AccountHistory {
    pub account: Account,
    pub values: Vec<AccountValue>,
    pub current_balance: Option<Balance>,
    pub min_balance: Option<Balance>,
    pub max_balance: Option<Balance>,
}

/// What a new manual account is made from.
#[derive(Debug, Clone, PartialEq, Eq)]
pub struct AddManualAccountRequest {
    pub name: String,
    pub account_type: String,
    pub institution: String,
}

/// A hand-entered balance for a manual account.
#[derive(Debug, Clone, PartialEq, Eq)]
pub struct AddManualValueRequest {
    pub account_id: String,
    pub balance: Balance,
}

/// The value that an undo removed.
#[derive(Debug, Clone, PartialEq, Eq)]
pub struct DeletedValue {
    pub balance: Balance,
    pub recorded_date: String,
}

/// Two balances whose difference is reported.
#[derive(Debug, Clone, Copy, PartialEq, Eq, Structural)]
pub struct BalanceChange {
    pub current: Balance,
    pub previous: Balance,
}

/// How an account changed over a period.
///
/// `change_amount` stands for `current - previous`, and `change_percent` for
/// that difference as a percentage of the magnitude of `previous`.
#[derive(Debug, Clone, PartialEq, Eq)]
pub struct AccountChange {
    pub period: String,
    pub previous_balance: Option<Balance>,
    pub previous_date: Option<String>,
    pub change_amount: Option<BalanceChange>,
    pub change_percent: Option<BalanceChange>,
}

/// The contents of an optional text.
pub open spec fn text_data(s: Option<String>) -> Option<Seq<char>> {
    match s {
        Some(t) => Some(t@),
        None => None,
    }
}

} // verus!
