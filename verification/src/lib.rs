//! Verified core of a personal finance ledger.
//!
//! A [`Ledger`] holds accounts, their recorded balances by day, a log of fetches
//! and settings. Balances come from Akahu or are entered by hand, and virtual
//! accounts hold the totals of each day. Ledgers that were changed on different
//! machines are merged without loss.
pub mod akahu;
pub mod backup;
pub mod balance;
pub mod changes;
pub mod dates;
pub mod filters;
pub mod integrity;
pub mod ledger;
pub mod manual;
pub mod merge;
pub mod model;
pub mod outcomes;
pub mod paths;
pub mod reports;
pub mod settings;
pub mod text;
pub mod totals;

pub use backup::{backup_interval_secs, backup_keep_count};
pub use balance::Balance;
pub use ledger::{Ledger, LedgerError};
pub use model::{
    Account, AccountChange, AccountHistory, AccountSummary, AccountValue,
    AddManualAccountRequest, AddManualValueRequest, DeletedValue,
};
pub use text::truncate_str;
