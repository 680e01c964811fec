//! Settings of the app.
use vstd::prelude::*;

use crate::ledger::{Ledger, LedgerData};
use crate::text::text_eq;

verus! {

/// Whether balances are fetched on launch.
pub const AUTOFETCH_KEY: &'static str = "autofetch";

/// Whether the ledger was copied into iCloud Drive.
pub const MIGRATED_KEY: &'static str = "migrated_to_icloud";

/// The text of a switch.
pub open spec fn switch_text(on: bool) -> Seq<char> {
    if on {
        "true"@
    } else {
        "false"@
    }
}

impl LedgerData {
    /// Whether balances are fetched on launch: not unless it was chosen.
    pub open spec fn autofetch(self) -> bool {
        self.setting_value(AUTOFETCH_KEY@) == Some("true"@)
    }
}

impl Ledger {
    /// Whether balances are fetched on launch.
    pub fn get_autofetch_setting(&self) -> (r: bool)
        requires
            self.well_formed(),
        ensures
            r == self@.autofetch(),
    {
        match self.setting(AUTOFETCH_KEY) {
            Some(value) => text_eq(value.as_str(), "true"),
            None => false,
        }
    }

    /// Chooses whether balances are fetched on launch.
    pub fn set_autofetch_setting(&mut self, enabled: bool)
        requires
            old(self).well_formed(),
        ensures
            final(self).well_formed(),
            final(self)@ == old(self)@.with_setting(AUTOFETCH_KEY@, switch_text(enabled)),
    {
        let value: &str = if enabled {
            "true"
        } else {
            "false"
        };
        self.set_setting(AUTOFETCH_KEY, value);
    }

    /// Notes that the ledger was copied into iCloud Drive.
    pub fn mark_migrated(&mut self)
        requires
            old(self).well_formed(),
        ensures
            final(self).well_formed(),
            final(self)@ == old(self)@.with_setting(MIGRATED_KEY@, "true"@),
    {
        self.set_setting(MIGRATED_KEY, "true");
    }
}

/// A setting reads back as it was written, and the others as they were.
pub proof fn law_settings_read_back(
    d: LedgerData,
    key: Seq<char>,
    value: Seq<char>,
    other: Seq<char>,
)
    ensures
        d.with_setting(key, value).setting_value(key) == Some(value),
        other != key ==> d.with_setting(key, value).setting_value(other) == d.setting_value(
            other,
        ),
{
}

/// The choice to fetch on launch reads back as it was made.
pub proof fn law_autofetch_reads_back(d: LedgerData, enabled: bool)
    ensures
        d.with_setting(AUTOFETCH_KEY@, switch_text(enabled)).autofetch() == enabled,
{
    reveal_strlit("true");
    reveal_strlit("false");
    assert("true"@.len() != "false"@.len());
}

} // verus!
