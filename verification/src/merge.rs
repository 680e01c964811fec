//! Lossless merging of conflict copies of the ledger.
use vstd::prelude::*;

use crate::balance::Balance;
use crate::ledger::{Ledger, LedgerData, LedgerError};
use crate::model::{Account, AccountData, AccountValue, FetchData, FetchEntry, ValueData};
use crate::text::{decimal_text, ends_with, joined, starts_with, text_eq};

verus! {

/// Whether the account has a value on the day.
pub open spec fn has_day(values: Seq<ValueData>, account_id: Seq<char>, date: Seq<char>) -> bool {
    exists|i: int|
        0 <= i < values.len() && crate::ledger::on_day(#[trigger] values[i], account_id, date)
}

/// Whether a fetch of the day is logged.
pub open spec fn has_fetch(fetches: Seq<FetchData>, day: Seq<char>) -> bool {
    exists|i: int| 0 <= i < fetches.len() && (#[trigger] fetches[i]).fetched_at == day
}

/// The values of `other` on days on which `live` has none for the account.
pub open spec fn fresh_values(live: Seq<ValueData>, other: Seq<ValueData>) -> Seq<ValueData> {
    other.filter(|r: ValueData| !has_day(live, r.account_id, r.recorded_date))
}

/// The fetches of `other` on days that `live` has not logged.
pub open spec fn fresh_fetches(live: Seq<FetchData>, other: Seq<FetchData>) -> Seq<FetchData> {
    other.filter(|f: FetchData| !has_fetch(live, f.fetched_at))
}

/// Values under new identifiers that follow `last`.
pub open spec fn renumbered(rows: Seq<ValueData>, last: i64) -> Seq<ValueData> {
    Seq::new(rows.len(), |i: int| ValueData { id: (last + 1 + i) as i64, ..rows[i] })
}

/// Fetches under new identifiers that follow `last`.
pub open spec fn renumbered_fetches(rows: Seq<FetchData>, last: i64) -> Seq<FetchData> {
    Seq::new(rows.len(), |i: int| FetchData { id: (last + 1 + i) as i64, ..rows[i] })
}

/// Whether every value belongs to one of the accounts.
pub open spec fn all_known(accounts: Map<Seq<char>, AccountData>, rows: Seq<ValueData>) -> bool {
    forall|i: int| 0 <= i < rows.len() ==> accounts.contains_key((#[trigger] rows[i]).account_id)
}

impl LedgerData {
    /// The ledger with the accounts of the other that it lacks.
    pub open spec fn with_accounts_of(self, other: LedgerData) -> LedgerData {
        LedgerData { accounts: other.accounts.union_prefer_right(self.accounts), ..self }
    }

    /// The ledger with more values, under new identifiers.
    pub open spec fn with_values(self, rows: Seq<ValueData>) -> LedgerData {
        LedgerData {
            values: self.values + renumbered(rows, self.last_value_id),
            last_value_id: (self.last_value_id + rows.len()) as i64,
            ..self
        }
    }

    /// The ledger with more fetches, under new identifiers.
    pub open spec fn with_fetches(self, rows: Seq<FetchData>) -> LedgerData {
        LedgerData {
            fetches: self.fetches + renumbered_fetches(rows, self.last_fetch_id),
            last_fetch_id: (self.last_fetch_id + rows.len()) as i64,
            ..self
        }
    }

    /// The ledger with the settings of the other that it lacks.
    pub open spec fn with_settings_of(self, other: LedgerData) -> LedgerData {
        LedgerData { settings: other.settings.union_prefer_right(self.settings), ..self }
    }

    /// The union with another ledger: accounts by identifier, values by account
    /// and day, fetches by day, settings by name. On a collision this ledger's
    /// entry stays. It stops before the first step that runs out of identifiers,
    /// and before the values if one of them belongs to no account.
    pub open spec fn merged(self, other: LedgerData) -> (LedgerData, Option<LedgerError>) {
        let a = self.with_accounts_of(other);
        let rows = fresh_values(self.values, other.values);
        let days = fresh_fetches(self.fetches, other.fetches);
        if self.last_value_id + rows.len() > i64::MAX {
            (a, Some(LedgerError::NoIdLeft))
        } else if !all_known(a.accounts, rows) {
            (a, Some(LedgerError::UnknownAccount))
        } else if self.last_fetch_id + days.len() > i64::MAX {
            (a.with_values(rows), Some(LedgerError::NoIdLeft))
        } else {
            (a.with_values(rows).with_fetches(days).with_settings_of(other), None)
        }
    }

    /// The ledger with one copy after the other merged into it.
    pub open spec fn merged_all(self, copies: Seq<LedgerData>) -> LedgerData
        decreases copies.len(),
    {
        if copies.len() == 0 {
            self
        } else {
            self.merged_all(copies.drop_last()).merged(copies.last()).0
        }
    }

    /// Why the copy cannot be merged once the copies before it were, if it cannot.
    pub open spec fn copy_refusal(self, copies: Seq<LedgerData>, i: int) -> Option<LedgerError> {
        self.merged_all(copies.take(i)).merged(copies[i]).1
    }
}

impl Ledger {
    /// Whether the account has a value on the day.
    fn has_value_on(&self, account_id: &String, date: &String) -> (r: bool)
        ensures
            r == has_day(self@.values, account_id@, date@),
    {
        let ghost rows = self@.values;
        let mut i: usize = 0;
        while i < self.values.len()
            invariant
                i <= self.values.len(),
                rows == self@.values,
                rows.len() == self.values.len(),
                forall|j: int|
                    0 <= j < i ==> !crate::ledger::on_day(
                        #[trigger] rows[j],
                        account_id@,
                        date@,
                    ),
            decreases self.values.len() - i,
        {
            assert(rows[i as int] == self.values[i as int]@);
            if self.values[i].account_id == *account_id && self.values[i].recorded_date == *date {
                assert(crate::ledger::on_day(rows[i as int], account_id@, date@));
                return true;
            }
            i = i + 1;
        }
        false
    }

    /// Whether a fetch of the day is logged.
    pub(crate) fn has_fetch_on(&self, day: &str) -> (r: bool)
        ensures
            r == has_fetch(self@.fetches, day@),
    {
        let ghost rows = self@.fetches;
        let mut i: usize = 0;
        while i < self.fetches.len()
            invariant
                i <= self.fetches.len(),
                rows == self@.fetches,
                rows.len() == self.fetches.len(),
                forall|j: int| 0 <= j < i ==> (#[trigger] rows[j]).fetched_at != day@,
            decreases self.fetches.len() - i,
        {
            assert(rows[i as int] == self.fetches[i as int]@);
            if text_eq(self.fetches[i].fetched_at.as_str(), day) {
                assert(rows[i as int].fetched_at == day@);
                return true;
            }
            i = i + 1;
        }
        false
    }

    /// The values of `other` on days on which this ledger has none.
    fn fresh_values_of(&self, other: &Ledger) -> (r: Vec<AccountValue>)
        ensures
            crate::ledger::value_rows(r@) == fresh_values(self@.values, other@.values),
    {
        let ghost live = self@.values;
        let ghost rows = other@.values;
        let ghost keep = |r: ValueData| !has_day(live, r.account_id, r.recorded_date);
        let mut out: Vec<AccountValue> = Vec::new();
        let mut i: usize = 0;
        assert(crate::ledger::value_rows(out@) =~= rows.take(0).filter(keep)) by {
            reveal(Seq::filter);
        }
        while i < other.values.len()
            invariant
                i <= other.values.len(),
                live == self@.values,
                rows == other@.values,
                rows.len() == other.values.len(),
                keep == (|r: ValueData| !has_day(live, r.account_id, r.recorded_date)),
                crate::ledger::value_rows(out@) == rows.take(i as int).filter(keep),
            decreases other.values.len() - i,
        {
            let ghost next = rows.take(i + 1);
            assert(next.drop_last() =~= rows.take(i as int));
            assert(next.last() == other.values[i as int]@);
            proof {
                reveal(Seq::filter);
            }
            if !self.has_value_on(&other.values[i].account_id, &other.values[i].recorded_date) {
                let ghost before = out@;
                out.push(other.values[i].duplicate());
                assert(crate::ledger::value_rows(out@) =~= crate::ledger::value_rows(before).push(
                    next.last(),
                ));
            }
            i = i + 1;
        }
        assert(rows.take(rows.len() as int) =~= rows);
        out
    }

    /// The fetches of `other` on days that this ledger has not logged.
    fn fresh_fetches_of(&self, other: &Ledger) -> (r: Vec<FetchEntry>)
        ensures
            crate::ledger::fetch_rows(r@) == fresh_fetches(self@.fetches, other@.fetches),
    {
        let ghost live = self@.fetches;
        let ghost rows = other@.fetches;
        let ghost keep = |f: FetchData| !has_fetch(live, f.fetched_at);
        let mut out: Vec<FetchEntry> = Vec::new();
        let mut i: usize = 0;
        assert(crate::ledger::fetch_rows(out@) =~= rows.take(0).filter(keep)) by {
            reveal(Seq::filter);
        }
        while i < other.fetches.len()
            invariant
                i <= other.fetches.len(),
                live == self@.fetches,
                rows == other@.fetches,
                rows.len() == other.fetches.len(),
                keep == (|f: FetchData| !has_fetch(live, f.fetched_at)),
                crate::ledger::fetch_rows(out@) == rows.take(i as int).filter(keep),
            decreases other.fetches.len() - i,
        {
            let ghost next = rows.take(i + 1);
            assert(next.drop_last() =~= rows.take(i as int));
            assert(next.last() == other.fetches[i as int]@);
            proof {
                reveal(Seq::filter);
            }
            if !self.has_fetch_on(other.fetches[i].fetched_at.as_str()) {
                let ghost before = out@;
                out.push(other.fetches[i].duplicate());
                assert(crate::ledger::fetch_rows(out@) =~= crate::ledger::fetch_rows(before).push(
                    next.last(),
                ));
            }
            i = i + 1;
        }
        assert(rows.take(rows.len() as int) =~= rows);
        out
    }

    /// Takes over the accounts of `other` that this ledger lacks.
    fn add_missing_accounts(&mut self, other: &Ledger)
        requires
            old(self).well_formed(),
            other.well_formed(),
        ensures
            final(self).well_formed(),
            final(self)@ == old(self)@.with_accounts_of(other@),
    {
        let ghost live = self@.accounts;
        let mut i: usize = 0;
        let ghost entries = crate::ledger::account_entries(other.accounts@);
        proof {
            assert(entries.take(0) =~= Seq::empty());
            assert(self@.accounts =~= crate::ledger::keyed(entries.take(0)).union_prefer_right(
                live,
            ));
        }
        while i < other.accounts.len()
            invariant
                i <= other.accounts.len(),
                self.well_formed(),
                live == old(self)@.accounts,
                entries == crate::ledger::account_entries(other.accounts@),
                entries.len() == other.accounts.len(),
                self@ == (LedgerData {
                    accounts: crate::ledger::keyed(entries.take(i as int)).union_prefer_right(live),
                    ..old(self)@
                }),
                crate::ledger::distinct_keys(entries),
            decreases other.accounts.len() - i,
        {
            let ghost key = other.accounts[i as int].id@;
            let ghost now = crate::ledger::keyed(entries.take(i as int));
            let ghost next = crate::ledger::keyed(entries.take(i + 1));
            proof {
                assert(entries.take(i + 1).drop_last() =~= entries.take(i as int));
                assert(entries.take(i + 1).last() == entries[i as int]);
                assert(entries[i as int] == (key, other.accounts[i as int]@));
                assert(next == now.insert(key, other.accounts[i as int]@));
                crate::ledger::keyed_has_entries(entries.take(i as int));
                if now.contains_key(key) {
                    let j = choose|j: int|
                        0 <= j < entries.take(i as int).len() && (#[trigger] entries.take(
                            i as int,
                        )[j]).0 == key;
                    assert(entries[j].0 != entries[i as int].0);
                }
                assert(!now.contains_key(key));
            }
            if self.find_account(other.accounts[i].id.as_str()).is_none() {
                let account: Account = other.accounts[i].duplicate();
                self.put_account(account);
            }
            assert(self@.accounts =~= next.union_prefer_right(live));
            i = i + 1;
        }
        assert(entries.take(entries.len() as int) =~= entries);
    }

    /// Takes over the settings of `other` that this ledger lacks.
    fn add_missing_settings(&mut self, other: &Ledger)
        requires
            old(self).well_formed(),
            other.well_formed(),
        ensures
            final(self).well_formed(),
            final(self)@ == old(self)@.with_settings_of(other@),
    {
        let ghost live = self@.settings;
        let mut i: usize = 0;
        let ghost entries = crate::ledger::setting_entries(other.settings@);
        proof {
            assert(entries.take(0) =~= Seq::empty());
            assert(self@.settings =~= crate::ledger::keyed(entries.take(0)).union_prefer_right(
                live,
            ));
        }
        while i < other.settings.len()
            invariant
                i <= other.settings.len(),
                self.well_formed(),
                live == old(self)@.settings,
                entries == crate::ledger::setting_entries(other.settings@),
                entries.len() == other.settings.len(),
                self@ == (LedgerData {
                    settings: crate::ledger::keyed(entries.take(i as int)).union_prefer_right(live),
                    ..old(self)@
                }),
                crate::ledger::distinct_keys(entries),
            decreases other.settings.len() - i,
        {
            let ghost key = other.settings[i as int].key@;
            let ghost now = crate::ledger::keyed(entries.take(i as int));
            let ghost next = crate::ledger::keyed(entries.take(i + 1));
            proof {
                assert(entries.take(i + 1).drop_last() =~= entries.take(i as int));
                assert(entries.take(i + 1).last() == entries[i as int]);
                assert(entries[i as int] == (key, other.settings[i as int].value@));
                assert(next == now.insert(key, other.settings[i as int].value@));
                crate::ledger::keyed_has_entries(entries.take(i as int));
                if now.contains_key(key) {
                    let j = choose|j: int|
                        0 <= j < entries.take(i as int).len() && (#[trigger] entries.take(
                            i as int,
                        )[j]).0 == key;
                    assert(entries[j].0 != entries[i as int].0);
                }
                assert(!now.contains_key(key));
            }
            if self.setting(other.settings[i].key.as_str()).is_none() {
                self.set_setting(other.settings[i].key.as_str(), other.settings[i].value.as_str());
            }
            assert(self@.settings =~= next.union_prefer_right(live));
            i = i + 1;
        }
        assert(entries.take(entries.len() as int) =~= entries);
    }

    /// Whether every value belongs to an account.
    fn knows_all(&self, rows: &Vec<AccountValue>) -> (r: bool)
        requires
            self.well_formed(),
        ensures
            r == all_known(self@.accounts, crate::ledger::value_rows(rows@)),
    {
        let ghost all = crate::ledger::value_rows(rows@);
        let mut i: usize = 0;
        while i < rows.len()
            invariant
                i <= rows.len(),
                self.well_formed(),
                all == crate::ledger::value_rows(rows@),
                all.len() == rows.len(),
                forall|j: int|
                    0 <= j < i ==> self@.accounts.contains_key((#[trigger] all[j]).account_id),
            decreases rows.len() - i,
        {
            assert(all[i as int] == rows[i as int]@);
            if self.find_account(rows[i].account_id.as_str()).is_none() {
                return false;
            }
            i = i + 1;
        }
        true
    }

    /// Adds values under new identifiers.
    fn append_values(&mut self, rows: &Vec<AccountValue>)
        requires
            old(self).well_formed(),
            old(self).last_value_id + rows.len() <= i64::MAX,
            forall|i: int| 0 <= i < rows.len() ==> (#[trigger] rows[i]).balance.number(),
            all_known(old(self)@.accounts, crate::ledger::value_rows(rows@)),
        ensures
            final(self).well_formed(),
            final(self)@ == old(self)@.with_values(crate::ledger::value_rows(rows@)),
    {
        let ghost all = crate::ledger::value_rows(rows@);
        let ghost start = self@;
        let mut i: usize = 0;
        assert(start.with_values(all.take(0)).values =~= start.values);
        while i < rows.len()
            invariant
                i <= rows.len(),
                self.well_formed(),
                start == old(self)@,
                start.last_value_id + rows.len() <= i64::MAX,
                forall|k: int| 0 <= k < rows.len() ==> (#[trigger] rows[k]).balance.number(),
                all == crate::ledger::value_rows(rows@),
                all_known(start.accounts, all),
                self@ == start.with_values(all.take(i as int)),
            decreases rows.len() - i,
        {
            assert(all[i as int] == rows[i as int]@);
            let added: Result<(), LedgerError> = self.insert_value(
                rows[i].account_id.as_str(),
                rows[i].balance,
                rows[i].recorded_date.as_str(),
            );
            assert(added is Ok);
            assert(all.take(i + 1) =~= all.take(i as int).push(rows[i as int]@));
            assert(self@.values =~= start.with_values(all.take(i + 1)).values);
            i = i + 1;
        }
        assert(all.take(all.len() as int) =~= all);
    }

    /// Adds fetches under new identifiers.
    fn append_fetches(&mut self, rows: &Vec<FetchEntry>)
        requires
            old(self).well_formed(),
            old(self).last_fetch_id + rows.len() <= i64::MAX,
        ensures
            final(self).well_formed(),
            final(self)@ == old(self)@.with_fetches(crate::ledger::fetch_rows(rows@)),
    {
        let ghost all = crate::ledger::fetch_rows(rows@);
        let ghost start = self@;
        let mut i: usize = 0;
        assert(start.with_fetches(all.take(0)).fetches =~= start.fetches);
        while i < rows.len()
            invariant
                i <= rows.len(),
                self.well_formed(),
                start == old(self)@,
                start.last_fetch_id + rows.len() <= i64::MAX,
                all == crate::ledger::fetch_rows(rows@),
                self@ == start.with_fetches(all.take(i as int)),
            decreases rows.len() - i,
        {
            let ghost before = self@.fetches;
            let id: i64 = self.last_fetch_id + 1;
            let entry = FetchEntry { id, fetched_at: rows[i].fetched_at.clone() };
            self.last_fetch_id = id;
            self.fetches.push(entry);
            assert(self@.fetches =~= before.push(entry@));
            assert(all.take(i + 1) =~= all.take(i as int).push(rows[i as int]@));
            assert(self@.fetches =~= start.with_fetches(all.take(i + 1)).fetches);
            i = i + 1;
        }
        assert(all.take(all.len() as int) =~= all);
    }

    /// Merges a conflict copy into this ledger.
    pub fn merge_one_conflict(&mut self, other: &Ledger) -> (r: Result<(), LedgerError>)
        requires
            old(self).well_formed(),
            other.well_formed(),
        ensures
            final(self).well_formed(),
            (final(self)@, crate::totals::failure(r)) == old(self)@.merged(other@),
    {
        self.add_missing_accounts(other);
        let rows: Vec<AccountValue> = self.fresh_values_of(other);
        let days: Vec<FetchEntry> = self.fresh_fetches_of(other);
        let ghost fresh = fresh_values(old(self)@.values, other@.values);
        assert(fresh.len() == rows.len());
        assert(fresh_fetches(old(self)@.fetches, other@.fetches).len() == days.len());
        if rows.len() as u64 > (i64::MAX - self.last_value_id) as u64 {
            return Err(LedgerError::NoIdLeft);
        }
        if !self.knows_all(&rows) {
            return Err(LedgerError::UnknownAccount);
        }
        proof {
            assert forall|i: int| 0 <= i < rows.len() implies (
            #[trigger] rows[i]).balance.number() by {
                assert(fresh[i] == rows[i]@);
                crate::filters::filter_only_keeps(
                    other@.values,
                    |r: ValueData| !has_day(old(self)@.values, r.account_id, r.recorded_date),
                    i,
                );
            }
        }
        self.append_values(&rows);
        if days.len() as u64 > (i64::MAX - self.last_fetch_id) as u64 {
            return Err(LedgerError::NoIdLeft);
        }
        self.append_fetches(&days);
        self.add_missing_settings(other);
        Ok(())
    }

    /// Merges conflict copies into this ledger, one after the other, and tells
    /// for each why it could not be merged, if so. Such a copy is to stay in
    /// place, so that a later merge can take it up again; the others are to be
    /// archived.
    pub fn merge_conflict_copies(&mut self, copies: &Vec<Ledger>) -> (r: Vec<Option<LedgerError>>)
        requires
            old(self).well_formed(),
            forall|i: int| 0 <= i < copies.len() ==> (#[trigger] copies[i]).well_formed(),
        ensures
            final(self).well_formed(),
            final(self)@ == old(self)@.merged_all(ledger_contents(copies@)),
            r.len() == copies.len(),
            forall|i: int|
                0 <= i < r.len() ==> #[trigger] r[i] == old(self)@.copy_refusal(
                    ledger_contents(copies@),
                    i,
                ),
    {
        let ghost all = ledger_contents(copies@);
        let ghost start = self@;
        let mut errors: Vec<Option<LedgerError>> = Vec::new();
        let mut i: usize = 0;
        while i < copies.len()
            invariant
                i <= copies.len(),
                self.well_formed(),
                forall|k: int| 0 <= k < copies.len() ==> (#[trigger] copies[k]).well_formed(),
                start == old(self)@,
                all == ledger_contents(copies@),
                self@ == start.merged_all(all.take(i as int)),
                errors.len() == i,
                forall|k: int| 0 <= k < i ==> #[trigger] errors[k] == start.copy_refusal(all, k),
            decreases copies.len() - i,
        {
            let ghost next = all.take(i + 1);
            assert(next.drop_last() =~= all.take(i as int));
            assert(next.last() == copies[i as int]@);
            match self.merge_one_conflict(&copies[i]) {
                Ok(_) => errors.push(None),
                Err(e) => errors.push(Some(e)),
            }
            i = i + 1;
        }
        assert(all.take(all.len() as int) =~= all);
        errors
    }
}

/// What the ledgers hold.
pub open spec fn ledger_contents(ledgers: Seq<Ledger>) -> Seq<LedgerData> {
    ledgers.map_values(|l: Ledger| l@)
}

/// The file name without any trailing `.db`.
pub open spec fn stem(name: Seq<char>) -> Seq<char>
    decreases name.len(),
{
    if ".db"@.len() == 3 && ".db"@.is_suffix_of(name) {
        stem(name.take(name.len() - 3))
    } else {
        name
    }
}

/// Whether the file is a conflict copy of the live file: another `.db` file
/// whose name begins with the live file's stem.
pub open spec fn is_conflict_copy(name: Seq<char>, live_name: Seq<char>) -> bool {
    ".db"@.is_suffix_of(name) && name != live_name && stem(live_name).is_prefix_of(name)
}

/// The name under which a merged copy is archived at the given attempt.
pub open spec fn archive_name_spec(stem: Seq<char>, stamp: Seq<char>, attempt: nat) -> Seq<char> {
    if attempt <= 1 {
        stem + "-"@ + stamp + ".db"@
    } else {
        stem + "-"@ + stamp + "-"@ + crate::text::decimal(attempt) + ".db"@
    }
}

/// The file name without any trailing `.db`.
pub fn file_stem(name: &str) -> (r: String)
    ensures
        r@ == stem(name@),
    decreases name@.len(),
{
    proof {
        reveal_strlit(".db");
    }
    if ends_with(name, ".db") {
        let n: usize = name.unicode_len();
        let head: &str = name.substring_char(0, n - 3);
        assert(head@ =~= name@.take(name@.len() - 3));
        file_stem(head)
    } else {
        name.to_owned()
    }
}

/// The names that are conflict copies of the live file, in the given order.
pub fn conflict_copies(names: &Vec<String>, live_name: &str) -> (r: Vec<String>)
    ensures
        crate::text::text_contents(r@) == crate::text::text_contents(names@).filter(
            |n: Seq<char>| is_conflict_copy(n, live_name@),
        ),
{
    let base: String = file_stem(live_name);
    let ghost keep = |n: Seq<char>| is_conflict_copy(n, live_name@);
    let ghost all = crate::text::text_contents(names@);
    let mut out: Vec<String> = Vec::new();
    let mut i: usize = 0;
    assert(crate::text::text_contents(out@) =~= all.take(0).filter(keep)) by {
        reveal(Seq::filter);
    }
    while i < names.len()
        invariant
            i <= names.len(),
            base@ == stem(live_name@),
            keep == (|n: Seq<char>| is_conflict_copy(n, live_name@)),
            all == crate::text::text_contents(names@),
            crate::text::text_contents(out@) == all.take(i as int).filter(keep),
        decreases names.len() - i,
    {
        let ghost next = all.take(i + 1);
        assert(next.drop_last() =~= all.take(i as int));
        assert(next.last() == names[i as int]@);
        proof {
            reveal(Seq::filter);
        }
        let name: &str = names[i].as_str();
        if ends_with(name, ".db") && !text_eq(name, live_name) && starts_with(
            name,
            base.as_str(),
        ) {
            let ghost before = out@;
            out.push(names[i].clone());
            assert(crate::text::text_contents(out@) =~= crate::text::text_contents(before).push(
                next.last(),
            ));
        }
        i = i + 1;
    }
    assert(all.take(all.len() as int) =~= all);
    out
}

/// The name under which a merged copy is archived at the given attempt, the
/// first attempt being 1.
pub fn archive_name(stem: &str, stamp: &str, attempt: u64) -> (r: String)
    ensures
        r@ == archive_name_spec(stem@, stamp@, attempt as nat),
{
    let base: String = joined(joined(stem, "-").as_str(), stamp);
    if attempt <= 1 {
        base.concat(".db")
    } else {
        let numeral: String = decimal_text(attempt);
        let marked: String = base.concat("-").concat(numeral.as_str());
        marked.concat(".db")
    }
}

/// Whether one of the texts is `text`.
fn holds_text(texts: &Vec<String>, text: &String) -> (r: bool)
    ensures
        r == crate::text::text_contents(texts@).contains(text@),
{
    let ghost all = crate::text::text_contents(texts@);
    let mut i: usize = 0;
    while i < texts.len()
        invariant
            i <= texts.len(),
            all == crate::text::text_contents(texts@),
            all.len() == texts.len(),
            forall|j: int| 0 <= j < i ==> #[trigger] all[j] != text@,
        decreases texts.len() - i,
    {
        assert(all[i as int] == texts[i as int]@);
        if texts[i] == *text {
            return true;
        }
        i = i + 1;
    }
    false
}

/// Whether the names of the attempts from 1 up to `n` are all taken.
pub open spec fn attempts_taken(
    taken: Seq<Seq<char>>,
    stem: Seq<char>,
    stamp: Seq<char>,
    n: nat,
) -> bool {
    forall|k: nat| 1 <= k <= n ==> taken.contains(#[trigger] archive_name_spec(stem, stamp, k))
}

/// The first archive name of a moment that is not taken.
///
/// `stamp` tells the moment, and `taken` the names in the archive.
pub fn free_archive_name(taken: &Vec<String>, stem: &str, stamp: &str) -> (r: String)
    requires
        taken.len() < i32::MAX,
    ensures
        !crate::text::text_contents(taken@).contains(r@),
        exists|n: nat|
            1 <= n && r@ == #[trigger] archive_name_spec(stem@, stamp@, n) && attempts_taken(
                crate::text::text_contents(taken@),
                stem@,
                stamp@,
                (n - 1) as nat,
            ),
{
    let ghost names = crate::text::text_contents(taken@);
    let mut attempt: u64 = 1;
    let mut name: String = archive_name(stem, stamp, attempt);
    while holds_text(taken, &name)
        invariant
            taken.len() < i32::MAX,
            names == crate::text::text_contents(taken@),
            names.len() == taken.len(),
            1 <= attempt <= taken.len() + 1,
            name@ == archive_name_spec(stem@, stamp@, attempt as nat),
            attempts_taken(names, stem@, stamp@, (attempt - 1) as nat),
        decreases taken.len() + 1 - attempt,
    {
        assert(attempts_taken(names, stem@, stamp@, attempt as nat));
        proof {
            law_taken_attempts_are_bounded(names, stem@, stamp@, attempt as nat);
        }
        attempt = attempt + 1;
        name = archive_name(stem, stamp, attempt);
    }
    name
}

/// Every day of either ledger that an account has a value on is a day of the
/// merged ledger, and it has no other days.
proof fn merged_days(live: LedgerData, other: LedgerData)
    requires
        live.merged(other).1 is None,
    ensures
        forall|a: Seq<char>, d: Seq<char>| #[trigger]
            has_day(live.merged(other).0.values, a, d) <==> has_day(live.values, a, d) || has_day(
                other.values,
                a,
                d,
            ),
{
    let after = live.merged(other).0;
    let keep = |r: ValueData| !has_day(live.values, r.account_id, r.recorded_date);
    let rows = fresh_values(live.values, other.values);
    let n = live.values.len();
    assert forall|a: Seq<char>, d: Seq<char>| #[trigger]
        has_day(after.values, a, d) <==> has_day(live.values, a, d) || has_day(
            other.values,
            a,
            d,
        ) by {
        if has_day(after.values, a, d) {
            let i = choose|i: int|
                0 <= i < after.values.len() && crate::ledger::on_day(
                    #[trigger] after.values[i],
                    a,
                    d,
                );
            if i < n {
                assert(live.values[i] == after.values[i]);
            } else {
                crate::filters::filter_only_keeps(other.values, keep, i - n);
                let j = choose|j: int|
                    0 <= j < other.values.len() && #[trigger] other.values[j] == rows[i - n];
                assert(crate::ledger::on_day(other.values[j], a, d));
            }
        }
        if has_day(live.values, a, d) {
            let i = choose|i: int|
                0 <= i < n && crate::ledger::on_day(#[trigger] live.values[i], a, d);
            assert(after.values[i] == live.values[i]);
        } else if has_day(other.values, a, d) {
            let j = choose|j: int|
                0 <= j < other.values.len() && crate::ledger::on_day(
                    #[trigger] other.values[j],
                    a,
                    d,
                );
            crate::filters::filter_keeps(other.values, keep, j);
            let i = choose|i: int| 0 <= i < rows.len() && #[trigger] rows[i] == other.values[j];
            assert(crate::ledger::on_day(after.values[n + i], a, d));
        }
    }
}

/// Every fetch day of either ledger is one of the merged ledger, and it has no
/// others.
proof fn merged_fetch_days(live: LedgerData, other: LedgerData)
    requires
        live.merged(other).1 is None,
    ensures
        forall|d: Seq<char>| #[trigger]
            has_fetch(live.merged(other).0.fetches, d) <==> has_fetch(live.fetches, d)
                || has_fetch(other.fetches, d),
{
    let after = live.merged(other).0;
    let keep = |f: FetchData| !has_fetch(live.fetches, f.fetched_at);
    let rows = fresh_fetches(live.fetches, other.fetches);
    let n = live.fetches.len();
    assert forall|d: Seq<char>| #[trigger] has_fetch(after.fetches, d) <==> has_fetch(
        live.fetches,
        d,
    ) || has_fetch(other.fetches, d) by {
        if has_fetch(after.fetches, d) {
            let i = choose|i: int|
                0 <= i < after.fetches.len() && (#[trigger] after.fetches[i]).fetched_at == d;
            if i < n {
                assert(live.fetches[i] == after.fetches[i]);
            } else {
                crate::filters::filter_only_keeps(other.fetches, keep, i - n);
                let j = choose|j: int|
                    0 <= j < other.fetches.len() && #[trigger] other.fetches[j] == rows[i - n];
                assert(other.fetches[j].fetched_at == d);
            }
        }
        if has_fetch(live.fetches, d) {
            let i = choose|i: int| 0 <= i < n && (#[trigger] live.fetches[i]).fetched_at == d;
            assert(after.fetches[i] == live.fetches[i]);
        } else if has_fetch(other.fetches, d) {
            let j = choose|j: int|
                0 <= j < other.fetches.len() && (#[trigger] other.fetches[j]).fetched_at == d;
            crate::filters::filter_keeps(other.fetches, keep, j);
            let i = choose|i: int| 0 <= i < rows.len() && #[trigger] rows[i] == other.fetches[j];
            assert(after.fetches[n + i].fetched_at == d);
        }
    }
}

/// Merging loses nothing: everything in the live ledger stays as it is, and
/// everything in the other ledger that does not collide with it is taken over.
pub proof fn law_merge_is_lossless(live: LedgerData, other: LedgerData)
    requires
        live.merged(other).1 is None,
    ensures
        ({
            let after = live.merged(other).0;
            // The live ledger wins.
            &&& live.values.is_prefix_of(after.values)
            &&& live.fetches.is_prefix_of(after.fetches)
            &&& live.accounts.submap_of(after.accounts)
            &&& live.settings.submap_of(
                after.settings,
            )
            // The other ledger is taken over where there is no collision.
            &&& forall|j: int|
                0 <= j < other.values.len() && !has_day(
                    live.values,
                    (#[trigger] other.values[j]).account_id,
                    other.values[j].recorded_date,
                ) ==> exists|i: int|
                    0 <= i < after.values.len() && crate::ledger::on_day(
                        #[trigger] after.values[i],
                        other.values[j].account_id,
                        other.values[j].recorded_date,
                    ) && after.values[i].balance == other.values[j].balance
            &&& forall|a: Seq<char>, d: Seq<char>| #[trigger]
                has_day(after.values, a, d) <==> has_day(live.values, a, d) || has_day(
                    other.values,
                    a,
                    d,
                )
            &&& forall|d: Seq<char>| #[trigger]
                has_fetch(after.fetches, d) <==> has_fetch(live.fetches, d) || has_fetch(
                    other.fetches,
                    d,
                )
            &&& forall|k: Seq<char>|
                !live.accounts.contains_key(k) && #[trigger] other.accounts.contains_key(k)
                    ==> after.accounts.contains_key(k) && after.accounts[k] == other.accounts[k]
            &&& forall|k: Seq<char>|
                !live.settings.contains_key(k) && #[trigger] other.settings.contains_key(k)
                    ==> after.settings.contains_key(k) && after.settings[k] == other.settings[k]
            &&& after.accounts.dom() == live.accounts.dom().union(other.accounts.dom())
            &&& after.settings.dom() == live.settings.dom().union(other.settings.dom())
        }),
{
    let after = live.merged(other).0;
    let keep = |r: ValueData| !has_day(live.values, r.account_id, r.recorded_date);
    let rows = fresh_values(live.values, other.values);
    let n = live.values.len();
    merged_days(live, other);
    merged_fetch_days(live, other);
    assert(after.values.subrange(0, n as int) =~= live.values);
    assert(after.fetches.subrange(0, live.fetches.len() as int) =~= live.fetches);
    assert(after.accounts.dom() =~= live.accounts.dom().union(other.accounts.dom()));
    assert(after.settings.dom() =~= live.settings.dom().union(other.settings.dom()));
    assert forall|j: int|
        0 <= j < other.values.len() && !has_day(
            live.values,
            (#[trigger] other.values[j]).account_id,
            other.values[j].recorded_date,
        ) implies exists|i: int|
        0 <= i < after.values.len() && crate::ledger::on_day(
            #[trigger] after.values[i],
            other.values[j].account_id,
            other.values[j].recorded_date,
        ) && after.values[i].balance == other.values[j].balance by {
        crate::filters::filter_keeps(other.values, keep, j);
        let i = choose|i: int| 0 <= i < rows.len() && #[trigger] rows[i] == other.values[j];
        assert(after.values[n + i].balance == other.values[j].balance);
    }
}

/// Merging the same copy again changes nothing, so a copy that could not be
/// archived does no harm.
pub proof fn law_merge_is_idempotent(live: LedgerData, other: LedgerData)
    requires
        live.merged(other).1 is None,
    ensures
        live.merged(other).0.merged(other) == (live.merged(other).0, None::<LedgerError>),
{
    let after = live.merged(other).0;
    merged_days(live, other);
    merged_fetch_days(live, other);
    nothing_fresh(after, other);
    assert(after.with_accounts_of(other).accounts =~= after.accounts);
    assert(after.with_settings_of(other).settings =~= after.settings);
}

/// Merging a ledger with itself changes nothing.
pub proof fn law_merge_with_itself(live: LedgerData)
    ensures
        live.merged(live) == (live, None::<LedgerError>),
{
    nothing_fresh(live, live);
    assert(live.with_accounts_of(live).accounts =~= live.accounts);
    assert(live.with_settings_of(live).settings =~= live.settings);
}

/// Where the live ledger has all days of the other, nothing is added.
proof fn nothing_fresh(live: LedgerData, other: LedgerData)
    requires
        forall|a: Seq<char>, d: Seq<char>| #[trigger]
            has_day(other.values, a, d) ==> has_day(live.values, a, d),
        forall|d: Seq<char>| #[trigger]
            has_fetch(other.fetches, d) ==> has_fetch(live.fetches, d),
    ensures
        live.with_values(fresh_values(live.values, other.values)) == live,
        live.with_fetches(fresh_fetches(live.fetches, other.fetches)) == live,
        fresh_values(live.values, other.values).len() == 0,
        fresh_fetches(live.fetches, other.fetches).len() == 0,
{
    let keep = |r: ValueData| !has_day(live.values, r.account_id, r.recorded_date);
    let keep_fetch = |f: FetchData| !has_fetch(live.fetches, f.fetched_at);
    assert forall|i: int| 0 <= i < other.values.len() implies !keep(
        #[trigger] other.values[i],
    ) by {
        let r = other.values[i];
        assert(crate::ledger::on_day(r, r.account_id, r.recorded_date));
        assert(has_day(other.values, r.account_id, r.recorded_date));
    }
    assert forall|i: int| 0 <= i < other.fetches.len() implies !keep_fetch(
        #[trigger] other.fetches[i],
    ) by {
        assert(has_fetch(other.fetches, other.fetches[i].fetched_at));
    }
    crate::filters::filter_keeps_nothing(other.values, keep);
    crate::filters::filter_keeps_nothing(other.fetches, keep_fetch);
    assert(live.with_values(Seq::empty()).values =~= live.values);
    assert(live.with_fetches(Seq::empty()).fetches =~= live.fetches);
}

/// If every value of the live ledger belongs to an account, every value does
/// after the merge, whatever the other ledger holds and however far it went.
pub proof fn law_merge_keeps_references(live: LedgerData, other: LedgerData)
    requires
        live.references_hold(),
    ensures
        live.merged(other).0.references_hold(),
{
    let after = live.merged(other).0;
    let rows = fresh_values(live.values, other.values);
    let n = live.values.len();
    assert forall|i: int| 0 <= i < after.values.len() implies after.accounts.contains_key(
        (#[trigger] after.values[i]).account_id,
    ) by {
        if i < n {
            assert(after.values[i] == live.values[i]);
        } else {
            assert(after.accounts.contains_key(rows[i - n].account_id));
        }
    }
}

/// A copy whose values belong to its accounts is merged, as long as identifiers
/// are left.
pub proof fn law_sound_copies_are_merged(live: LedgerData, other: LedgerData)
    requires
        other.references_hold(),
        live.last_value_id + other.values.len() <= i64::MAX,
        live.last_fetch_id + other.fetches.len() <= i64::MAX,
    ensures
        live.merged(other).1 is None,
{
    let keep = |r: ValueData| !has_day(live.values, r.account_id, r.recorded_date);
    let rows = fresh_values(live.values, other.values);
    other.values.lemma_filter_len(keep);
    other.fetches.lemma_filter_len(|f: FetchData| !has_fetch(live.fetches, f.fetched_at));
    assert forall|i: int| 0 <= i < rows.len() implies live.with_accounts_of(
        other,
    ).accounts.contains_key((#[trigger] rows[i]).account_id) by {
        crate::filters::filter_only_keeps(other.values, keep, i);
        let j = choose|j: int| 0 <= j < other.values.len() && #[trigger] other.values[j] == rows[i];
        assert(other.accounts.contains_key(other.values[j].account_id));
    }
}

/// A copy with a value that belongs to no account of either ledger, on a day on
/// which the live ledger has none, is refused: it stays in place, and nothing but
/// its accounts is taken over.
pub proof fn law_orphans_are_refused(live: LedgerData, other: LedgerData, j: int)
    requires
        0 <= j < other.values.len(),
        !has_day(live.values, other.values[j].account_id, other.values[j].recorded_date),
        !live.accounts.contains_key(other.values[j].account_id),
        !other.accounts.contains_key(other.values[j].account_id),
    ensures
        live.merged(other).1 is Some,
        live.merged(other).0 == live.with_accounts_of(other),
{
    let keep = |r: ValueData| !has_day(live.values, r.account_id, r.recorded_date);
    let rows = fresh_values(live.values, other.values);
    crate::filters::filter_keeps(other.values, keep, j);
    let i = choose|i: int| 0 <= i < rows.len() && #[trigger] rows[i] == other.values[j];
    assert(!live.with_accounts_of(other).accounts.contains_key(rows[i].account_id));
}

/// The live file is no conflict copy of itself.
pub proof fn law_live_file_is_no_conflict_copy(live_name: Seq<char>)
    ensures
        !is_conflict_copy(live_name, live_name),
{
}

/// No two attempts propose the same archive name.
pub proof fn law_archive_names_differ(stem: Seq<char>, stamp: Seq<char>, m: nat, n: nat)
    requires
        1 <= m,
        1 <= n,
        archive_name_spec(stem, stamp, m) == archive_name_spec(stem, stamp, n),
    ensures
        m == n,
{
    reveal_strlit("-");
    reveal_strlit(".db");
    let base = stem + "-"@ + stamp;
    crate::text::decimal_len(m);
    crate::text::decimal_len(n);
    let x = archive_name_spec(stem, stamp, m);
    if m > 1 && n > 1 {
        let a = base.len() + 1;
        assert(x.subrange(a as int, x.len() - 3) =~= crate::text::decimal(m));
        let y = archive_name_spec(stem, stamp, n);
        assert(y.subrange(a as int, y.len() - 3) =~= crate::text::decimal(n));
        crate::text::decimal_injective(m, n);
    } else if m > 1 || n > 1 {
        assert(archive_name_spec(stem, stamp, 1).len() == base.len() + 3);
    }
}

/// As many attempts as are taken, so many names are in the archive at least: the
/// search for a free name ends.
pub proof fn law_taken_attempts_are_bounded(
    taken: Seq<Seq<char>>,
    stem: Seq<char>,
    stamp: Seq<char>,
    n: nat,
)
    requires
        attempts_taken(taken, stem, stamp, n),
    ensures
        n <= taken.len(),
{
    let tried = Seq::new(n, |i: int| archive_name_spec(stem, stamp, (i + 1) as nat));
    assert(tried.no_duplicates()) by {
        assert forall|i: int, j: int|
            0 <= i < tried.len() && 0 <= j < tried.len() && i != j implies tried[i]
            != tried[j] by {
            if tried[i] == tried[j] {
                law_archive_names_differ(stem, stamp, (i + 1) as nat, (j + 1) as nat);
            }
        }
    }
    assert(tried.to_set().subset_of(taken.to_set())) by {
        assert forall|x: Seq<char>| tried.to_set().contains(x) implies taken.to_set().contains(
            x,
        ) by {
            let i = choose|i: int| 0 <= i < tried.len() && tried[i] == x;
            assert(taken.contains(archive_name_spec(stem, stamp, (i + 1) as nat)));
        }
    }
    vstd::seq_lib::seq_to_set_is_finite(taken);
    vstd::set_lib::lemma_len_subset(tried.to_set(), taken.to_set());
    tried.unique_seq_to_set();
    taken.lemma_cardinality_of_set();
}

/// Whether the account has a value with the balance on the day.
pub open spec fn has_balance(
    values: Seq<ValueData>,
    account_id: Seq<char>,
    date: Seq<char>,
    balance: Balance,
) -> bool {
    exists|i: int|
        0 <= i < values.len() && crate::ledger::on_day(#[trigger] values[i], account_id, date)
            && values[i].balance == balance
}

/// Whether the account has a value on the day in one of the ledgers.
pub open spec fn any_has_day(
    ledgers: Seq<LedgerData>,
    account_id: Seq<char>,
    date: Seq<char>,
) -> bool {
    exists|k: int|
        0 <= k < ledgers.len() && has_day((#[trigger] ledgers[k]).values, account_id, date)
}

/// Whether one of the ledgers has the account.
pub open spec fn any_has_account(ledgers: Seq<LedgerData>, id: Seq<char>) -> bool {
    exists|k: int| 0 <= k < ledgers.len() && (#[trigger] ledgers[k]).accounts.contains_key(id)
}

/// Whether one of the ledgers has the setting.
pub open spec fn any_has_setting(ledgers: Seq<LedgerData>, key: Seq<char>) -> bool {
    exists|k: int| 0 <= k < ledgers.len() && (#[trigger] ledgers[k]).settings.contains_key(key)
}

/// Merging several copies loses nothing of the live ledger, nor of any copy that
/// is archived afterwards: its accounts, days, fetches and settings are there,
/// and those that collide with nothing in the live ledger or in an earlier copy
/// are there as the copy has them.
pub proof fn law_archived_copies_are_merged(live: LedgerData, copies: Seq<LedgerData>, i: int)
    requires
        0 <= i < copies.len(),
        live.copy_refusal(copies, i) is None,
    ensures
        ({
            let after = live.merged_all(copies);
            let copy = copies[i];
            let earlier = copies.take(i);
            // The live ledger wins.
            &&& live.values.is_prefix_of(after.values)
            &&& live.fetches.is_prefix_of(after.fetches)
            &&& live.accounts.submap_of(after.accounts)
            &&& live.settings.submap_of(
                after.settings,
            )
            // Whatever the copy has is there.
            &&& copy.accounts.dom().subset_of(after.accounts.dom())
            &&& copy.settings.dom().subset_of(after.settings.dom())
            &&& forall|a: Seq<char>, d: Seq<char>| #[trigger]
                has_day(copy.values, a, d) ==> has_day(after.values, a, d)
            &&& forall|d: Seq<char>| #[trigger]
                has_fetch(copy.fetches, d) ==> has_fetch(
                    after.fetches,
                    d,
                )
            // It is there as the copy has it where there is no collision.
            &&& forall|j: int|
                0 <= j < copy.values.len() && !has_day(
                    live.values,
                    (#[trigger] copy.values[j]).account_id,
                    copy.values[j].recorded_date,
                ) && !any_has_day(
                    earlier,
                    copy.values[j].account_id,
                    copy.values[j].recorded_date,
                ) ==> has_balance(
                    after.values,
                    copy.values[j].account_id,
                    copy.values[j].recorded_date,
                    copy.values[j].balance,
                )
            &&& forall|k: Seq<char>| #[trigger]
                copy.accounts.contains_key(k) && !live.accounts.contains_key(k)
                    && !any_has_account(earlier, k) ==> after.accounts[k] == copy.accounts[k]
            &&& forall|k: Seq<char>| #[trigger]
                copy.settings.contains_key(k) && !live.settings.contains_key(k)
                    && !any_has_setting(earlier, k) ==> after.settings[k] == copy.settings[k]
        }),
    decreases copies.len(),
{
    let rest = copies.drop_last();
    let n = copies.len() - 1;
    let mid = live.merged_all(rest);
    let last = copies.last();
    let after = live.merged_all(copies);
    let copy = copies[i];
    let earlier = copies.take(i);
    merge_grows(mid, last);
    merge_all_grows(live, rest);
    prefix_transitive(live.values, mid.values, after.values);
    prefix_transitive(live.fetches, mid.fetches, after.fetches);
    if i < n {
        assert(rest.take(i) =~= earlier);
        assert(rest[i] == copy);
        law_archived_copies_are_merged(live, rest, i);
        days_grow(mid, after);
        assert forall|j: int|
            0 <= j < copy.values.len() && !has_day(
                live.values,
                (#[trigger] copy.values[j]).account_id,
                copy.values[j].recorded_date,
            ) && !any_has_day(
                earlier,
                copy.values[j].account_id,
                copy.values[j].recorded_date,
            ) implies has_balance(
            after.values,
            copy.values[j].account_id,
            copy.values[j].recorded_date,
            copy.values[j].balance,
        ) by {
            let row = copy.values[j];
            assert(has_balance(mid.values, row.account_id, row.recorded_date, row.balance));
            let m = choose|m: int|
                0 <= m < mid.values.len() && crate::ledger::on_day(
                    #[trigger] mid.values[m],
                    row.account_id,
                    row.recorded_date,
                ) && mid.values[m].balance == row.balance;
            assert(after.values[m] == mid.values[m]);
        }
    } else {
        assert(earlier =~= rest);
        law_merge_is_lossless(mid, last);
        merge_all_adds_only(live, rest);
        assert forall|j: int|
            0 <= j < copy.values.len() && !has_day(
                live.values,
                (#[trigger] copy.values[j]).account_id,
                copy.values[j].recorded_date,
            ) && !any_has_day(
                earlier,
                copy.values[j].account_id,
                copy.values[j].recorded_date,
            ) implies has_balance(
            after.values,
            copy.values[j].account_id,
            copy.values[j].recorded_date,
            copy.values[j].balance,
        ) by {
            let row = copy.values[j];
            assert(!has_day(mid.values, row.account_id, row.recorded_date));
            assert(last.values[j] == row);
        }
    }
}

/// A merge adds nothing but what the other ledger has, however far it goes.
proof fn merge_adds_only(live: LedgerData, other: LedgerData)
    ensures
        forall|a: Seq<char>, d: Seq<char>| #[trigger]
            has_day(live.merged(other).0.values, a, d) ==> has_day(live.values, a, d) || has_day(
                other.values,
                a,
                d,
            ),
        live.merged(other).0.accounts.dom().subset_of(
            live.accounts.dom().union(other.accounts.dom()),
        ),
        live.merged(other).0.settings.dom().subset_of(
            live.settings.dom().union(other.settings.dom()),
        ),
{
    let after = live.merged(other).0;
    let keep = |r: ValueData| !has_day(live.values, r.account_id, r.recorded_date);
    let rows = fresh_values(live.values, other.values);
    let n = live.values.len();
    assert forall|a: Seq<char>, d: Seq<char>| #[trigger] has_day(after.values, a, d) implies has_day(
        live.values,
        a,
        d,
    ) || has_day(other.values, a, d) by {
        let i = choose|i: int|
            0 <= i < after.values.len() && crate::ledger::on_day(#[trigger] after.values[i], a, d);
        if i < n {
            assert(live.values[i] == after.values[i]);
        } else {
            crate::filters::filter_only_keeps(other.values, keep, i - n);
            let j = choose|j: int|
                0 <= j < other.values.len() && #[trigger] other.values[j] == rows[i - n];
            assert(crate::ledger::on_day(other.values[j], a, d));
        }
    }
}

/// Merges add nothing but what the copies have, however far they go.
proof fn merge_all_adds_only(live: LedgerData, copies: Seq<LedgerData>)
    ensures
        forall|a: Seq<char>, d: Seq<char>| #[trigger]
            has_day(live.merged_all(copies).values, a, d) ==> has_day(live.values, a, d)
                || any_has_day(copies, a, d),
        forall|k: Seq<char>| #[trigger]
            live.merged_all(copies).accounts.contains_key(k) ==> live.accounts.contains_key(k)
                || any_has_account(copies, k),
        forall|k: Seq<char>| #[trigger]
            live.merged_all(copies).settings.contains_key(k) ==> live.settings.contains_key(k)
                || any_has_setting(copies, k),
    decreases copies.len(),
{
    if copies.len() > 0 {
        let rest = copies.drop_last();
        let mid = live.merged_all(rest);
        let last = copies[copies.len() - 1];
        let after = live.merged_all(copies);
        merge_all_adds_only(live, rest);
        merge_adds_only(mid, last);
        assert forall|a: Seq<char>, d: Seq<char>| #[trigger]
            has_day(after.values, a, d) implies has_day(live.values, a, d) || any_has_day(
            copies,
            a,
            d,
        ) by {
            if any_has_day(rest, a, d) {
                let k = choose|k: int|
                    0 <= k < rest.len() && has_day((#[trigger] rest[k]).values, a, d);
                assert(copies[k] == rest[k]);
            }
        }
        assert forall|k: Seq<char>| #[trigger]
            after.accounts.contains_key(k) implies live.accounts.contains_key(k)
            || any_has_account(copies, k) by {
            if any_has_account(rest, k) {
                let m = choose|m: int|
                    0 <= m < rest.len() && (#[trigger] rest[m]).accounts.contains_key(k);
                assert(copies[m] == rest[m]);
            }
        }
        assert forall|k: Seq<char>| #[trigger]
            after.settings.contains_key(k) implies live.settings.contains_key(k)
            || any_has_setting(copies, k) by {
            if any_has_setting(rest, k) {
                let m = choose|m: int|
                    0 <= m < rest.len() && (#[trigger] rest[m]).settings.contains_key(k);
                assert(copies[m] == rest[m]);
            }
        }
    }
}

/// A prefix of a prefix is a prefix.
proof fn prefix_transitive<A>(a: Seq<A>, b: Seq<A>, c: Seq<A>)
    requires
        a.is_prefix_of(b),
        b.is_prefix_of(c),
    ensures
        a.is_prefix_of(c),
{
    assert(c.subrange(0, a.len() as int) =~= b.subrange(0, a.len() as int));
}

/// A merge only adds, however far it goes.
proof fn merge_grows(live: LedgerData, other: LedgerData)
    ensures
        live.values.is_prefix_of(live.merged(other).0.values),
        live.fetches.is_prefix_of(live.merged(other).0.fetches),
        live.accounts.submap_of(live.merged(other).0.accounts),
        live.settings.submap_of(live.merged(other).0.settings),
{
    let after = live.merged(other).0;
    assert(after.values.subrange(0, live.values.len() as int) =~= live.values);
    assert(after.fetches.subrange(0, live.fetches.len() as int) =~= live.fetches);
}

/// Merges only add, however far they go.
proof fn merge_all_grows(live: LedgerData, copies: Seq<LedgerData>)
    ensures
        live.values.is_prefix_of(live.merged_all(copies).values),
        live.fetches.is_prefix_of(live.merged_all(copies).fetches),
        live.accounts.submap_of(live.merged_all(copies).accounts),
        live.settings.submap_of(live.merged_all(copies).settings),
    decreases copies.len(),
{
    if copies.len() == 0 {
        assert(live.values.subrange(0, live.values.len() as int) =~= live.values);
        assert(live.fetches.subrange(0, live.fetches.len() as int) =~= live.fetches);
    } else {
        let mid = live.merged_all(copies.drop_last());
        let after = live.merged_all(copies);
        merge_all_grows(live, copies.drop_last());
        merge_grows(mid, copies.last());
        prefix_transitive(live.values, mid.values, after.values);
        prefix_transitive(live.fetches, mid.fetches, after.fetches);
    }
}

/// A ledger that only grew has the days that it had.
proof fn days_grow(before: LedgerData, after: LedgerData)
    requires
        before.values.is_prefix_of(after.values),
        before.fetches.is_prefix_of(after.fetches),
    ensures
        forall|a: Seq<char>, d: Seq<char>| #[trigger]
            has_day(before.values, a, d) ==> has_day(after.values, a, d),
        forall|d: Seq<char>| #[trigger]
            has_fetch(before.fetches, d) ==> has_fetch(after.fetches, d),
{
    assert forall|a: Seq<char>, d: Seq<char>| #[trigger]
        has_day(before.values, a, d) implies has_day(after.values, a, d) by {
        let i = choose|i: int|
            0 <= i < before.values.len() && crate::ledger::on_day(
                #[trigger] before.values[i],
                a,
                d,
            );
        assert(after.values[i] == before.values[i]);
    }
    assert forall|d: Seq<char>| #[trigger] has_fetch(before.fetches, d) implies has_fetch(
        after.fetches,
        d,
    ) by {
        let i = choose|i: int|
            0 <= i < before.fetches.len() && (#[trigger] before.fetches[i]).fetched_at == d;
        assert(after.fetches[i] == before.fetches[i]);
    }
}

} // verus!
