//! Bringing a ledger up to date when it is opened, and what every operation
//! keeps: that values belong to accounts.
use vstd::prelude::*;

use crate::akahu::AkahuAccount;
use crate::balance::Balance;
use crate::ledger::{Ledger, LedgerData, LedgerError};
use crate::model::{AccountData, ValueData};

verus! {

impl Ledger {
    /// Brings the ledger up to date when it is opened for writing: conflict
    /// copies are merged into it, and totals are computed if there are none.
    /// Tells for each copy why it could not be merged, if so; the others are to be
    /// archived.
    pub fn reconcile<F: Fn(&Vec<Balance>) -> Balance>(
        &mut self,
        copies: &Vec<Ledger>,
        today: &str,
        sum: F,
    ) -> (r: Vec<Option<LedgerError>>)
        requires
            old(self).well_formed(),
            forall|i: int| 0 <= i < copies.len() ==> (#[trigger] copies[i]).well_formed(),
            crate::totals::sums_all(sum),
        ensures
            final(self).well_formed(),
            old(self)@.merged_all(crate::merge::ledger_contents(copies@)).seeded(
                sum,
                today@,
                final(self)@,
            ),
            ({
                let merged = old(self)@.merged_all(crate::merge::ledger_contents(copies@));
                !(crate::outcomes::totals::some_row_of(merged, "__total__"@)
                    && crate::outcomes::totals::some_row_of(merged, "__assets_total__"@)
                    && crate::outcomes::totals::some_row_of(merged, "__liabilities_total__"@))
                    && merged.last_value_id <= i64::MAX - 3
                    ==> crate::outcomes::totals::totals_hold(final(self)@, sum, today@)
            }),
            r.len() == copies.len(),
            forall|i: int|
                0 <= i < r.len() ==> #[trigger] r[i] == old(self)@.copy_refusal(
                    crate::merge::ledger_contents(copies@),
                    i,
                ),
    {
        let errors: Vec<Option<LedgerError>> = self.merge_conflict_copies(copies);
        let ghost merged = self@;
        self.seed_total_if_missing(today, sum);
        proof {
            crate::outcomes::totals::law_seeding_fills_in_missing_totals(
                merged,
                sum,
                today@,
                self@,
            );
        }
        errors
    }
}

/// Whether every account of one ledger is in the other.
pub open spec fn has_accounts_of(d: LedgerData, e: LedgerData) -> bool {
    e.accounts.dom().subset_of(d.accounts.dom())
}

/// Removing values breaks no reference.
proof fn fewer_values(d: LedgerData, keep: spec_fn(ValueData) -> bool)
    requires
        d.references_hold(),
    ensures
        (LedgerData { values: d.values.filter(keep), ..d }).references_hold(),
{
    let e = LedgerData { values: d.values.filter(keep), ..d };
    assert forall|i: int| 0 <= i < e.values.len() implies e.accounts.contains_key(
        (#[trigger] e.values[i]).account_id,
    ) by {
        crate::filters::filter_only_keeps(d.values, keep, i);
    }
}

/// Adding an account breaks no reference.
proof fn more_accounts(d: LedgerData, account: AccountData)
    requires
        d.references_hold(),
    ensures
        d.with_account(account).references_hold(),
{
    let e = d.with_account(account);
    assert forall|i: int| 0 <= i < e.values.len() implies e.accounts.contains_key(
        (#[trigger] e.values[i]).account_id,
    ) by {
        assert(d.accounts.contains_key(d.values[i].account_id));
    }
}

/// Adding a value of a known account breaks no reference.
proof fn one_more_value(d: LedgerData, id: Seq<char>, balance: Balance, date: Seq<char>)
    requires
        d.references_hold(),
        d.accounts.contains_key(id),
    ensures
        d.with_value(id, balance, date).references_hold(),
{
    let e = d.with_value(id, balance, date);
    assert forall|i: int| 0 <= i < e.values.len() implies e.accounts.contains_key(
        (#[trigger] e.values[i]).account_id,
    ) by {
        if i < d.values.len() {
            assert(e.values[i] == d.values[i]);
        }
    }
}

/// Replacing the value of an account on a day breaks no reference.
proof fn upsert_keeps_references(d: LedgerData, id: Seq<char>, balance: Balance, date: Seq<char>)
    requires
        d.references_hold(),
    ensures
        d.upserted(id, balance, date).0.references_hold(),
        d.upserted(id, balance, date).0.accounts == d.accounts,
{
    fewer_values(d, |r: ValueData| !crate::ledger::on_day(r, id, date));
    if d.accounts.contains_key(id) {
        one_more_value(d.without_day(id, date), id, balance, date);
    }
}

/// Recomputing totals keeps every value with its account, whether or not it
/// succeeds.
pub proof fn law_totals_keep_references<F: Fn(&Vec<Balance>) -> Balance>(
    d: LedgerData,
    sum: F,
    today: Seq<char>,
    after: LedgerData,
    error: Option<LedgerError>,
)
    requires
        d.references_hold(),
        d.recomputed(sum, today, after, error),
    ensures
        after.references_hold(),
        has_accounts_of(after, d),
{
    let total = crate::totals::TOTAL_ID@;
    let assets = crate::totals::ASSETS_ID@;
    let liabilities = crate::totals::LIABILITIES_ID@;
    let v1 = crate::totals::virtual_account(total, "Total"@);
    let v2 = crate::totals::virtual_account(assets, "Assets Total"@);
    let v3 = crate::totals::virtual_account(liabilities, "Liabilities Total"@);
    more_accounts(d, v1);
    let d1 = d.with_new_account(v1);
    more_accounts(d1, v2);
    let d2 = d1.with_new_account(v2);
    more_accounts(d2, v3);
    let e = d.with_virtual_accounts();
    let (t, a, l) = choose|t: Balance, a: Balance, l: Balance|
        {
            &&& crate::totals::sums_to(sum, crate::totals::counted(e), t)
            &&& crate::totals::sums_to(sum, crate::totals::assets(e), a)
            &&& crate::totals::sums_to(sum, crate::totals::liabilities(e), l)
            &&& #[trigger] e.with_totals(today, t, a, l) == (after, error)
        };
    let first = e.upserted(total, t, today).0;
    let second = first.upserted(assets, a, today).0;
    upsert_keeps_references(e, total, t, today);
    upsert_keeps_references(first, assets, a, today);
    upsert_keeps_references(second, liabilities, l, today);
}

/// Hiding or showing an account keeps every value with its account.
pub proof fn law_toggle_keeps_references<F: Fn(&Vec<Balance>) -> Balance>(
    d: LedgerData,
    id: Seq<char>,
    sum: F,
    today: Seq<char>,
    after: LedgerData,
)
    requires
        d.references_hold(),
        d.with_toggled(id).refreshed(sum, today, after),
    ensures
        after.references_hold(),
{
    let toggled = d.with_toggled(id);
    assert forall|i: int| 0 <= i < toggled.values.len() implies toggled.accounts.contains_key(
        (#[trigger] toggled.values[i]).account_id,
    ) by {
        assert(d.accounts.contains_key(d.values[i].account_id));
    }
    let e = choose|e: Option<LedgerError>| #[trigger] toggled.recomputed(sum, today, after, e);
    law_totals_keep_references(toggled, sum, today, after, e);
}

/// Adding a manual account keeps every value with its account.
pub proof fn law_new_accounts_keep_references(d: LedgerData, account: AccountData)
    requires
        d.references_hold(),
    ensures
        d.with_account(account).references_hold(),
{
    more_accounts(d, account);
}

/// Adding a value by hand keeps every value with its account.
pub proof fn law_manual_values_keep_references<F: Fn(&Vec<Balance>) -> Balance>(
    d: LedgerData,
    id: Seq<char>,
    balance: Balance,
    sum: F,
    today: Seq<char>,
    after: LedgerData,
)
    requires
        d.references_hold(),
        d.manual_value_refusal(id, balance) is None,
        d.with_value(id, balance, today).refreshed(sum, today, after),
    ensures
        after.references_hold(),
{
    let added = d.with_value(id, balance, today);
    one_more_value(d, id, balance, today);
    let e = choose|e: Option<LedgerError>| #[trigger] added.recomputed(sum, today, after, e);
    law_totals_keep_references(added, sum, today, after, e);
}

/// Deleting a value by hand keeps every value with its account.
pub proof fn law_deletions_keep_references<F: Fn(&Vec<Balance>) -> Balance>(
    d: LedgerData,
    row_id: i64,
    sum: F,
    today: Seq<char>,
    after: LedgerData,
)
    requires
        d.references_hold(),
        d.without_value(row_id).refreshed(sum, today, after),
    ensures
        after.references_hold(),
{
    let left = d.without_value(row_id);
    fewer_values(d, |r: ValueData| r.id != row_id);
    let e = choose|e: Option<LedgerError>| #[trigger] left.recomputed(sum, today, after, e);
    law_totals_keep_references(left, sum, today, after, e);
}

/// Storing fetched accounts keeps every value with its account, however far it
/// goes.
proof fn fetched_keep_references(d: LedgerData, accounts: Seq<AkahuAccount>, date: Seq<char>)
    requires
        d.references_hold(),
    ensures
        d.with_all_fetched(accounts, date).0.references_hold(),
    decreases accounts.len(),
{
    if accounts.len() > 0 {
        let last = accounts.last();
        let before = d.with_all_fetched(accounts.drop_last(), date).0;
        fetched_keep_references(d, accounts.drop_last(), date);
        let account = before.fetched_account(last);
        more_accounts(before, account);
        upsert_keeps_references(
            before.with_account(account),
            last.id@,
            crate::akahu::current_balance(last),
            date,
        );
    }
}

/// A fetch keeps every value with its account, however far it goes.
pub proof fn law_fetch_keeps_references<F: Fn(&Vec<Balance>) -> Balance>(
    d: LedgerData,
    sum: F,
    accounts: Seq<AkahuAccount>,
    date: Seq<char>,
    after: LedgerData,
    error: Option<LedgerError>,
)
    requires
        d.references_hold(),
        d.fetch_stored(sum, accounts, date, after, error),
    ensures
        after.references_hold(),
{
    let saved = d.with_all_fetched(crate::akahu::nzd_accounts(accounts), date);
    fetched_keep_references(d, crate::akahu::nzd_accounts(accounts), date);
    if saved.1 is None {
        let (totalled, e) = choose|totalled: LedgerData, e: Option<LedgerError>|
            {
                &&& #[trigger] saved.0.recomputed(sum, date, totalled, e)
                &&& if e is Some {
                    (after, error) == (totalled, e)
                } else {
                    (after, error) == totalled.with_logged(date)
                }
            };
        law_totals_keep_references(saved.0, sum, date, totalled, e);
        assert(after.values == totalled.values && after.accounts == totalled.accounts);
    }
}

/// Opening a ledger keeps every value with its account, whatever copies there
/// are.
pub proof fn law_opening_keeps_references<F: Fn(&Vec<Balance>) -> Balance>(
    d: LedgerData,
    copies: Seq<LedgerData>,
    sum: F,
    today: Seq<char>,
    after: LedgerData,
)
    requires
        d.references_hold(),
        d.merged_all(copies).seeded(sum, today, after),
    ensures
        after.references_hold(),
{
    merges_keep_references(d, copies);
    let merged = d.merged_all(copies);
    if !merged.totals_present() {
        let e = choose|e: Option<LedgerError>| #[trigger] merged.recomputed(sum, today, after, e);
        law_totals_keep_references(merged, sum, today, after, e);
    }
}

/// Merging copies keeps every value with its account.
proof fn merges_keep_references(d: LedgerData, copies: Seq<LedgerData>)
    requires
        d.references_hold(),
    ensures
        d.merged_all(copies).references_hold(),
    decreases copies.len(),
{
    if copies.len() > 0 {
        let rest = copies.drop_last();
        merges_keep_references(d, rest);
        crate::merge::law_merge_keeps_references(d.merged_all(rest), copies.last());
    }
}

} // verus!
