//! Virtual total accounts: one value per day, recomputed from the latest
//! balances of the accounts that count.
use vstd::prelude::*;

use crate::balance::Balance;
use crate::ledger::{Ledger, LedgerData, LedgerError};
use crate::model::{Account, AccountData, ValueData};

verus! {

pub const TOTAL_ID: &'static str = "__total__";

pub const ASSETS_ID: &'static str = "__assets_total__";

pub const LIABILITIES_ID: &'static str = "__liabilities_total__";

/// Whether the identifier belongs to one of the three virtual accounts.
pub open spec fn is_virtual(id: Seq<char>) -> bool {
    id == TOTAL_ID@ || id == ASSETS_ID@ || id == LIABILITIES_ID@
}

/// A virtual account as it is first stored.
pub open spec fn virtual_account(id: Seq<char>, name: Seq<char>) -> AccountData {
    AccountData {
        id,
        name,
        account_type: ""@,
        institution: ""@,
        currency: "NZD"@,
        is_manual: false,
        is_ignored: false,
    }
}

/// Whether no value of the same account was added after this one.
pub open spec fn is_latest(values: Seq<ValueData>, row: ValueData) -> bool {
    forall|j: int|
        0 <= j < values.len() && (#[trigger] values[j]).account_id == row.account_id
            ==> values[j].id <= row.id
}

/// Whether the account goes into the totals.
pub open spec fn counts(accounts: Map<Seq<char>, AccountData>, id: Seq<char>) -> bool {
    accounts.contains_key(id) && !accounts[id].is_ignored && !is_virtual(id)
}

/// Whether the value goes into the totals.
pub open spec fn is_counted(d: LedgerData, row: ValueData) -> bool {
    is_latest(d.values, row) && counts(d.accounts, row.account_id)
}

/// The balances that make up the total.
pub open spec fn counted(d: LedgerData) -> Seq<Balance> {
    d.values.filter(|r: ValueData| is_counted(d, r)).map_values(|r: ValueData| r.balance)
}

/// The balances that make up the assets total.
pub open spec fn assets(d: LedgerData) -> Seq<Balance> {
    counted(d).filter(|b: Balance| !b.negative())
}

/// The balances that make up the liabilities total.
pub open spec fn liabilities(d: LedgerData) -> Seq<Balance> {
    counted(d).filter(|b: Balance| b.negative())
}

/// Whether `sum` accepts every list of balances.
pub open spec fn sums_all<F: Fn(&Vec<Balance>) -> Balance>(sum: F) -> bool {
    forall|v: Vec<Balance>| #[trigger] call_requires(sum, (&v,))
}

/// Whether `r` is what `sum` makes of the balances. No balances, or a sum that
/// is not a number, count as zero.
pub open spec fn sums_to<F: Fn(&Vec<Balance>) -> Balance>(
    sum: F,
    balances: Seq<Balance>,
    r: Balance,
) -> bool {
    if balances.len() == 0 {
        r == Balance::zero_spec()
    } else {
        exists|v: Vec<Balance>, s: Balance| #[trigger]
            call_ensures(sum, (&v,), s) && v@ == balances && r == (if s.number() {
                s
            } else {
                Balance::zero_spec()
            })
    }
}

/// The error of a failed step.
pub open spec fn failure(r: Result<(), LedgerError>) -> Option<LedgerError> {
    match r {
        Ok(_) => None,
        Err(e) => Some(e),
    }
}

impl LedgerData {
    /// The ledger with an account, unless it has one of that identifier.
    pub open spec fn with_new_account(self, account: AccountData) -> LedgerData {
        if self.accounts.contains_key(account.id) {
            self
        } else {
            self.with_account(account)
        }
    }

    /// The ledger with the virtual accounts in place.
    pub open spec fn with_virtual_accounts(self) -> LedgerData {
        self.with_new_account(virtual_account(TOTAL_ID@, "Total"@)).with_new_account(
            virtual_account(ASSETS_ID@, "Assets Total"@),
        ).with_new_account(virtual_account(LIABILITIES_ID@, "Liabilities Total"@))
    }

    /// The ledger in which the balance is the only value of the account on the
    /// day, or in which that day is empty because the value was refused.
    pub open spec fn upserted(self, account_id: Seq<char>, balance: Balance, date: Seq<char>) -> (
        LedgerData,
        Option<LedgerError>,
    ) {
        let cleared = self.without_day(account_id, date);
        match cleared.value_refusal(account_id, balance) {
            Some(e) => (cleared, Some(e)),
            None => (cleared.with_value(account_id, balance, date), None),
        }
    }

    /// The three totals stored one after the other, up to the first refusal.
    pub open spec fn with_totals(
        self,
        date: Seq<char>,
        total: Balance,
        asset_total: Balance,
        liability_total: Balance,
    ) -> (LedgerData, Option<LedgerError>) {
        let first = self.upserted(TOTAL_ID@, total, date);
        if first.1 is Some {
            first
        } else {
            let second = first.0.upserted(ASSETS_ID@, asset_total, date);
            if second.1 is Some {
                second
            } else {
                second.0.upserted(LIABILITIES_ID@, liability_total, date)
            }
        }
    }

    /// Whether `after` is this ledger with its totals of the day recomputed.
    pub open spec fn recomputed<F: Fn(&Vec<Balance>) -> Balance>(
        self,
        sum: F,
        date: Seq<char>,
        after: LedgerData,
        error: Option<LedgerError>,
    ) -> bool {
        let d = self.with_virtual_accounts();
        exists|t: Balance, a: Balance, l: Balance|
            {
                &&& sums_to(sum, counted(d), t)
                &&& sums_to(sum, assets(d), a)
                &&& sums_to(sum, liabilities(d), l)
                &&& #[trigger] d.with_totals(date, t, a, l) == (after, error)
            }
    }

    /// Whether `after` is this ledger with totals: unchanged if each virtual
    /// account has a value, and else recomputed, as far as that went.
    pub open spec fn seeded<F: Fn(&Vec<Balance>) -> Balance>(
        self,
        sum: F,
        date: Seq<char>,
        after: LedgerData,
    ) -> bool {
        if self.totals_present() {
            after == self
        } else {
            exists|e: Option<LedgerError>| #[trigger] self.recomputed(sum, date, after, e)
        }
    }

    /// Whether each virtual account has a value.
    pub open spec fn totals_present(self) -> bool {
        &&& self.has_value(TOTAL_ID@)
        &&& self.has_value(ASSETS_ID@)
        &&& self.has_value(LIABILITIES_ID@)
    }

    /// Whether the account has a value.
    pub open spec fn has_value(self, id: Seq<char>) -> bool {
        exists|i: int| 0 <= i < self.values.len() && (#[trigger] self.values[i]).account_id == id
    }
}

/// The balances that go into each of the three totals.
#[derive(Debug, Clone, PartialEq, Eq)]
pub struct TotalParts {
    pub all: Vec<Balance>,
    pub assets: Vec<Balance>,
    pub liabilities: Vec<Balance>,
}

/// Whether the identifier is one of the three virtual accounts'.
pub(crate) fn is_virtual_id(id: &String) -> (r: bool)
    ensures
        r == is_virtual(id@),
{
    *id == TOTAL_ID.to_owned() || *id == ASSETS_ID.to_owned() || *id == LIABILITIES_ID.to_owned()
}

/// What `sum` makes of the balances.
fn coalesced_sum<F: Fn(&Vec<Balance>) -> Balance>(sum: &F, balances: &Vec<Balance>) -> (r: Balance)
    requires
        sums_all(*sum),
    ensures
        sums_to(*sum, balances@, r),
{
    if balances.len() == 0 {
        return Balance::zero();
    }
    let s: Balance = sum(balances);
    if s.is_number() {
        s
    } else {
        Balance::zero()
    }
}

impl Ledger {
    /// Whether no value of the same account was added after the one at `i`.
    fn latest_at(&self, i: usize) -> (r: bool)
        requires
            self.well_formed(),
            i < self.values.len(),
        ensures
            r == is_latest(self@.values, self@.values[i as int]),
    {
        let ghost rows = self@.values;
        let mut j: usize = i + 1;
        while j < self.values.len()
            invariant
                i < j <= self.values.len(),
                self.well_formed(),
                rows == self@.values,
                forall|k: int|
                    i < k < j ==> (#[trigger] rows[k]).account_id != rows[i as int].account_id,
            decreases self.values.len() - j,
        {
            if self.values[j].account_id == self.values[i].account_id {
                assert(rows[j as int].account_id == rows[i as int].account_id);
                assert(rows[j as int].id > rows[i as int].id);
                return false;
            }
            assert(rows[j as int].account_id != rows[i as int].account_id);
            j = j + 1;
        }
        true
    }

    /// Whether values of the account go into the totals.
    fn account_counts(&self, id: &String) -> (r: bool)
        requires
            self.well_formed(),
        ensures
            r == counts(self@.accounts, id@),
    {
        match self.find_account(id.as_str()) {
            Some(i) => !self.accounts[i].is_ignored && !is_virtual_id(id),
            None => false,
        }
    }

    /// The balances that go into each of the three totals.
    pub fn total_parts(&self) -> (r: TotalParts)
        requires
            self.well_formed(),
        ensures
            r.all@ == counted(self@),
            r.assets@ == assets(self@),
            r.liabilities@ == liabilities(self@),
            crate::outcomes::totals::are_counting_balances(self@, r.all@, |key: i64| true),
            crate::outcomes::totals::are_counting_balances(self@, r.assets@, |key: i64| key >= -1),
            crate::outcomes::totals::are_counting_balances(
                self@,
                r.liabilities@,
                |key: i64| key < -1,
            ),
    {
        let ghost d = self@;
        let ghost keep = |r: ValueData| is_counted(d, r);
        let ghost pick = |r: ValueData| r.balance;
        let ghost up = |b: Balance| !b.negative();
        let ghost down = |b: Balance| b.negative();
        let mut all: Vec<Balance> = Vec::new();
        let mut asset: Vec<Balance> = Vec::new();
        let mut liability: Vec<Balance> = Vec::new();
        let mut i: usize = 0;
        proof {
            reveal(Seq::filter);
            assert(d.values.take(0).filter(keep).map_values(pick) =~= all@);
            assert(all@.filter(up) =~= asset@);
            assert(all@.filter(down) =~= liability@);
        }
        while i < self.values.len()
            invariant
                i <= self.values.len(),
                self.well_formed(),
                d == self@,
                keep == (|r: ValueData| is_counted(d, r)),
                pick == (|r: ValueData| r.balance),
                up == (|b: Balance| !b.negative()),
                down == (|b: Balance| b.negative()),
                all@ == d.values.take(i as int).filter(keep).map_values(pick),
                asset@ == all@.filter(up),
                liability@ == all@.filter(down),
            decreases self.values.len() - i,
        {
            let ghost next = d.values.take(i + 1);
            assert(next.drop_last() =~= d.values.take(i as int));
            assert(next.last() == self.values[i as int]@);
            proof {
                reveal(Seq::filter);
            }
            if self.account_counts(&self.values[i].account_id) && self.latest_at(i) {
                let b: Balance = self.values[i].balance;
                let ghost before = all@;
                all.push(b);
                assert(next.filter(keep).map_values(pick) =~= before.push(b));
                assert(all@.drop_last() =~= before);
                if b.is_negative() {
                    liability.push(b);
                } else {
                    asset.push(b);
                }
            }
            i = i + 1;
        }
        assert(d.values.take(d.values.len() as int) =~= d.values);
        proof {
            crate::outcomes::totals::law_counting_balances(d);
        }
        TotalParts { all, assets: asset, liabilities: liability }
    }

    /// Stores a virtual account unless it is there.
    fn ensure_account(&mut self, id: &str, name: &str)
        requires
            old(self).well_formed(),
        ensures
            final(self).well_formed(),
            final(self)@ == old(self)@.with_new_account(virtual_account(id@, name@)),
    {
        if self.find_account(id).is_none() {
            let account = Account {
                id: id.to_owned(),
                name: name.to_owned(),
                account_type: "".to_owned(),
                institution: "".to_owned(),
                currency: "NZD".to_owned(),
                is_manual: false,
                is_ignored: false,
            };
            self.put_account(account);
        }
    }

    /// Makes the balance the only value of a virtual account on a day, so that
    /// the account has one value per day however often totals are recomputed.
    pub fn upsert_daily_total(&mut self, account_id: &str, balance: Balance, today: &str) -> (r:
        Result<(), LedgerError>)
        requires
            old(self).well_formed(),
        ensures
            final(self).well_formed(),
            (final(self)@, failure(r)) == old(self)@.upserted(account_id@, balance, today@),
    {
        self.delete_day(account_id, today);
        self.insert_value(account_id, balance, today)
    }

    /// Stores the three totals of a day.
    pub fn record_totals(
        &mut self,
        today: &str,
        total: Balance,
        asset_total: Balance,
        liability_total: Balance,
    ) -> (r: Result<(), LedgerError>)
        requires
            old(self).well_formed(),
        ensures
            final(self).well_formed(),
            (final(self)@, failure(r)) == old(self)@.with_totals(
                today@,
                total,
                asset_total,
                liability_total,
            ),
    {
        match self.upsert_daily_total(TOTAL_ID, total, today) {
            Err(e) => {
                return Err(e);
            },
            Ok(_) => {},
        }
        match self.upsert_daily_total(ASSETS_ID, asset_total, today) {
            Err(e) => {
                return Err(e);
            },
            Ok(_) => {},
        }
        self.upsert_daily_total(LIABILITIES_ID, liability_total, today)
    }

    /// Recomputes the totals from the latest balances and stores them under
    /// `today`.
    pub fn recompute_total<F: Fn(&Vec<Balance>) -> Balance>(&mut self, today: &str, sum: F) -> (r:
        Result<(), LedgerError>)
        requires
            old(self).well_formed(),
            sums_all(sum),
        ensures
            final(self).well_formed(),
            old(self)@.recomputed(sum, today@, final(self)@, failure(r)),
    {
        self.ensure_account(TOTAL_ID, "Total");
        self.ensure_account(ASSETS_ID, "Assets Total");
        self.ensure_account(LIABILITIES_ID, "Liabilities Total");
        let ghost d = old(self)@.with_virtual_accounts();
        assert(self@ == d);
        let parts: TotalParts = self.total_parts();
        let total: Balance = coalesced_sum(&sum, &parts.all);
        let asset_total: Balance = coalesced_sum(&sum, &parts.assets);
        let liability_total: Balance = coalesced_sum(&sum, &parts.liabilities);
        let r: Result<(), LedgerError> = self.record_totals(
            today,
            total,
            asset_total,
            liability_total,
        );
        assert(d.with_totals(today@, total, asset_total, liability_total) == (
            self@,
            failure(r),
        ));
        r
    }

    /// Whether the account has a value.
    pub(crate) fn account_has_value(&self, id: &str) -> (r: bool)
        ensures
            r == self@.has_value(id@),
    {
        let key: String = id.to_owned();
        let ghost rows = self@.values;
        let mut i: usize = 0;
        while i < self.values.len()
            invariant
                i <= self.values.len(),
                key@ == id@,
                rows == self@.values,
                forall|j: int| 0 <= j < i ==> (#[trigger] rows[j]).account_id != id@,
            decreases self.values.len() - i,
        {
            assert(rows[i as int].account_id == self.values[i as int].account_id@);
            if self.values[i].account_id == key {
                return true;
            }
            i = i + 1;
        }
        false
    }

    /// Recomputes the totals unless each virtual account has a value.
    pub fn seed_total_if_missing<F: Fn(&Vec<Balance>) -> Balance>(&mut self, today: &str, sum: F)
        requires
            old(self).well_formed(),
            sums_all(sum),
        ensures
            final(self).well_formed(),
            old(self)@.seeded(sum, today@, final(self)@),
    {
        if self.account_has_value(TOTAL_ID) && self.account_has_value(ASSETS_ID)
            && self.account_has_value(LIABILITIES_ID) {
            return ;
        }
        let _outcome: Result<(), LedgerError> = self.recompute_total(today, sum);
    }
}

/// Removing values of accounts that do not count changes no total.
proof fn counted_without(d: LedgerData, keep: spec_fn(ValueData) -> bool)
    requires
        forall|i: int|
            0 <= i < d.values.len() && !keep(#[trigger] d.values[i]) ==> !counts(
                d.accounts,
                d.values[i].account_id,
            ),
    ensures
        counted(LedgerData { values: d.values.filter(keep), ..d }) == counted(d),
{
    let e = LedgerData { values: d.values.filter(keep), ..d };
    let p = |r: ValueData| is_counted(d, r);
    let q = |r: ValueData| is_counted(e, r);
    assert forall|i: int| 0 <= i < d.values.len() implies (p(#[trigger] d.values[i]) <==> keep(
        d.values[i],
    ) && q(d.values[i])) by {
        let r = d.values[i];
        if counts(d.accounts, r.account_id) {
            assert(keep(r));
            if is_latest(d.values, r) {
                assert forall|j: int|
                    0 <= j < e.values.len() && (#[trigger] e.values[j]).account_id
                        == r.account_id implies e.values[j].id <= r.id by {
                    crate::filters::filter_only_keeps(d.values, keep, j);
                }
            }
            if is_latest(e.values, r) {
                assert forall|j: int|
                    0 <= j < d.values.len() && (#[trigger] d.values[j]).account_id
                        == r.account_id implies d.values[j].id <= r.id by {
                    crate::filters::filter_keeps(d.values, keep, j);
                }
            }
        }
    }
    crate::filters::filter_twice(d.values, keep, q, p);
}

/// Adding a value of an account that does not count changes no total.
proof fn counted_with(d: LedgerData, row: ValueData, last: i64)
    requires
        !counts(d.accounts, row.account_id),
    ensures
        counted(LedgerData { values: d.values.push(row), last_value_id: last, ..d }) == counted(d),
{
    let e = LedgerData { values: d.values.push(row), last_value_id: last, ..d };
    let p = |r: ValueData| is_counted(d, r);
    let q = |r: ValueData| is_counted(e, r);
    reveal(Seq::filter);
    assert(e.values.drop_last() =~= d.values);
    assert(!q(row));
    assert forall|i: int| 0 <= i < d.values.len() implies (p(#[trigger] d.values[i]) <==> q(
        d.values[i],
    )) by {
        let r = d.values[i];
        if counts(d.accounts, r.account_id) {
            assert forall|j: int|
                0 <= j < d.values.len() && (#[trigger] d.values[j]).account_id == r.account_id
                    && is_latest(e.values, r) implies d.values[j].id <= r.id by {
                assert(e.values[j] == d.values[j]);
            }
            assert forall|j: int|
                0 <= j < e.values.len() && (#[trigger] e.values[j]).account_id == r.account_id
                    && is_latest(d.values, r) implies e.values[j].id <= r.id by {
                if j < d.values.len() {
                    assert(e.values[j] == d.values[j]);
                }
            }
        }
    }
    crate::filters::filter_agree(d.values, p, q);
}

/// The assets and the liabilities together are exactly the balances of the
/// overall total, each of them once.
pub proof fn law_assets_and_liabilities_split_the_total(d: LedgerData)
    ensures
        counted(d).to_multiset() == assets(d).to_multiset().add(liabilities(d).to_multiset()),
{
    crate::filters::filter_splits(counted(d), |b: Balance| !b.negative(), |b: Balance| b.negative());
}

/// An account that is ignored, virtual or unknown has no part in the totals:
/// without its values they are the same.
pub proof fn law_only_counting_accounts_count(d: LedgerData, id: Seq<char>)
    requires
        !counts(d.accounts, id),
    ensures
        counted(
            LedgerData { values: d.values.filter(|r: ValueData| r.account_id != id), ..d },
        ) == counted(d),
{
    counted_without(d, |r: ValueData| r.account_id != id);
}

/// Storing a virtual total changes none of the balances that totals are made of,
/// so the three totals can be computed in any order.
pub proof fn law_totals_ignore_stored_totals(
    d: LedgerData,
    id: Seq<char>,
    balance: Balance,
    date: Seq<char>,
)
    requires
        is_virtual(id),
    ensures
        counted(d.upserted(id, balance, date).0) == counted(d),
{
    let keep = |r: ValueData| !crate::ledger::on_day(r, id, date);
    counted_without(d, keep);
    let cleared = d.without_day(id, date);
    if cleared.value_refusal(id, balance) is None {
        let next = (d.last_value_id + 1) as i64;
        counted_with(
            cleared,
            ValueData { id: next, account_id: id, balance, recorded_date: date },
            next,
        );
    }
}

/// Putting the virtual accounts in place changes none of the balances that
/// totals are made of.
pub proof fn law_totals_ignore_virtual_accounts(d: LedgerData)
    ensures
        counted(d.with_virtual_accounts()) == counted(d),
{
    let e = d.with_virtual_accounts();
    assert forall|id: Seq<char>| counts(e.accounts, id) <==> counts(d.accounts, id) by {}
    crate::filters::filter_agree(
        d.values,
        |r: ValueData| is_counted(d, r),
        |r: ValueData| is_counted(e, r),
    );
}

/// The values of an account on a day.
pub open spec fn day_values(d: LedgerData, id: Seq<char>, date: Seq<char>) -> Seq<ValueData> {
    d.values.filter(|r: ValueData| crate::ledger::on_day(r, id, date))
}

/// After an upsert the account has exactly one value on the day, the new one,
/// and the values of every other account and day are what they were.
pub proof fn law_one_value_per_day(
    d: LedgerData,
    id: Seq<char>,
    balance: Balance,
    date: Seq<char>,
    other_id: Seq<char>,
    other_date: Seq<char>,
)
    requires
        d.upserted(id, balance, date).1 is None,
    ensures
        ({
            let after = d.upserted(id, balance, date).0;
            &&& day_values(after, id, date).len() == 1
            &&& day_values(after, id, date)[0].balance == balance
            &&& other_id != id || other_date != date ==> day_values(after, other_id, other_date)
                == day_values(d, other_id, other_date)
        }),
{
    let keep = |r: ValueData| !crate::ledger::on_day(r, id, date);
    let here = |r: ValueData| crate::ledger::on_day(r, id, date);
    let never = |r: ValueData| false;
    let there = |r: ValueData| crate::ledger::on_day(r, other_id, other_date);
    let after = d.upserted(id, balance, date).0;
    let cleared = d.values.filter(keep);
    reveal(Seq::filter);
    assert(after.values.drop_last() =~= cleared);
    crate::filters::filter_twice(d.values, keep, here, never);
    crate::filters::filter_keeps_nothing(d.values, never);
    assert(day_values(after, id, date) =~= seq![after.values.last()]);
    if other_id != id || other_date != date {
        crate::filters::filter_twice(d.values, keep, there, there);
    }
}

/// Recomputing leaves exactly one value per virtual account on the day, however
/// many there were, and leaves the values of all other accounts alone.
pub proof fn law_one_total_per_day<F: Fn(&Vec<Balance>) -> Balance>(
    d: LedgerData,
    sum: F,
    today: Seq<char>,
    after: LedgerData,
    id: Seq<char>,
    date: Seq<char>,
)
    requires
        d.recomputed(sum, today, after, None),
    ensures
        is_virtual(id) ==> day_values(after, id, today).len() == 1,
        !is_virtual(id) || date != today ==> day_values(after, id, date) == day_values(
            d,
            id,
            date,
        ),
{
    reveal_strlit("__total__");
    reveal_strlit("__assets_total__");
    reveal_strlit("__liabilities_total__");
    assert(TOTAL_ID@ != ASSETS_ID@ && ASSETS_ID@ != LIABILITIES_ID@ && TOTAL_ID@
        != LIABILITIES_ID@) by {
        assert(TOTAL_ID@.len() == 9 && ASSETS_ID@.len() == 16 && LIABILITIES_ID@.len() == 21);
    }
    let e = d.with_virtual_accounts();
    let (t, a, l) = choose|t: Balance, a: Balance, l: Balance|
        {
            &&& sums_to(sum, counted(e), t)
            &&& sums_to(sum, assets(e), a)
            &&& sums_to(sum, liabilities(e), l)
            &&& #[trigger] e.with_totals(today, t, a, l) == (after, None::<LedgerError>)
        };
    let first = e.upserted(TOTAL_ID@, t, today).0;
    let second = first.upserted(ASSETS_ID@, a, today).0;
    law_one_value_per_day(e, TOTAL_ID@, t, today, id, date);
    law_one_value_per_day(e, TOTAL_ID@, t, today, id, today);
    law_one_value_per_day(first, ASSETS_ID@, a, today, id, date);
    law_one_value_per_day(first, ASSETS_ID@, a, today, id, today);
    law_one_value_per_day(second, LIABILITIES_ID@, l, today, id, date);
    law_one_value_per_day(second, LIABILITIES_ID@, l, today, id, today);
}

/// After totals are recomputed, the value of each virtual account on the day is
/// the sum of the balances that make it up.
pub proof fn law_totals_add_up<F: Fn(&Vec<Balance>) -> Balance>(
    d: LedgerData,
    sum: F,
    today: Seq<char>,
    after: LedgerData,
)
    requires
        d.recomputed(sum, today, after, None),
    ensures
        day_values(after, TOTAL_ID@, today).len() == 1,
        sums_to(sum, counted(d), day_values(after, TOTAL_ID@, today)[0].balance),
        day_values(after, ASSETS_ID@, today).len() == 1,
        sums_to(sum, assets(d), day_values(after, ASSETS_ID@, today)[0].balance),
        day_values(after, LIABILITIES_ID@, today).len() == 1,
        sums_to(sum, liabilities(d), day_values(after, LIABILITIES_ID@, today)[0].balance),
{
    reveal_strlit("__total__");
    reveal_strlit("__assets_total__");
    reveal_strlit("__liabilities_total__");
    assert(TOTAL_ID@ != ASSETS_ID@ && ASSETS_ID@ != LIABILITIES_ID@ && TOTAL_ID@
        != LIABILITIES_ID@) by {
        assert(TOTAL_ID@.len() == 9 && ASSETS_ID@.len() == 16 && LIABILITIES_ID@.len() == 21);
    }
    let e = d.with_virtual_accounts();
    law_totals_ignore_virtual_accounts(d);
    let (t, a, l) = choose|t: Balance, a: Balance, l: Balance|
        {
            &&& sums_to(sum, counted(e), t)
            &&& sums_to(sum, assets(e), a)
            &&& sums_to(sum, liabilities(e), l)
            &&& #[trigger] e.with_totals(today, t, a, l) == (after, None::<LedgerError>)
        };
    let first = e.upserted(TOTAL_ID@, t, today).0;
    let second = first.upserted(ASSETS_ID@, a, today).0;
    law_one_value_per_day(e, TOTAL_ID@, t, today, TOTAL_ID@, today);
    law_one_value_per_day(first, ASSETS_ID@, a, today, TOTAL_ID@, today);
    law_one_value_per_day(second, LIABILITIES_ID@, l, today, TOTAL_ID@, today);
    law_one_value_per_day(second, LIABILITIES_ID@, l, today, ASSETS_ID@, today);
}

/// Whether `sum` gives one result per list of balances.
pub open spec fn sums_alike<F: Fn(&Vec<Balance>) -> Balance>(sum: F) -> bool {
    forall|v: Vec<Balance>, w: Vec<Balance>, s: Balance, t: Balance|
        #[trigger] call_ensures(sum, (&v,), s) && #[trigger] call_ensures(sum, (&w,), t) && v@
            == w@ ==> s == t
}

/// Every row but the totals of the day, in the order of addition.
pub open spec fn other_rows(d: LedgerData, today: Seq<char>) -> Seq<ValueData> {
    d.values.filter(|r: ValueData| !(is_virtual(r.account_id) && r.recorded_date == today))
}

/// Storing a virtual total changes no other row, and no account.
proof fn upsert_keeps_other_rows(
    d: LedgerData,
    id: Seq<char>,
    balance: Balance,
    today: Seq<char>,
)
    requires
        is_virtual(id),
    ensures
        other_rows(d.upserted(id, balance, today).0, today) == other_rows(d, today),
        d.upserted(id, balance, today).0.accounts == d.accounts,
{
    let keep = |r: ValueData| !crate::ledger::on_day(r, id, today);
    let other = |r: ValueData| !(is_virtual(r.account_id) && r.recorded_date == today);
    crate::filters::filter_twice(d.values, keep, other, other);
    let after = d.upserted(id, balance, today).0;
    if d.without_day(id, today).value_refusal(id, balance) is None {
        reveal(Seq::filter);
        assert(after.values.drop_last() =~= d.values.filter(keep));
    }
}

/// Recomputing changes nothing but the totals of the day, whether or not it
/// succeeds: every other row stays as it is, every account that was there stays
/// as it is, and the balances that totals are made of stay the same.
pub proof fn law_recomputing_changes_only_totals<F: Fn(&Vec<Balance>) -> Balance>(
    d: LedgerData,
    sum: F,
    today: Seq<char>,
    after: LedgerData,
    error: Option<LedgerError>,
)
    requires
        d.recomputed(sum, today, after, error),
    ensures
        other_rows(after, today) == other_rows(d, today),
        d.accounts.submap_of(after.accounts),
        after.accounts == d.with_virtual_accounts().accounts,
        after.fetches == d.fetches,
        after.settings == d.settings,
        counted(after) == counted(d),
{
    let e = d.with_virtual_accounts();
    law_totals_ignore_virtual_accounts(d);
    let (t, a, l) = choose|t: Balance, a: Balance, l: Balance|
        {
            &&& sums_to(sum, counted(e), t)
            &&& sums_to(sum, assets(e), a)
            &&& sums_to(sum, liabilities(e), l)
            &&& #[trigger] e.with_totals(today, t, a, l) == (after, error)
        };
    let first = e.upserted(TOTAL_ID@, t, today).0;
    let second = first.upserted(ASSETS_ID@, a, today).0;
    upsert_keeps_other_rows(e, TOTAL_ID@, t, today);
    upsert_keeps_other_rows(first, ASSETS_ID@, a, today);
    upsert_keeps_other_rows(second, LIABILITIES_ID@, l, today);
    law_totals_ignore_stored_totals(e, TOTAL_ID@, t, today);
    law_totals_ignore_stored_totals(first, ASSETS_ID@, a, today);
    law_totals_ignore_stored_totals(second, LIABILITIES_ID@, l, today);
}

/// One list of balances has one sum.
proof fn one_sum<F: Fn(&Vec<Balance>) -> Balance>(
    sum: F,
    balances: Seq<Balance>,
    s: Balance,
    t: Balance,
)
    requires
        sums_alike(sum),
        sums_to(sum, balances, s),
        sums_to(sum, balances, t),
    ensures
        s == t,
{
}

/// Recomputing the totals again on the same day leaves them as they were: each
/// virtual account has one value on the day, with the balance that it had after
/// the first time. No other row and no account changes.
///
/// The sum has to give one result per list of balances.
pub proof fn law_recomputing_twice_is_recomputing_once<F: Fn(&Vec<Balance>) -> Balance>(
    d: LedgerData,
    sum: F,
    today: Seq<char>,
    once: LedgerData,
    twice: LedgerData,
    id: Seq<char>,
)
    requires
        sums_alike(sum),
        d.recomputed(sum, today, once, None),
        once.recomputed(sum, today, twice, None),
        is_virtual(id),
    ensures
        day_values(once, id, today).len() == 1,
        day_values(twice, id, today).len() == 1,
        day_values(twice, id, today)[0].balance == day_values(once, id, today)[0].balance,
        other_rows(twice, today) == other_rows(once, today),
        twice.accounts == once.accounts,
{
    law_totals_add_up(d, sum, today, once);
    law_totals_add_up(once, sum, today, twice);
    law_recomputing_changes_only_totals(d, sum, today, once, None);
    law_recomputing_changes_only_totals(once, sum, today, twice, None);
    let before = day_values(once, id, today)[0].balance;
    let after = day_values(twice, id, today)[0].balance;
    if id == TOTAL_ID@ {
        one_sum(sum, counted(d), before, after);
    } else if id == ASSETS_ID@ {
        one_sum(sum, assets(d), before, after);
    } else {
        one_sum(sum, liabilities(d), before, after);
    }
}

/// However often the totals of a day are recomputed in a row, after every time
/// each virtual account has one value on the day, always with the same balance,
/// and every other row and every account that was there is as it was.
///
/// `states` are the ledger at first and after each time.
pub proof fn law_recomputing_is_stable<F: Fn(&Vec<Balance>) -> Balance>(
    states: Seq<LedgerData>,
    sum: F,
    today: Seq<char>,
    id: Seq<char>,
    i: int,
)
    requires
        sums_alike(sum),
        forall|k: int, m: int|
            0 <= k && m == k + 1 && m < states.len() ==> (#[trigger] states[k]).recomputed(
                sum,
                today,
                #[trigger] states[m],
                None,
            ),
        is_virtual(id),
        1 <= i < states.len(),
    ensures
        day_values(states[i], id, today).len() == 1,
        day_values(states[i], id, today)[0].balance == day_values(states[1], id, today)[0].balance,
        other_rows(states[i], today) == other_rows(states[0], today),
        states[0].accounts.submap_of(states[i].accounts),
    decreases i,
{
    assert(states[i - 1].recomputed(sum, today, states[i], None));
    law_recomputing_changes_only_totals(states[i - 1], sum, today, states[i], None);
    if i == 1 {
        law_totals_add_up(states[0], sum, today, states[1]);
    } else {
        assert(states[i - 2].recomputed(sum, today, states[i - 1], None));
        law_recomputing_is_stable(states, sum, today, id, i - 1);
        law_recomputing_twice_is_recomputing_once(
            states[i - 2],
            sum,
            today,
            states[i - 1],
            states[i],
            id,
        );
    }
}

} // verus!
