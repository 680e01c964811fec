//! Hiding accounts, and manual accounts with hand-entered values.
use vstd::prelude::*;

use crate::balance::Balance;
use crate::ledger::{Ledger, LedgerData, LedgerError};
use crate::model::{
    Account, AccountData, AddManualAccountRequest, AddManualValueRequest, DeletedValue, ValueData,
};
use crate::text::{joined, starts_with};

verus! {

/// Whether the identifier is reserved for virtual accounts.
pub open spec fn is_reserved(id: Seq<char>) -> bool {
    "__"@.is_prefix_of(id)
}

/// Whether the character is a lower case hexadecimal digit.
pub open spec fn is_hex(c: char) -> bool {
    '0' <= c <= '9' || 'a' <= c <= 'f'
}

/// Whether the text is a random UUID in its hyphenated form.
pub open spec fn is_random_uuid(s: Seq<char>) -> bool {
    &&& s.len() == 36
    &&& forall|i: int|
        0 <= i < 36 ==> if i == 8 || i == 13 || i == 18 || i == 23 {
            (#[trigger] s[i]) == '-'
        } else {
            is_hex(s[i])
        }
    &&& s[14] == '4'
    &&& s[19] == '8' || s[19] == '9' || s[19] == 'a' || s[19] == 'b'
}

/// The text of `uuid::Uuid::new_v4`, a version 4 UUID of the RFC 9562 variant
/// with random digits elsewhere. Which one comes back is left open.
#[verifier::external_body]
fn random_uuid() -> (r: String)
    ensures
        is_random_uuid(r@),
{
    uuid::Uuid::new_v4().to_string()
}

impl LedgerData {
    /// The ledger with the account hidden if it was shown, and shown if it was
    /// hidden.
    pub open spec fn with_toggled(self, id: Seq<char>) -> LedgerData {
        LedgerData {
            accounts: self.accounts.insert(
                id,
                AccountData { is_ignored: !self.accounts[id].is_ignored, ..self.accounts[id] },
            ),
            ..self
        }
    }

    /// The ledger without the value with the identifier.
    pub open spec fn without_value(self, id: i64) -> LedgerData {
        LedgerData { values: self.values.filter(|r: ValueData| r.id != id), ..self }
    }

    /// Whether the row is the value of its account that was added last.
    pub open spec fn is_last_of(self, row: ValueData, account_id: Seq<char>) -> bool {
        &&& self.values.contains(row)
        &&& row.account_id == account_id
        &&& crate::totals::is_latest(self.values, row)
    }

    /// Whether `after` is this ledger with its totals recomputed, or as far as
    /// that went.
    pub open spec fn refreshed<F: Fn(&Vec<Balance>) -> Balance>(
        self,
        sum: F,
        date: Seq<char>,
        after: LedgerData,
    ) -> bool {
        exists|e: Option<LedgerError>| #[trigger] self.recomputed(sum, date, after, e)
    }
}

/// The account that a request describes.
pub open spec fn manual_account(id: Seq<char>, request: AddManualAccountRequest) -> AccountData {
    AccountData {
        id,
        name: request.name@,
        account_type: request.account_type@,
        institution: request.institution@,
        currency: "NZD"@,
        is_manual: true,
        is_ignored: false,
    }
}

/// Removing a row is keeping those with another identifier.
proof fn remove_is_filter(values: Seq<ValueData>, last: i64, i: int)
    requires
        crate::ledger::values_ordered(values, last),
        0 <= i < values.len(),
    ensures
        values.remove(i) == values.filter(|r: ValueData| r.id != values[i].id),
        crate::ledger::values_ordered(values.remove(i), last),
{
    let keep = |r: ValueData| r.id != values[i].id;
    let head = values.take(i);
    let mid = seq![values[i]];
    let tail = values.skip(i + 1);
    assert(values =~= head + (mid + tail));
    Seq::filter_distributes_over_add(head, mid + tail, keep);
    Seq::filter_distributes_over_add(mid, tail, keep);
    assert forall|j: int| 0 <= j < head.len() implies keep(#[trigger] head[j]) by {
        assert(head[j] == values[j]);
    }
    assert forall|j: int| 0 <= j < tail.len() implies keep(#[trigger] tail[j]) by {
        assert(tail[j] == values[j + i + 1]);
    }
    crate::filters::filter_all(head, keep);
    crate::filters::filter_all(tail, keep);
    assert(mid.filter(keep) =~= Seq::<ValueData>::empty()) by {
        reveal_with_fuel(Seq::filter, 2);
        assert(mid.drop_last() =~= Seq::<ValueData>::empty());
    }
    assert(values.remove(i) =~= head + tail);
    crate::ledger::filter_keeps_order(values, last, keep);
}

/// Refuses an identifier that is reserved: such an account cannot be hidden.
pub fn check_can_hide(account_id: &str) -> (r: Result<(), LedgerError>)
    ensures
        crate::totals::failure(r) == if is_reserved(account_id@) {
            Some(LedgerError::VirtualAccount)
        } else {
            None
        },
{
    if starts_with(account_id, "__") {
        Err(LedgerError::VirtualAccount)
    } else {
        Ok(())
    }
}

impl Ledger {
    /// Hides a shown account or shows a hidden one, and recomputes the totals.
    /// The result says whether the account is now hidden.
    pub fn toggle_ignore_account<F: Fn(&Vec<Balance>) -> Balance>(
        &mut self,
        account_id: &str,
        today: &str,
        sum: F,
    ) -> (r: Result<bool, LedgerError>)
        requires
            old(self).well_formed(),
            crate::totals::sums_all(sum),
        ensures
            final(self).well_formed(),
            match r {
                Ok(hidden) => {
                    &&& !is_reserved(account_id@)
                    &&& old(self)@.accounts.contains_key(account_id@)
                    &&& hidden == !old(self)@.accounts[account_id@].is_ignored
                    &&& old(self)@.with_toggled(account_id@).refreshed(
                        sum,
                        today@,
                        final(self)@,
                    )
                    &&& old(self)@.last_value_id <= i64::MAX - 3
                        ==> crate::outcomes::manual::hiding_changed(
                        old(self)@,
                        account_id@,
                        sum,
                        today@,
                        final(self)@,
                    )
                },
                Err(e) => {
                    &&& final(self)@ == old(self)@
                    &&& is_reserved(account_id@) || !old(self)@.accounts.contains_key(account_id@)
                    &&& e == if is_reserved(account_id@) {
                        LedgerError::VirtualAccount
                    } else {
                        LedgerError::NoSuchRow
                    }
                },
            },
    {
        match check_can_hide(account_id) {
            Err(e) => {
                return Err(e);
            },
            Ok(_) => {},
        }
        match self.find_account(account_id) {
            None => Err(LedgerError::NoSuchRow),
            Some(i) => {
                let mut account: Account = self.accounts[i].duplicate();
                account.is_ignored = !account.is_ignored;
                let hidden: bool = account.is_ignored;
                proof {
                    self.lemma_contents();
                }
                self.put_account(account);
                assert(self@ == old(self)@.with_toggled(account_id@));
                let _outcome: Result<(), LedgerError> = self.recompute_total(today, sum);
                proof {
                    let before = old(self)@;
                    assert(before.with_toggled(account_id@).refreshed(sum, today@, self@));
                    if before.last_value_id <= i64::MAX - 3 {
                        crate::outcomes::manual::law_toggling_outcome(
                            before,
                            account_id@,
                            sum,
                            today@,
                            self@,
                        );
                    }
                }
                Ok(hidden)
            },
        }
    }

    /// Adds a manual account under the given identifier.
    pub fn add_manual_account_as(&mut self, id: String, request: AddManualAccountRequest) -> (r:
        Result<Account, LedgerError>)
        requires
            old(self).well_formed(),
        ensures
            final(self).well_formed(),
            match r {
                Ok(account) => {
                    &&& !old(self)@.accounts.contains_key(id@)
                    &&& account@ == manual_account(id@, request)
                    &&& final(self)@ == old(self)@.with_account(account@)
                },
                Err(e) => {
                    &&& old(self)@.accounts.contains_key(id@)
                    &&& e == LedgerError::DuplicateAccount
                    &&& final(self)@ == old(self)@
                },
            },
    {
        if self.find_account(id.as_str()).is_some() {
            return Err(LedgerError::DuplicateAccount);
        }
        let account = Account {
            id,
            name: request.name,
            account_type: request.account_type,
            institution: request.institution,
            currency: "NZD".to_owned(),
            is_manual: true,
            is_ignored: false,
        };
        let stored: Account = account.duplicate();
        self.put_account(stored);
        Ok(account)
    }

    /// Adds a manual account under a new random identifier.
    pub fn add_manual_account(&mut self, request: AddManualAccountRequest) -> (r: Result<
        Account,
        LedgerError,
    >)
        requires
            old(self).well_formed(),
        ensures
            final(self).well_formed(),
            exists|u: Seq<char>| #[trigger]
                is_random_uuid(u) && match r {
                    Ok(account) => {
                        &&& !old(self)@.accounts.contains_key("manual_"@ + u)
                        &&& account@ == manual_account("manual_"@ + u, request)
                        &&& final(self)@ == old(self)@.with_account(account@)
                    },
                    Err(e) => {
                        &&& old(self)@.accounts.contains_key("manual_"@ + u)
                        &&& e == LedgerError::DuplicateAccount
                        &&& final(self)@ == old(self)@
                    },
                },
    {
        let u: String = random_uuid();
        let id: String = joined("manual_", u.as_str());
        assert(is_random_uuid(u@));
        self.add_manual_account_as(id, request)
    }

    /// Adds a value to a manual account and recomputes the totals.
    pub fn add_manual_account_value<F: Fn(&Vec<Balance>) -> Balance>(
        &mut self,
        request: AddManualValueRequest,
        today: &str,
        sum: F,
    ) -> (r: Result<(), LedgerError>)
        requires
            old(self).well_formed(),
            crate::totals::sums_all(sum),
        ensures
            final(self).well_formed(),
            crate::totals::failure(r) == old(self)@.manual_value_refusal(
                request.account_id@,
                request.balance,
            ),
            r is Ok ==> old(self)@.with_value(
                request.account_id@,
                request.balance,
                today@,
            ).refreshed(sum, today@, final(self)@),
            r is Ok && old(self)@.last_value_id <= i64::MAX - 4
                && !crate::outcomes::totals::total_id(request.account_id@)
                ==> crate::outcomes::manual::value_entered(
                old(self)@,
                request.account_id@,
                request.balance,
                sum,
                today@,
                final(self)@,
            ),
            r is Err ==> final(self)@ == old(self)@,
    {
        let i: usize = match self.find_account(request.account_id.as_str()) {
            None => {
                return Err(LedgerError::AccountNotFound);
            },
            Some(i) => i,
        };
        if !self.accounts[i].is_manual {
            return Err(LedgerError::AddToForeignAccount);
        }
        match self.insert_value(request.account_id.as_str(), request.balance, today) {
            Err(e) => {
                return Err(e);
            },
            Ok(_) => {},
        }
        let _outcome: Result<(), LedgerError> = self.recompute_total(today, sum);
        proof {
            let before = old(self)@;
            let id = request.account_id@;
            assert(before.with_value(id, request.balance, today@).refreshed(sum, today@, self@));
            if before.last_value_id <= i64::MAX - 4 && !crate::outcomes::totals::total_id(id) {
                crate::outcomes::manual::law_entering_outcome(
                    before,
                    id,
                    request.balance,
                    sum,
                    today@,
                    self@,
                );
            }
        }
        Ok(())
    }

    /// Where the last value of the account stands.
    pub(crate) fn last_value_at(&self, account_id: &str) -> (r: Option<usize>)
        requires
            self.well_formed(),
        ensures
            match r {
                Some(i) => i < self.values.len() && self@.is_last_of(
                    self@.values[i as int],
                    account_id@,
                ),
                None => !self@.has_value(account_id@),
            },
    {
        let key: String = account_id.to_owned();
        let ghost rows = self@.values;
        let mut i: usize = self.values.len();
        while i > 0
            invariant
                i <= self.values.len(),
                key@ == account_id@,
                self.well_formed(),
                rows == self@.values,
                rows.len() == self.values.len(),
                forall|j: int| i <= j < rows.len() ==> (#[trigger] rows[j]).account_id
                    != account_id@,
            decreases i,
        {
            i = i - 1;
            assert(rows[i as int].account_id == self.values[i as int].account_id@);
            if self.values[i].account_id == key {
                assert(rows.contains(rows[i as int]));
                return Some(i);
            }
        }
        None
    }

    /// Removes the value of a manual account that was added last and recomputes
    /// the totals. The result is the removed value, if there was one.
    pub fn delete_last_manual_value<F: Fn(&Vec<Balance>) -> Balance>(
        &mut self,
        account_id: &str,
        today: &str,
        sum: F,
    ) -> (r: Result<Option<DeletedValue>, LedgerError>)
        requires
            old(self).well_formed(),
            crate::totals::sums_all(sum),
        ensures
            final(self).well_formed(),
            match r {
                Ok(deleted) => {
                    &&& old(self)@.manual_delete_refusal(account_id@) is None
                    &&& match deleted {
                        None => !old(self)@.has_value(account_id@) && final(self)@ == old(self)@,
                        Some(value) => exists|row: ValueData|
                            {
                                &&& #[trigger] old(self)@.is_last_of(row, account_id@)
                                &&& value.balance == row.balance
                                &&& value.recorded_date@ == row.recorded_date
                                &&& old(self)@.without_value(row.id).refreshed(
                                    sum,
                                    today@,
                                    final(self)@,
                                )
                            },
                    }
                    &&& deleted is Some && old(self)@.last_value_id <= i64::MAX - 3 ==> exists|
                        at: int,
                    |
                        {
                            &&& 0 <= at < old(self)@.values.len()
                            &&& (#[trigger] old(self)@.values[at]).account_id == account_id@
                            &&& old(self)@.values[at].balance == deleted->0.balance
                            &&& old(self)@.values[at].recorded_date
                                == deleted->0.recorded_date@
                            &&& crate::outcomes::totals::highest_of_account(old(self)@, at)
                            &&& crate::outcomes::manual::value_deleted(
                                old(self)@,
                                at,
                                sum,
                                today@,
                                final(self)@,
                            )
                        }
                },
                Err(e) => {
                    &&& old(self)@.manual_delete_refusal(account_id@) == Some(e)
                    &&& final(self)@ == old(self)@
                },
            },
    {
        let at: usize = match self.find_account(account_id) {
            None => {
                return Err(LedgerError::AccountNotFound);
            },
            Some(i) => i,
        };
        if !self.accounts[at].is_manual {
            return Err(LedgerError::DeleteFromForeignAccount);
        }
        let i: usize = match self.last_value_at(account_id) {
            None => {
                return Ok(None);
            },
            Some(i) => i,
        };
        let ghost rows = self@.values;
        let ghost row = rows[i as int];
        proof {
            remove_is_filter(rows, self.last_value_id, i as int);
        }
        let removed = self.values.remove(i);
        assert(crate::ledger::value_rows(self.values@) =~= rows.remove(i as int));
        assert(self@ == old(self)@.without_value(row.id));
        let _outcome: Result<(), LedgerError> = self.recompute_total(today, sum);
        proof {
            let before = old(self)@;
            assert(before.without_value(row.id).refreshed(sum, today@, self@));
            if before.last_value_id <= i64::MAX - 3 {
                old(self).lemma_contents();
                crate::outcomes::manual::law_deleting_outcome(
                    before,
                    account_id@,
                    row,
                    sum,
                    today@,
                    self@,
                );
            }
        }
        let deleted = DeletedValue {
            balance: removed.balance,
            recorded_date: removed.recorded_date,
        };
        Ok(Some(deleted))
    }
}

impl LedgerData {
    /// Why a value cannot be added to the account by hand, if it cannot.
    pub open spec fn manual_value_refusal(self, id: Seq<char>, balance: Balance) -> Option<
        LedgerError,
    > {
        if !self.accounts.contains_key(id) {
            Some(LedgerError::AccountNotFound)
        } else if !self.accounts[id].is_manual {
            Some(LedgerError::AddToForeignAccount)
        } else {
            self.value_refusal(id, balance)
        }
    }

    /// Why values of the account cannot be deleted by hand, if they cannot.
    pub open spec fn manual_delete_refusal(self, id: Seq<char>) -> Option<LedgerError> {
        if !self.accounts.contains_key(id) {
            Some(LedgerError::AccountNotFound)
        } else if !self.accounts[id].is_manual {
            Some(LedgerError::DeleteFromForeignAccount)
        } else {
            None
        }
    }
}

/// The values of accounts other than the virtual ones.
pub open spec fn real_values(d: LedgerData) -> Seq<ValueData> {
    d.values.filter(|r: ValueData| !crate::totals::is_virtual(r.account_id))
}

/// Storing a virtual total leaves the values of the other accounts alone.
proof fn upsert_keeps_real_values(
    d: LedgerData,
    id: Seq<char>,
    balance: Balance,
    date: Seq<char>,
)
    requires
        crate::totals::is_virtual(id),
    ensures
        real_values(d.upserted(id, balance, date).0) == real_values(d),
{
    let keep = |r: ValueData| !crate::ledger::on_day(r, id, date);
    let own = |r: ValueData| !crate::totals::is_virtual(r.account_id);
    crate::filters::filter_twice(d.values, keep, own, own);
    let after = d.upserted(id, balance, date).0;
    if d.without_day(id, date).value_refusal(id, balance) is None {
        reveal(Seq::filter);
        assert(after.values.drop_last() =~= d.values.filter(keep));
    }
}

/// Recomputing the totals never touches the values of the other accounts,
/// whether or not it succeeds.
pub proof fn law_totals_leave_real_values<F: Fn(&Vec<Balance>) -> Balance>(
    d: LedgerData,
    sum: F,
    today: Seq<char>,
    after: LedgerData,
)
    requires
        d.refreshed(sum, today, after),
    ensures
        real_values(after) == real_values(d),
{
    let error = choose|e: Option<LedgerError>| #[trigger] d.recomputed(sum, today, after, e);
    let e = d.with_virtual_accounts();
    let (t, a, l) = choose|t: Balance, a: Balance, l: Balance|
        {
            &&& crate::totals::sums_to(sum, crate::totals::counted(e), t)
            &&& crate::totals::sums_to(sum, crate::totals::assets(e), a)
            &&& crate::totals::sums_to(sum, crate::totals::liabilities(e), l)
            &&& #[trigger] e.with_totals(today, t, a, l) == (after, error)
        };
    let total = crate::totals::TOTAL_ID@;
    let assets = crate::totals::ASSETS_ID@;
    let liabilities = crate::totals::LIABILITIES_ID@;
    let first = e.upserted(total, t, today).0;
    let second = first.upserted(assets, a, today).0;
    upsert_keeps_real_values(e, total, t, today);
    upsert_keeps_real_values(first, assets, a, today);
    upsert_keeps_real_values(second, liabilities, l, today);
}

/// Deleting the last value of an account undoes adding one: the deleted value is
/// the added one, and the values of all accounts that are not virtual are what
/// they were before.
pub proof fn law_delete_undoes_add<F: Fn(&Vec<Balance>) -> Balance>(
    before: LedgerData,
    account_id: Seq<char>,
    balance: Balance,
    add_day: Seq<char>,
    delete_day: Seq<char>,
    sum: F,
    added: LedgerData,
    row: ValueData,
    after: LedgerData,
)
    requires
        before.well_formed(),
        !crate::totals::is_virtual(account_id),
        before.value_refusal(account_id, balance) is None,
        before.with_value(account_id, balance, add_day).refreshed(sum, add_day, added),
        added.is_last_of(row, account_id),
        added.without_value(row.id).refreshed(sum, delete_day, after),
    ensures
        row.balance == balance,
        row.recorded_date == add_day,
        real_values(after) == real_values(before),
{
    let own = |r: ValueData| !crate::totals::is_virtual(r.account_id);
    let with = before.with_value(account_id, balance, add_day);
    let new_row = with.values.last();
    law_totals_leave_real_values(with, sum, add_day, added);
    law_totals_leave_real_values(added.without_value(row.id), sum, delete_day, after);
    let kept = real_values(before);
    reveal(Seq::filter);
    assert(with.values.drop_last() =~= before.values);
    assert(real_values(with) == kept.push(new_row));
    assert(real_values(added) == kept.push(new_row));
    // The added row is in the ledger from which the last row is deleted.
    let at = kept.len() as int;
    crate::filters::filter_only_keeps(added.values, own, at);
    assert(real_values(added)[at] == new_row);
    let j = choose|j: int| 0 <= j < added.values.len() && #[trigger] added.values[j] == new_row;
    assert(added.values[j].account_id == row.account_id);
    assert(new_row.id <= row.id);
    // No other row of the account has so high an identifier.
    let k = choose|k: int| 0 <= k < added.values.len() && added.values[k] == row;
    crate::filters::filter_keeps(added.values, own, k);
    let m = choose|m: int|
        0 <= m < real_values(added).len() && #[trigger] real_values(added)[m] == added.values[k];
    assert forall|i: int| 0 <= i < kept.len() implies (#[trigger] kept[i]).id < new_row.id by {
        crate::filters::filter_only_keeps(before.values, own, i);
    }
    if m < at {
        assert(kept[m] == row);
    }
    assert(row == new_row);
    // Without it, the values are those from before.
    let other = |r: ValueData| r.id != row.id;
    let both = |r: ValueData| own(r) && other(r);
    crate::filters::filter_twice(added.values, other, own, both);
    crate::filters::filter_twice(added.values, own, other, both);
    assert(kept.push(new_row).drop_last() =~= kept);
    crate::filters::filter_all(kept, other);
    assert(kept.push(new_row).filter(other) == kept);
}

/// Toggling an account twice restores the accounts.
pub proof fn law_toggle_twice_restores(d: LedgerData, id: Seq<char>)
    requires
        d.accounts.contains_key(id),
    ensures
        d.with_toggled(id).with_toggled(id) == d,
        d.with_toggled(id).accounts[id].is_ignored != d.accounts[id].is_ignored,
{
    assert(d.with_toggled(id).with_toggled(id).accounts =~= d.accounts);
}

/// A new manual account never takes the identifier of a virtual account, and
/// can be hidden.
pub proof fn law_manual_ids_are_not_reserved(u: Seq<char>)
    ensures
        !is_reserved("manual_"@ + u),
        !crate::totals::is_virtual("manual_"@ + u),
{
    reveal_strlit("manual_");
    reveal_strlit("__");
    reveal_strlit("__total__");
    reveal_strlit("__assets_total__");
    reveal_strlit("__liabilities_total__");
    let id = "manual_"@ + u;
    assert(id[0] == 'm');
    if is_reserved(id) {
        assert(id.take(2)[0] == "__"@[0]);
    }
    assert(crate::totals::TOTAL_ID@[0] == '_');
    assert(crate::totals::ASSETS_ID@[0] == '_');
    assert(crate::totals::LIABILITIES_ID@[0] == '_');
}

/// Every virtual account is reserved, so none of them can be hidden.
pub proof fn law_virtual_accounts_are_reserved(id: Seq<char>)
    requires
        crate::totals::is_virtual(id),
    ensures
        is_reserved(id),
{
    reveal_strlit("__");
    reveal_strlit("__total__");
    reveal_strlit("__assets_total__");
    reveal_strlit("__liabilities_total__");
    assert(id.subrange(0, 2) =~= "__"@);
}

} // verus!
