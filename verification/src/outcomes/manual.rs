//! What hiding accounts and entering values by hand come to.
use vstd::prelude::*;

use crate::balance::Balance;
use crate::ledger::{LedgerData, LedgerError};
use crate::model::{AccountData, AddManualAccountRequest, ValueData};

verus! {

/// Whether the accounts differ in nothing but being hidden.
pub open spec fn differ_in_hiding(a: AccountData, b: AccountData) -> bool {
    &&& a.id == b.id
    &&& a.name == b.name
    &&& a.account_type == b.account_type
    &&& a.institution == b.institution
    &&& a.currency == b.currency
    &&& a.is_manual == b.is_manual
    &&& a.is_ignored != b.is_ignored
}

/// Whether the ledger is the other with one account hidden or shown, and with
/// totals of the day that add up. No row but the totals of the day changes.
pub open spec fn hiding_changed<F: Fn(&Vec<Balance>) -> Balance>(
    d: LedgerData,
    id: Seq<char>,
    sum: F,
    today: Seq<char>,
    after: LedgerData,
) -> bool {
    &&& after.accounts.contains_key(id)
    &&& differ_in_hiding(after.accounts[id], d.accounts[id])
    &&& forall|k: Seq<char>| #[trigger]
        d.accounts.contains_key(k) && k != id ==> after.accounts.contains_key(k)
            && after.accounts[k] == d.accounts[k]
    &&& forall|k: Seq<char>| #[trigger]
        after.accounts.contains_key(k) ==> d.accounts.contains_key(k)
            || crate::outcomes::totals::total_id(k)
    &&& crate::outcomes::totals::totals_hold(after, sum, today)
    &&& exists|p: Seq<int>|
        {
            &&& #[trigger] crate::outcomes::totals::are_other_rows(d, p, today)
            &&& rows_and_totals(d.values, p, d.last_value_id as int, after.values, today)
        }
    &&& after.last_value_id == d.last_value_id + 3
    &&& after.fetches == d.fetches
    &&& after.settings == d.settings
}

/// Whether the rows are those at the positions, in their order, followed by the
/// three totals of the day under the identifiers that follow `last`.
pub open spec fn rows_and_totals(
    rows: Seq<ValueData>,
    p: Seq<int>,
    last: int,
    after: Seq<ValueData>,
    today: Seq<char>,
) -> bool {
    let n = p.len() as int;
    &&& after.len() == n + 3
    &&& forall|k: int| 0 <= k < n ==> #[trigger] after[k] == rows[p[k]]
    &&& crate::outcomes::totals::is_row(after[n], last + 1, "__total__"@, today)
    &&& crate::outcomes::totals::is_row(after[n + 1], last + 2, "__assets_total__"@, today)
    &&& crate::outcomes::totals::is_row(after[n + 2], last + 3, "__liabilities_total__"@, today)
}

/// Toggling an account hides it if it was shown and shows it if it was hidden,
/// changes no other account, and brings the totals of the day up to date.
pub proof fn law_toggling_outcome<F: Fn(&Vec<Balance>) -> Balance>(
    d: LedgerData,
    id: Seq<char>,
    sum: F,
    today: Seq<char>,
    after: LedgerData,
)
    requires
        d.accounts.contains_key(id),
        d.last_value_id <= i64::MAX - 3,
        d.with_toggled(id).refreshed(sum, today, after),
    ensures
        hiding_changed(d, id, sum, today, after),
{
    let with = d.with_toggled(id);
    crate::outcomes::totals::law_refreshed_totals_hold(with, sum, today, after);
    assert(with.accounts.contains_key(id));
    let p = choose|p: Seq<int>|
        {
            &&& #[trigger] crate::outcomes::totals::are_other_rows(with, p, today)
            &&& rows_and_totals(with.values, p, with.last_value_id as int, after.values, today)
        };
    assert(crate::outcomes::totals::are_other_rows(d, p, today));
    assert forall|k: Seq<char>| #[trigger]
        d.accounts.contains_key(k) && k != id implies after.accounts.contains_key(k)
        && after.accounts[k] == d.accounts[k] by {
        assert(with.accounts.contains_key(k));
    }
    assert forall|k: Seq<char>| #[trigger]
        after.accounts.contains_key(k) implies d.accounts.contains_key(k)
        || crate::outcomes::totals::total_id(k) by {
        assert(with.accounts.contains_key(k) ==> d.accounts.contains_key(k));
    }
}

/// An identifier is reserved exactly when its first two characters are
/// underscores.
pub proof fn law_reserved_identifiers(id: Seq<char>)
    ensures
        crate::manual::is_reserved(id) <==> id.len() >= 2 && id[0] == '_' && id[1] == '_',
{
    reveal_strlit("__");
    if id.len() >= 2 && id[0] == '_' && id[1] == '_' {
        assert(id.take(2) =~= "__"@);
    }
    if crate::manual::is_reserved(id) {
        assert(id.take(2)[0] == '_' && id.take(2)[1] == '_');
    }
}

/// A new manual account has the name, kind and institution of the request, is in
/// New Zealand dollars, manual and shown. It is stored beside the accounts that
/// were there, and has no value yet if there was none under its identifier.
pub proof fn law_new_manual_account(
    d: LedgerData,
    id: Seq<char>,
    request: AddManualAccountRequest,
)
    requires
        !d.accounts.contains_key(id),
    ensures
        ({
            let after = d.with_account(crate::manual::manual_account(id, request));
            let account = after.accounts[id];
            &&& after.accounts.contains_key(id)
            &&& account.id == id
            &&& account.name == request.name@
            &&& account.account_type == request.account_type@
            &&& account.institution == request.institution@
            &&& account.currency == "NZD"@
            &&& account.is_manual
            &&& !account.is_ignored
            &&& forall|k: Seq<char>| #[trigger]
                after.accounts.contains_key(k) <==> d.accounts.contains_key(k) || k == id
            &&& forall|k: Seq<char>| #[trigger]
                d.accounts.contains_key(k) ==> after.accounts[k] == d.accounts[k]
            &&& after.values == d.values
            &&& after.last_value_id == d.last_value_id
            &&& after.fetches == d.fetches
            &&& after.last_fetch_id == d.last_fetch_id
            &&& after.settings == d.settings
        }),
{
}

/// A value can be entered by hand exactly for a stored manual account, with a
/// balance that is a number, as long as an identifier is left. The first of these
/// that fails says why not.
pub proof fn law_when_values_can_be_entered(d: LedgerData, id: Seq<char>, balance: Balance)
    ensures
        ({
            let stored = d.accounts.contains_key(id);
            let manual = stored && d.accounts[id].is_manual;
            let room = d.last_value_id < i64::MAX;
            let usable = -0x7ff0_0000_0000_0001 <= balance.key <= 0x7ff0_0000_0000_0000;
            let refusal = d.manual_value_refusal(id, balance);
            &&& refusal is None <==> manual && room && usable
            &&& refusal == Some(LedgerError::AccountNotFound) <==> !stored
            &&& refusal == Some(LedgerError::AddToForeignAccount) <==> stored && !manual
            &&& refusal == Some(LedgerError::NoIdLeft) <==> manual && !room
            &&& refusal == Some(LedgerError::NotANumber) <==> manual && room && !usable
        }),
{
}

/// Values can be deleted by hand exactly for a stored manual account.
pub proof fn law_when_values_can_be_deleted(d: LedgerData, id: Seq<char>)
    ensures
        ({
            let stored = d.accounts.contains_key(id);
            let manual = stored && d.accounts[id].is_manual;
            let refusal = d.manual_delete_refusal(id);
            &&& refusal is None <==> manual
            &&& refusal == Some(LedgerError::AccountNotFound) <==> !stored
            &&& refusal == Some(LedgerError::DeleteFromForeignAccount) <==> stored && !manual
        }),
{
}

/// Whether the ledger is the other with one more value of the account on the day,
/// and with totals of the day that add up. The other rows stay in their order, and
/// so do the accounts.
pub open spec fn value_entered<F: Fn(&Vec<Balance>) -> Balance>(
    d: LedgerData,
    id: Seq<char>,
    balance: Balance,
    sum: F,
    today: Seq<char>,
    after: LedgerData,
) -> bool {
    &&& exists|p: Seq<int>|
        {
            let n = p.len() as int;
            &&& #[trigger] crate::outcomes::totals::are_other_rows(d, p, today)
            &&& after.values.len() == n + 4
            &&& forall|k: int| 0 <= k < n ==> #[trigger] after.values[k] == d.values[p[k]]
            &&& crate::outcomes::totals::is_row(after.values[n], d.last_value_id + 1, id, today)
            &&& after.values[n].balance == balance
            &&& crate::outcomes::totals::total_id(after.values[n + 1].account_id)
            &&& crate::outcomes::totals::total_id(after.values[n + 2].account_id)
            &&& crate::outcomes::totals::total_id(after.values[n + 3].account_id)
        }
    &&& after.last_value_id == d.last_value_id + 4
    &&& crate::outcomes::totals::totals_hold(after, sum, today)
    &&& crate::outcomes::totals::accounts_with_totals(d, after)
    &&& after.fetches == d.fetches
    &&& after.settings == d.settings
}

/// Entering a value adds it after all others, also where the account has a value
/// on that day already, and brings the totals of the day up to date.
pub proof fn law_entering_outcome<F: Fn(&Vec<Balance>) -> Balance>(
    d: LedgerData,
    id: Seq<char>,
    balance: Balance,
    sum: F,
    today: Seq<char>,
    after: LedgerData,
)
    requires
        !crate::outcomes::totals::total_id(id),
        d.last_value_id <= i64::MAX - 4,
        d.with_value(id, balance, today).refreshed(sum, today, after),
    ensures
        value_entered(d, id, balance, sum, today, after),
{
    let with = d.with_value(id, balance, today);
    crate::outcomes::totals::law_refreshed_totals_hold(with, sum, today, after);
    let q = choose|q: Seq<int>|
        {
            &&& #[trigger] crate::outcomes::totals::are_other_rows(with, q, today)
            &&& rows_and_totals(with.values, q, with.last_value_id as int, after.values, today)
        };
    let n = d.values.len() as int;
    let other = |i: int| !(crate::outcomes::totals::total_id(with.values[i].account_id)
        && with.values[i].recorded_date == today);
    let before = |i: int| !(crate::outcomes::totals::total_id(d.values[i].account_id)
        && d.values[i].recorded_date == today);
    assert(other(n));
    let at = choose|k: int| 0 <= k < q.len() && q[k] == n;
    assert(at == q.len() - 1) by {
        if at < q.len() - 1 {
            assert(q[at] < q[q.len() - 1]);
        }
    }
    let p = q.drop_last();
    assert forall|j: int| 0 <= j < n && #[trigger] before(j) implies p.contains(j) by {
        assert(other(j));
        let k = choose|k: int| 0 <= k < q.len() && q[k] == j;
        assert(p[k] == j);
    }
    assert forall|k: int| 0 <= k < p.len() implies 0 <= #[trigger] p[k] < n && before(p[k]) by {
        assert(q[k] < q[at]);
        assert(other(q[k]));
    }
    assert(crate::outcomes::totals::are_other_rows(d, p, today));
    assert forall|k: int| 0 <= k < p.len() implies #[trigger] after.values[k] == d.values[p[k]] by {
        assert(after.values[k] == with.values[q[k]]);
    }
    assert(after.values[at] == with.values[q[at]]);
}

/// Whether the positions are those of the rows other than the one at `at` and the
/// totals of the day.
pub open spec fn are_rows_without(
    d: LedgerData,
    p: Seq<int>,
    at: int,
    today: Seq<char>,
) -> bool {
    crate::outcomes::positions::lists_positions(
        p,
        d.values.len() as int,
        |i: int|
            i != at && !(crate::outcomes::totals::total_id(d.values[i].account_id)
                && d.values[i].recorded_date == today),
    )
}

/// Whether the ledger is the other without the row at `at`, and with totals of
/// the day that add up. The other rows stay in their order, and so do the
/// accounts.
pub open spec fn value_deleted<F: Fn(&Vec<Balance>) -> Balance>(
    d: LedgerData,
    at: int,
    sum: F,
    today: Seq<char>,
    after: LedgerData,
) -> bool {
    &&& exists|p: Seq<int>|
        {
            &&& #[trigger] are_rows_without(d, p, at, today)
            &&& rows_and_totals(d.values, p, d.last_value_id as int, after.values, today)
        }
    &&& after.last_value_id == d.last_value_id + 3
    &&& crate::outcomes::totals::totals_hold(after, sum, today)
    &&& crate::outcomes::totals::accounts_with_totals(d, after)
    &&& after.fetches == d.fetches
    &&& after.settings == d.settings
}

/// Deleting the last value of an account deletes the row of it with the highest
/// identifier and no other, and brings the totals of the day up to date.
pub proof fn law_deleting_outcome<F: Fn(&Vec<Balance>) -> Balance>(
    d: LedgerData,
    id: Seq<char>,
    row: ValueData,
    sum: F,
    today: Seq<char>,
    after: LedgerData,
)
    requires
        d.well_formed(),
        d.last_value_id <= i64::MAX - 3,
        d.is_last_of(row, id),
        d.without_value(row.id).refreshed(sum, today, after),
    ensures
        exists|at: int|
            {
                &&& 0 <= at < d.values.len()
                &&& #[trigger] d.values[at] == row
                &&& d.values[at].account_id == id
                &&& crate::outcomes::totals::highest_of_account(d, at)
                &&& value_deleted(d, at, sum, today, after)
            },
{
    let without = d.without_value(row.id);
    let n = d.values.len() as int;
    let at = choose|at: int| 0 <= at < n && d.values[at] == row;
    let keep = |r: ValueData| r.id != row.id;
    let q = crate::outcomes::positions::filter_by_position(d.values, keep);
    crate::outcomes::totals::law_refreshed_totals_hold(without, sum, today, after);
    let s = choose|s: Seq<int>|
        {
            &&& #[trigger] crate::outcomes::totals::are_other_rows(without, s, today)
            &&& rows_and_totals(
                without.values,
                s,
                without.last_value_id as int,
                after.values,
                today,
            )
        };
    let kept = |i: int| keep(d.values[i]);
    let other = |i: int| !(crate::outcomes::totals::total_id(d.values[i].account_id)
        && d.values[i].recorded_date == today);
    let inner = |i: int| !(crate::outcomes::totals::total_id(without.values[i].account_id)
        && without.values[i].recorded_date == today);
    let within = |k: int| other(q[k]);
    assert forall|k: int| 0 <= k < q.len() implies (inner(k) <==> #[trigger] within(k)) by {
        assert(without.values[k] == d.values[q[k]]);
    }
    crate::outcomes::positions::same_positions(s, q.len() as int, inner, within);
    crate::outcomes::positions::positions_within(q, n, kept, s, other);
    let p = crate::outcomes::positions::elements_at(q, s);
    let chosen = |i: int|
        i != at && !(crate::outcomes::totals::total_id(d.values[i].account_id)
            && d.values[i].recorded_date == today);
    assert forall|i: int| 0 <= i < n implies ((kept(i) && other(i)) <==> #[trigger] chosen(i)) by {
        if i < at {
            assert(d.values[i].id < d.values[at].id);
        } else if at < i {
            assert(d.values[at].id < d.values[i].id);
        }
    }
    crate::outcomes::positions::same_positions(p, n, |i: int| kept(i) && other(i), chosen);
    assert(are_rows_without(d, p, at, today)) by {
        assert forall|j: int|
            0 <= j < n && j != at && !(crate::outcomes::totals::total_id(
                (#[trigger] d.values[j]).account_id,
            ) && d.values[j].recorded_date == today) implies p.contains(j) by {
            assert(chosen(j));
        }
    }
    assert forall|k: int| 0 <= k < p.len() implies #[trigger] after.values[k] == d.values[p[k]] by {
        assert(0 <= s[k] < q.len());
        assert(after.values[k] == without.values[s[k]]);
    }
    assert(rows_and_totals(d.values, p, d.last_value_id as int, after.values, today));
    assert(value_deleted(d, at, sum, today, after));
    assert(d.values[at] == row);
}

} // verus!
