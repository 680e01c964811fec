//! What recomputing the totals comes to.
use vstd::prelude::*;

use crate::balance::Balance;
use crate::ledger::{LedgerData, LedgerError};
use crate::model::ValueData;

verus! {

/// Whether the identifier is one of the three virtual accounts'.
pub open spec fn total_id(id: Seq<char>) -> bool {
    id == "__total__"@ || id == "__assets_total__"@ || id == "__liabilities_total__"@
}

/// Whether the account is stored, not hidden, and not virtual.
pub open spec fn shown_real(d: LedgerData, id: Seq<char>) -> bool {
    d.accounts.contains_key(id) && !d.accounts[id].is_ignored && !total_id(id)
}

/// Whether the row has the highest identifier of its account.
pub open spec fn highest_of_account(d: LedgerData, i: int) -> bool {
    forall|j: int|
        0 <= j < d.values.len() && (#[trigger] d.values[j]).account_id == d.values[i].account_id
            ==> d.values[j].id <= d.values[i].id
}

/// Whether the row counts: the one with the highest identifier of an account that
/// is stored, not hidden and not virtual.
pub open spec fn row_counts(d: LedgerData, i: int) -> bool {
    highest_of_account(d, i) && shown_real(d, d.values[i].account_id)
}

/// Whether the positions are those of the counting rows with the given sign.
pub open spec fn are_counting_rows(
    d: LedgerData,
    p: Seq<int>,
    sign: spec_fn(i64) -> bool,
) -> bool {
    crate::outcomes::positions::lists_positions(
        p,
        d.values.len() as int,
        |i: int| row_counts(d, i) && sign(d.values[i].balance.key),
    )
}

/// Whether the balances are those of the counting rows with the given sign, each
/// once and in the order of the rows.
pub open spec fn are_counting_balances(
    d: LedgerData,
    balances: Seq<Balance>,
    sign: spec_fn(i64) -> bool,
) -> bool {
    exists|p: Seq<int>|
        {
            &&& #[trigger] are_counting_rows(d, p, sign)
            &&& balances.len() == p.len()
            &&& forall|k: int|
                0 <= k < p.len() ==> #[trigger] balances[k] == d.values[p[k]].balance
        }
}

/// Whether the amount is what `sum` gives for the balances: zero for none, and
/// zero for a result that is no number.
pub open spec fn is_sum_of<F: Fn(&Vec<Balance>) -> Balance>(
    sum: F,
    balances: Seq<Balance>,
    amount: Balance,
) -> bool {
    if balances.len() == 0 {
        amount.key == 0
    } else {
        exists|v: Vec<Balance>, s: Balance| #[trigger]
            call_ensures(sum, (&v,), s) && v@ == balances && if -0x7ff0_0000_0000_0001 <= s.key
                <= 0x7ff0_0000_0000_0000 {
                amount == s
            } else {
                amount.key == 0
            }
    }
}

/// Whether the row is one of the account on the day.
pub open spec fn row_on(row: ValueData, id: Seq<char>, date: Seq<char>) -> bool {
    row.account_id == id && row.recorded_date == date
}

/// Whether the account has exactly one value on the day, and that balance.
pub open spec fn sole_value(
    d: LedgerData,
    id: Seq<char>,
    date: Seq<char>,
    balance: Balance,
) -> bool {
    exists|i: int|
        {
            &&& 0 <= i < d.values.len()
            &&& row_on(#[trigger] d.values[i], id, date)
            &&& d.values[i].balance == balance
            &&& forall|j: int|
                0 <= j < d.values.len() && row_on(#[trigger] d.values[j], id, date) ==> j == i
        }
}

/// Whether the account's only value on the day is the sum of the counting
/// balances with the given sign.
pub open spec fn holds_sum<F: Fn(&Vec<Balance>) -> Balance>(
    d: LedgerData,
    sum: F,
    id: Seq<char>,
    date: Seq<char>,
    sign: spec_fn(i64) -> bool,
) -> bool {
    exists|balances: Seq<Balance>, amount: Balance|
        {
            &&& #[trigger] are_counting_balances(d, balances, sign)
            &&& #[trigger] is_sum_of(sum, balances, amount)
            &&& sole_value(d, id, date, amount)
        }
}

/// Whether the three totals of the day are there, each as the only value of its
/// account, and add up: all counting balances, those not below zero, and those
/// below zero.
pub open spec fn totals_hold<F: Fn(&Vec<Balance>) -> Balance>(
    d: LedgerData,
    sum: F,
    date: Seq<char>,
) -> bool {
    &&& holds_sum(d, sum, "__total__"@, date, |key: i64| true)
    &&& holds_sum(d, sum, "__assets_total__"@, date, |key: i64| key >= -1)
    &&& holds_sum(d, sum, "__liabilities_total__"@, date, |key: i64| key < -1)
}

/// The balances of the total are those of the counting rows, whatever their sign
/// and whether or not an account is manual. Those of the assets are the ones not
/// below zero, and those of the liabilities the ones below zero.
pub proof fn law_counting_balances(d: LedgerData)
    ensures
        are_counting_balances(d, crate::totals::counted(d), |key: i64| true),
        are_counting_balances(d, crate::totals::assets(d), |key: i64| key >= -1),
        are_counting_balances(d, crate::totals::liabilities(d), |key: i64| key < -1),
{
    let n = d.values.len() as int;
    let keep = |r: ValueData| crate::totals::is_counted(d, r);
    let p = crate::outcomes::positions::filter_by_position(d.values, keep);
    let all = crate::totals::counted(d);
    let row = |i: int| row_counts(d, i);
    assert forall|i: int| 0 <= i < n implies (keep(d.values[i]) <==> #[trigger] row(i)) by {
        assert(crate::totals::is_latest(d.values, d.values[i]) <==> highest_of_account(d, i));
    }
    crate::outcomes::positions::same_positions(p, n, |i: int| keep(d.values[i]), row);
    assert forall|k: int| 0 <= k < p.len() implies #[trigger] all[k] == d.values[p[k]].balance by {
        assert(d.values.filter(keep)[k] == d.values[p[k]]);
    }
    let any = |key: i64| true;
    crate::outcomes::positions::same_positions(
        p,
        n,
        row,
        |i: int| row_counts(d, i) && any(d.values[i].balance.key),
    );
    assert(are_counting_rows(d, p, any));
    counting_with_sign(d, p, all, |b: Balance| !b.negative(), |key: i64| key >= -1);
    counting_with_sign(d, p, all, |b: Balance| b.negative(), |key: i64| key < -1);
}

/// Keeping the balances of one sign keeps those rows.
proof fn counting_with_sign(
    d: LedgerData,
    p: Seq<int>,
    all: Seq<Balance>,
    keep: spec_fn(Balance) -> bool,
    sign: spec_fn(i64) -> bool,
)
    requires
        crate::outcomes::positions::lists_positions(
            p,
            d.values.len() as int,
            |i: int| row_counts(d, i),
        ),
        all.len() == p.len(),
        forall|k: int| 0 <= k < p.len() ==> #[trigger] all[k] == d.values[p[k]].balance,
        forall|b: Balance| #[trigger] keep(b) <==> sign(b.key),
    ensures
        are_counting_balances(d, all.filter(keep), sign),
{
    let n = d.values.len() as int;
    let row = |i: int| row_counts(d, i);
    let signed = |i: int| sign(d.values[i].balance.key);
    let q = crate::outcomes::positions::filter_by_position(all, keep);
    let inner = |k: int| keep(all[k]);
    let within = |k: int| signed(p[k]);
    assert forall|k: int| 0 <= k < p.len() implies (inner(k) <==> #[trigger] within(k)) by {
        assert(all[k] == d.values[p[k]].balance);
        assert(keep(all[k]) <==> sign(all[k].key));
    }
    crate::outcomes::positions::same_positions(q, p.len() as int, inner, within);
    crate::outcomes::positions::positions_within(p, n, row, q, signed);
    let r = crate::outcomes::positions::elements_at(p, q);
    crate::outcomes::positions::same_positions(
        r,
        n,
        |i: int| row(i) && signed(i),
        |i: int| row_counts(d, i) && sign(d.values[i].balance.key),
    );
    assert(are_counting_rows(d, r, sign));
    let kept = all.filter(keep);
    assert forall|k: int| 0 <= k < r.len() implies #[trigger] kept[k] == d.values[r[k]].balance by {
        assert(inner(q[k]));
        assert(kept[k] == all[q[k]]);
    }
}

/// As many rows count as there are accounts that are stored, not hidden, not
/// virtual and have a value: each of these accounts has one counting row, and no
/// other account has any.
pub proof fn law_each_account_counts_once(d: LedgerData, p: Seq<int>, id: Seq<char>)
    requires
        d.well_formed(),
        are_counting_rows(d, p, |key: i64| true),
    ensures
        forall|k: int, l: int|
            0 <= k < l < p.len() ==> d.values[#[trigger] p[k]].account_id
                != d.values[#[trigger] p[l]].account_id,
        (exists|k: int| 0 <= k < p.len() && d.values[#[trigger] p[k]].account_id == id) <==> (
        shown_real(d, id) && exists|i: int|
            0 <= i < d.values.len() && (#[trigger] d.values[i]).account_id == id),
{
    let any = |key: i64| true;
    let chosen = |i: int| row_counts(d, i) && any(d.values[i].balance.key);
    assert forall|k: int, l: int| 0 <= k < l < p.len() implies d.values[#[trigger] p[k]].account_id
        != d.values[#[trigger] p[l]].account_id by {
        assert(chosen(p[k]) && chosen(p[l]));
        assert(p[k] < p[l]);
        assert(d.values[p[k]].id < d.values[p[l]].id);
    }
    if exists|k: int| 0 <= k < p.len() && d.values[#[trigger] p[k]].account_id == id {
        let k = choose|k: int| 0 <= k < p.len() && d.values[#[trigger] p[k]].account_id == id;
        assert(chosen(p[k]));
        assert(d.values[p[k]].account_id == id);
    }
    if shown_real(d, id) && exists|i: int|
        0 <= i < d.values.len() && (#[trigger] d.values[i]).account_id == id {
        let i = choose|i: int| 0 <= i < d.values.len() && (#[trigger] d.values[i]).account_id == id;
        let last = highest_row(d, id, i);
        assert(chosen(last));
        let k = choose|k: int| 0 <= k < p.len() && p[k] == last;
        assert(d.values[p[k]].account_id == id);
    }
}

/// An account with a value has one with the highest identifier.
proof fn highest_row(d: LedgerData, id: Seq<char>, i: int) -> (last: int)
    requires
        d.well_formed(),
        0 <= i < d.values.len(),
        d.values[i].account_id == id,
    ensures
        0 <= last < d.values.len(),
        d.values[last].account_id == id,
        highest_of_account(d, last),
    decreases d.values.len() - i,
{
    if exists|j: int| i < j < d.values.len() && (#[trigger] d.values[j]).account_id == id {
        let j = choose|j: int| i < j < d.values.len() && (#[trigger] d.values[j]).account_id == id;
        highest_row(d, id, j)
    } else {
        assert forall|j: int|
            0 <= j < d.values.len() && (#[trigger] d.values[j]).account_id
                == d.values[i].account_id implies d.values[j].id <= d.values[i].id by {
            if j < i {
                assert(d.values[j].id < d.values[i].id);
            }
        }
        i
    }
}

/// One value on the day is a sole value.
pub proof fn one_value_is_sole(d: LedgerData, id: Seq<char>, date: Seq<char>)
    requires
        crate::totals::day_values(d, id, date).len() == 1,
    ensures
        sole_value(d, id, date, crate::totals::day_values(d, id, date)[0].balance),
{
    let here = |r: ValueData| crate::ledger::on_day(r, id, date);
    let p = crate::outcomes::positions::filter_by_position(d.values, here);
    let chosen = |j: int| here(d.values[j]);
    let i = p[0];
    assert(chosen(i));
    assert(row_on(d.values[i], id, date));
    assert forall|j: int| 0 <= j < d.values.len() && row_on(
        #[trigger] d.values[j],
        id,
        date,
    ) implies j == i by {
        assert(chosen(j));
        let k = choose|k: int| 0 <= k < p.len() && p[k] == j;
        assert(k == 0);
    }
}

/// After totals were recomputed, the three totals of the day add up, whatever
/// totals there were before.
pub proof fn law_recomputed_totals_hold<F: Fn(&Vec<Balance>) -> Balance>(
    d: LedgerData,
    sum: F,
    today: Seq<char>,
    after: LedgerData,
)
    requires
        d.recomputed(sum, today, after, None),
    ensures
        totals_hold(after, sum, today),
{
    crate::totals::law_totals_add_up(d, sum, today, after);
    crate::totals::law_recomputing_changes_only_totals(d, sum, today, after, None);
    law_counting_balances(after);
    let total = "__total__"@;
    let assets = "__assets_total__"@;
    let liabilities = "__liabilities_total__"@;
    one_value_is_sole(after, total, today);
    one_value_is_sole(after, assets, today);
    one_value_is_sole(after, liabilities, today);
    let t = crate::totals::day_values(after, total, today)[0].balance;
    let a = crate::totals::day_values(after, assets, today)[0].balance;
    let l = crate::totals::day_values(after, liabilities, today)[0].balance;
    assert(is_sum_of(sum, crate::totals::counted(after), t));
    assert(is_sum_of(sum, crate::totals::assets(after), a));
    assert(is_sum_of(sum, crate::totals::liabilities(after), l));
}

/// Whether the account is the virtual one of this name, as it is first stored.
pub open spec fn is_new_total(account: crate::model::AccountData, id: Seq<char>, name: Seq<char>) -> bool {
    &&& account.id == id
    &&& account.name == name
    &&& account.account_type.len() == 0
    &&& account.institution.len() == 0
    &&& account.currency == "NZD"@
    &&& !account.is_manual
    &&& !account.is_ignored
}

/// Whether the row is the value of the account on the day under the identifier.
pub open spec fn is_row(row: ValueData, id: int, account_id: Seq<char>, date: Seq<char>) -> bool {
    row.id == id && row.account_id == account_id && row.recorded_date == date
}

/// What recomputing leaves of the rows: all but the totals of the day, in their
/// order, followed by the three new totals. Accounts that were there stay, and
/// the virtual ones are there.
pub open spec fn only_totals_changed(d: LedgerData, after: LedgerData, today: Seq<char>) -> bool {
    &&& exists|p: Seq<int>|
        {
            &&& #[trigger] are_other_rows(d, p, today)
            &&& after.values.len() == p.len() + 3
            &&& forall|k: int| 0 <= k < p.len() ==> #[trigger] after.values[k] == d.values[p[k]]
            &&& is_row(
                after.values[p.len() as int],
                d.last_value_id + 1,
                "__total__"@,
                today,
            )
            &&& is_row(
                after.values[p.len() as int + 1],
                d.last_value_id + 2,
                "__assets_total__"@,
                today,
            )
            &&& is_row(
                after.values[p.len() as int + 2],
                d.last_value_id + 3,
                "__liabilities_total__"@,
                today,
            )
        }
    &&& after.last_value_id == d.last_value_id + 3
    &&& accounts_with_totals(d, after)
    &&& after.fetches == d.fetches
    &&& after.last_fetch_id == d.last_fetch_id
    &&& after.settings == d.settings
}

/// Whether the positions are those of the rows other than the totals of the day.
pub open spec fn are_other_rows(d: LedgerData, p: Seq<int>, today: Seq<char>) -> bool {
    crate::outcomes::positions::lists_positions(
        p,
        d.values.len() as int,
        |i: int| !(total_id(d.values[i].account_id) && d.values[i].recorded_date == today),
    )
}

/// Whether the accounts are those that were there, as they were, and the virtual
/// ones.
pub open spec fn accounts_with_totals(d: LedgerData, after: LedgerData) -> bool {
    &&& forall|k: Seq<char>| #[trigger]
        after.accounts.contains_key(k) <==> d.accounts.contains_key(k) || total_id(k)
    &&& forall|k: Seq<char>| #[trigger]
        d.accounts.contains_key(k) ==> after.accounts[k] == d.accounts[k]
    &&& !d.accounts.contains_key("__total__"@) ==> is_new_total(
        after.accounts["__total__"@],
        "__total__"@,
        "Total"@,
    )
    &&& !d.accounts.contains_key("__assets_total__"@) ==> is_new_total(
        after.accounts["__assets_total__"@],
        "__assets_total__"@,
        "Assets Total"@,
    )
    &&& !d.accounts.contains_key("__liabilities_total__"@) ==> is_new_total(
        after.accounts["__liabilities_total__"@],
        "__liabilities_total__"@,
        "Liabilities Total"@,
    )
}

/// The three virtual accounts have different identifiers.
proof fn total_ids_differ()
    ensures
        "__total__"@ != "__assets_total__"@,
        "__total__"@ != "__liabilities_total__"@,
        "__assets_total__"@ != "__liabilities_total__"@,
{
    reveal_strlit("__total__");
    reveal_strlit("__assets_total__");
    reveal_strlit("__liabilities_total__");
    assert("__total__"@.len() == 9 && "__assets_total__"@.len() == 16
        && "__liabilities_total__"@.len() == 21);
}

/// A value that is replaced goes to the end.
proof fn filter_push<A>(s: Seq<A>, x: A, keep: spec_fn(A) -> bool)
    requires
        keep(x),
    ensures
        s.push(x).filter(keep) == s.filter(keep).push(x),
{
    reveal(Seq::filter);
    assert(s.push(x).drop_last() =~= s);
}

/// Recomputing succeeds exactly when identifiers for three values are left, and
/// fails for want of identifiers only.
pub proof fn law_recomputing_needs_three_identifiers<F: Fn(&Vec<Balance>) -> Balance>(
    d: LedgerData,
    sum: F,
    today: Seq<char>,
    after: LedgerData,
    error: Option<LedgerError>,
)
    requires
        d.recomputed(sum, today, after, error),
    ensures
        d.last_value_id <= i64::MAX - 3 ==> error is None,
        d.last_value_id > i64::MAX - 3 ==> error == Some(LedgerError::NoIdLeft),
{
}

/// Recomputing changes the totals of the day, and nothing else: all other rows
/// stay in their order, and so do all accounts that were there.
pub proof fn law_recomputing_changes_these_rows<F: Fn(&Vec<Balance>) -> Balance>(
    d: LedgerData,
    sum: F,
    today: Seq<char>,
    after: LedgerData,
)
    requires
        d.recomputed(sum, today, after, None),
    ensures
        only_totals_changed(d, after, today),
{
    total_ids_differ();
    reveal_strlit("");
    let total = "__total__"@;
    let assets = "__assets_total__"@;
    let liabilities = "__liabilities_total__"@;
    let e = d.with_virtual_accounts();
    let (t, a, l) = choose|t: Balance, a: Balance, l: Balance|
        {
            &&& crate::totals::sums_to(sum, crate::totals::counted(e), t)
            &&& crate::totals::sums_to(sum, crate::totals::assets(e), a)
            &&& crate::totals::sums_to(sum, crate::totals::liabilities(e), l)
            &&& #[trigger] e.with_totals(today, t, a, l) == (after, None::<LedgerError>)
        };
    let first = e.upserted(total, t, today).0;
    let second = first.upserted(assets, a, today).0;
    let f1 = |r: ValueData| !crate::ledger::on_day(r, total, today);
    let f2 = |r: ValueData| !crate::ledger::on_day(r, assets, today);
    let f3 = |r: ValueData| !crate::ledger::on_day(r, liabilities, today);
    let f12 = |r: ValueData| f1(r) && f2(r);
    let other = |r: ValueData| f12(r) && f3(r);
    let rt = first.values.last();
    let ra = second.values.last();
    let rl = after.values.last();
    assert(first.values =~= d.values.filter(f1).push(rt));
    filter_push(d.values.filter(f1), rt, f2);
    crate::filters::filter_twice(d.values, f1, f2, f12);
    assert(second.values =~= d.values.filter(f12).push(rt).push(ra));
    filter_push(d.values.filter(f12).push(rt), ra, f3);
    filter_push(d.values.filter(f12), rt, f3);
    crate::filters::filter_twice(d.values, f12, f3, other);
    let rows = d.values.filter(other);
    assert(after.values =~= rows.push(rt).push(ra).push(rl));
    let p = crate::outcomes::positions::filter_by_position(d.values, other);
    crate::outcomes::positions::same_positions(
        p,
        d.values.len() as int,
        |i: int| other(d.values[i]),
        |i: int| !(total_id(d.values[i].account_id) && d.values[i].recorded_date == today),
    );
    assert(are_other_rows(d, p, today));
    assert forall|k: int| 0 <= k < p.len() implies #[trigger] after.values[k] == d.values[p[k]] by {
        assert(rows[k] == d.values[p[k]]);
    }
}

/// Refreshing the totals after a change recomputes them, as long as identifiers
/// are left: the totals of the day add up, and nothing else changes.
pub proof fn law_refreshed_totals_hold<F: Fn(&Vec<Balance>) -> Balance>(
    d: LedgerData,
    sum: F,
    today: Seq<char>,
    after: LedgerData,
)
    requires
        d.refreshed(sum, today, after),
        d.last_value_id <= i64::MAX - 3,
    ensures
        totals_hold(after, sum, today),
        only_totals_changed(d, after, today),
{
    let e = choose|e: Option<LedgerError>| #[trigger] d.recomputed(sum, today, after, e);
    law_recomputing_needs_three_identifiers(d, sum, today, after, e);
    law_recomputed_totals_hold(d, sum, today, after);
    law_recomputing_changes_these_rows(d, sum, today, after);
}

/// Whether the account has a value.
pub open spec fn some_row_of(d: LedgerData, id: Seq<char>) -> bool {
    exists|i: int| 0 <= i < d.values.len() && (#[trigger] d.values[i]).account_id == id
}

/// Totals are seeded exactly where one of the virtual accounts has no value: then
/// the totals of the day add up, as long as identifiers are left, and otherwise
/// nothing changes.
pub proof fn law_seeding_fills_in_missing_totals<F: Fn(&Vec<Balance>) -> Balance>(
    d: LedgerData,
    sum: F,
    today: Seq<char>,
    after: LedgerData,
)
    requires
        d.seeded(sum, today, after),
    ensures
        some_row_of(d, "__total__"@) && some_row_of(d, "__assets_total__"@) && some_row_of(
            d,
            "__liabilities_total__"@,
        ) ==> after == d,
        !(some_row_of(d, "__total__"@) && some_row_of(d, "__assets_total__"@) && some_row_of(
            d,
            "__liabilities_total__"@,
        )) && d.last_value_id <= i64::MAX - 3 ==> totals_hold(after, sum, today)
            && only_totals_changed(d, after, today),
{
    assert(d.has_value("__total__"@) <==> some_row_of(d, "__total__"@));
    assert(d.has_value("__assets_total__"@) <==> some_row_of(d, "__assets_total__"@));
    assert(d.has_value("__liabilities_total__"@) <==> some_row_of(d, "__liabilities_total__"@));
    if !d.totals_present() && d.last_value_id <= i64::MAX - 3 {
        law_refreshed_totals_hold(d, sum, today, after);
    }
}

/// Replacing the value of an account on a day: all rows but those of that day
/// stay in their order, and the new one follows under the next identifier. It
/// succeeds exactly when an identifier is left, the balance is a number and the
/// account is known.
pub proof fn law_upserting_replaces_the_day(
    d: LedgerData,
    id: Seq<char>,
    balance: Balance,
    date: Seq<char>,
)
    ensures
        ({
            let (after, error) = d.upserted(id, balance, date);
            let usable = -0x7ff0_0000_0000_0001 <= balance.key <= 0x7ff0_0000_0000_0000;
            &&& error is None <==> d.last_value_id < i64::MAX && usable
                && d.accounts.contains_key(id)
            &&& error == Some(LedgerError::NoIdLeft) <==> d.last_value_id == i64::MAX
            &&& error == Some(LedgerError::NotANumber) <==> d.last_value_id < i64::MAX && !usable
            &&& exists|p: Seq<int>|
                {
                    &&& #[trigger] are_rows_off(d, p, id, date)
                    &&& forall|k: int|
                        0 <= k < p.len() ==> #[trigger] after.values[k] == d.values[p[k]]
                    &&& error is Some ==> after.values.len() == p.len()
                    &&& error is None ==> {
                        &&& after.values.len() == p.len() + 1
                        &&& is_row(after.values.last(), d.last_value_id + 1, id, date)
                        &&& after.values.last().balance == balance
                    }
                }
            &&& after.last_value_id == d.last_value_id + if error is None {
                1int
            } else {
                0
            }
            &&& after.accounts == d.accounts
            &&& after.fetches == d.fetches
            &&& after.last_fetch_id == d.last_fetch_id
            &&& after.settings == d.settings
        }),
{
    let keep = |r: ValueData| !crate::ledger::on_day(r, id, date);
    let p = crate::outcomes::positions::filter_by_position(d.values, keep);
    crate::outcomes::positions::same_positions(
        p,
        d.values.len() as int,
        |i: int| keep(d.values[i]),
        |i: int| !row_on(d.values[i], id, date),
    );
    let (after, error) = d.upserted(id, balance, date);
    assert(are_rows_off(d, p, id, date));
    assert forall|k: int| 0 <= k < p.len() implies #[trigger] after.values[k] == d.values[p[k]] by {
        assert(d.values.filter(keep)[k] == d.values[p[k]]);
    }
}

/// Whether the positions are those of the rows that are not of the account on the
/// day.
pub open spec fn are_rows_off(
    d: LedgerData,
    p: Seq<int>,
    id: Seq<char>,
    date: Seq<char>,
) -> bool {
    crate::outcomes::positions::lists_positions(
        p,
        d.values.len() as int,
        |i: int| !row_on(d.values[i], id, date),
    )
}

} // verus!
