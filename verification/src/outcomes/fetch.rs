//! What a fetch comes to.
use vstd::prelude::*;

use crate::akahu::AkahuAccount;
use crate::balance::Balance;
use crate::ledger::{LedgerData, LedgerError};
use crate::model::{AccountData, FetchData, ValueData};

verus! {

/// Whether the account is taken: its currency is NZD, or not told.
pub open spec fn is_taken(a: AkahuAccount) -> bool {
    a.balance is Some && a.balance->0.currency is Some ==> a.balance->0.currency->0@ == "NZD"@
}

/// Whether the account has a balance that is told.
pub open spec fn tells_balance(a: AkahuAccount) -> bool {
    a.balance is Some && a.balance->0.current is Some
}

/// Whether this is the account's balance: the one that is told, or zero.
pub open spec fn has_amount(a: AkahuAccount, b: Balance) -> bool {
    if tells_balance(a) {
        b == a.balance->0.current->0
    } else {
        b.key == 0
    }
}

/// Whether the balance is a number.
pub open spec fn usable(b: Balance) -> bool {
    -0x7ff0_0000_0000_0001 <= b.key <= 0x7ff0_0000_0000_0000
}

/// Whether this is the name of who holds the account.
pub open spec fn held_by(a: AkahuAccount, name: Seq<char>) -> bool {
    let by_institution = a.connection is Some && a.connection->0.institution is Some
        && a.connection->0.institution->0.name is Some;
    let by_connection = a.connection is Some && a.connection->0.name is Some;
    &&& by_institution ==> name == a.connection->0.institution->0.name->0@
    &&& !by_institution && by_connection ==> name == a.connection->0.name->0@
    &&& !by_institution && !by_connection ==> name == "Unknown"@
}

/// Whether the account is stored as Akahu tells it. One that was there keeps its
/// currency, whether it is manual and whether it is hidden; a new one is in NZD,
/// not manual and not hidden.
pub open spec fn stored_as_told(d: LedgerData, a: AkahuAccount, stored: AccountData) -> bool {
    let id = a.id@;
    &&& stored.id == id
    &&& stored.name == a.name@
    &&& a.account_type is Some ==> stored.account_type == a.account_type->0@
    &&& a.account_type is None ==> stored.account_type == "Unknown"@
    &&& held_by(a, stored.institution)
    &&& d.accounts.contains_key(id) ==> {
        &&& stored.currency == d.accounts[id].currency
        &&& stored.is_manual == d.accounts[id].is_manual
        &&& stored.is_ignored == d.accounts[id].is_ignored
    }
    &&& !d.accounts.contains_key(id) ==> {
        &&& stored.currency == "NZD"@
        &&& !stored.is_manual
        &&& !stored.is_ignored
    }
}

/// Whether the account at the position is taken, and its last listing that is.
pub open spec fn is_last_listing(accounts: Seq<AkahuAccount>, i: int) -> bool {
    &&& 0 <= i < accounts.len()
    &&& is_taken(accounts[i])
    &&& forall|j: int|
        i < j < accounts.len() && is_taken(#[trigger] accounts[j]) ==> accounts[j].id@
            != accounts[i].id@
}

/// Whether an account with the identifier is taken.
pub open spec fn takes_id(accounts: Seq<AkahuAccount>, id: Seq<char>) -> bool {
    exists|i: int|
        0 <= i < accounts.len() && is_taken(#[trigger] accounts[i]) && accounts[i].id@ == id
}

/// Whether the row is not one of a taken or virtual account on the day.
pub open spec fn is_untouched(
    accounts: Seq<AkahuAccount>,
    date: Seq<char>,
    row: ValueData,
) -> bool {
    row.recorded_date != date || !(takes_id(accounts, row.account_id)
        || crate::outcomes::totals::total_id(row.account_id))
}

/// The taken accounts are those whose currency is NZD or not told, in their
/// order.
pub proof fn law_nzd_accounts_are_taken(accounts: Seq<AkahuAccount>) -> (p: Seq<int>)
    ensures
        crate::outcomes::positions::lists_positions(
            p,
            accounts.len() as int,
            |i: int| is_taken(accounts[i]),
        ),
        crate::akahu::nzd_accounts(accounts) == crate::outcomes::positions::elements_at(
            accounts,
            p,
        ),
{
    let keep = |a: AkahuAccount| crate::akahu::is_nzd(a);
    let p = crate::outcomes::positions::filter_by_position(accounts, keep);
    crate::outcomes::positions::same_positions(
        p,
        accounts.len() as int,
        |i: int| keep(accounts[i]),
        |i: int| is_taken(accounts[i]),
    );
    p
}

/// What is taken with one account more.
proof fn one_more_taken(accounts: Seq<AkahuAccount>)
    requires
        accounts.len() > 0,
        is_taken(accounts.last()),
    ensures
        forall|id: Seq<char>| #[trigger]
            takes_id(accounts, id) <==> takes_id(accounts.drop_last(), id) || id
                == accounts.last().id@,
{
    let rest = accounts.drop_last();
    let n = accounts.len() - 1;
    assert(accounts[n] == accounts.last());
    assert forall|id: Seq<char>| #[trigger] takes_id(accounts, id) <==> takes_id(rest, id) || id
        == accounts.last().id@ by {
        if takes_id(rest, id) {
            let i = choose|i: int|
                0 <= i < rest.len() && is_taken(#[trigger] rest[i]) && rest[i].id@ == id;
            assert(accounts[i] == rest[i]);
        }
        if takes_id(accounts, id) && id != accounts.last().id@ {
            let i = choose|i: int|
                0 <= i < accounts.len() && is_taken(#[trigger] accounts[i]) && accounts[i].id@
                    == id;
            assert(rest[i] == accounts[i]);
        }
    }
}

/// The accounts but the last are taken too.
proof fn rest_taken(accounts: Seq<AkahuAccount>)
    requires
        forall|i: int| 0 <= i < accounts.len() ==> is_taken(#[trigger] accounts[i]),
        accounts.len() > 0,
    ensures
        forall|i: int|
            0 <= i < accounts.drop_last().len() ==> is_taken(#[trigger] accounts.drop_last()[i]),
        is_taken(accounts.last()),
{
    let rest = accounts.drop_last();
    assert forall|i: int| 0 <= i < rest.len() implies is_taken(#[trigger] rest[i]) by {
        assert(rest[i] == accounts[i]);
    }
    assert(accounts[accounts.len() - 1] == accounts.last());
}

/// Whether every told balance is a number.
pub open spec fn all_usable(accounts: Seq<AkahuAccount>) -> bool {
    forall|i: int|
        0 <= i < accounts.len() && tells_balance(#[trigger] accounts[i]) ==> usable(
            accounts[i].balance->0.current->0,
        )
}

/// When storing the accounts one after the other succeeds, and what it leaves
/// alone.
proof fn fetched_outcome(d: LedgerData, accounts: Seq<AkahuAccount>, date: Seq<char>)
    ensures
        ({
            let (after, error) = d.with_all_fetched(accounts, date);
            &&& error is None <==> d.last_value_id + accounts.len() <= i64::MAX && all_usable(
                accounts,
            )
            &&& error is None ==> after.last_value_id == d.last_value_id + accounts.len()
            &&& after.fetches == d.fetches
            &&& after.last_fetch_id == d.last_fetch_id
            &&& after.settings == d.settings
        }),
    decreases accounts.len(),
{
    if accounts.len() > 0 {
        let rest = accounts.drop_last();
        let n = accounts.len() - 1;
        let last = accounts.last();
        assert(accounts[n] == last);
        fetched_outcome(d, rest, date);
        assert(has_amount(last, crate::akahu::current_balance(last)));
        assert(all_usable(accounts) <==> all_usable(rest) && (tells_balance(last) ==> usable(
            last.balance->0.current->0,
        ))) by {
            if all_usable(accounts) {
                assert forall|i: int| 0 <= i < rest.len() && tells_balance(
                    #[trigger] rest[i],
                ) implies usable(rest[i].balance->0.current->0) by {
                    assert(rest[i] == accounts[i]);
                }
                assert(tells_balance(accounts[n]) ==> usable(accounts[n].balance->0.current->0));
            }
            if all_usable(rest) && (tells_balance(last) ==> usable(last.balance->0.current->0)) {
                assert forall|i: int|
                    0 <= i < accounts.len() && tells_balance(#[trigger] accounts[i]) implies usable(
                    accounts[i].balance->0.current->0,
                ) by {
                    if i < n {
                        assert(rest[i] == accounts[i]);
                    }
                }
            }
        }
    }
}

/// Storing the accounts one after the other leaves the rows of other days and
/// accounts alone.
proof fn fetched_rows(d: LedgerData, accounts: Seq<AkahuAccount>, date: Seq<char>)
    requires
        forall|i: int| 0 <= i < accounts.len() ==> is_taken(#[trigger] accounts[i]),
    ensures
        d.with_all_fetched(accounts, date).0.values.filter(
            |r: ValueData| is_untouched(accounts, date, r),
        ) == d.values.filter(|r: ValueData| is_untouched(accounts, date, r)),
    decreases accounts.len(),
{
    if accounts.len() > 0 {
        let rest = accounts.drop_last();
        let last = accounts.last();
        rest_taken(accounts);
        one_more_taken(accounts);
        fetched_rows(d, rest, date);
        let (mid, e) = d.with_all_fetched(rest, date);
        let (after, error) = d.with_all_fetched(accounts, date);
        let off = |r: ValueData| is_untouched(accounts, date, r);
        let off_rest = |r: ValueData| is_untouched(rest, date, r);
        crate::filters::filter_twice(d.values, off_rest, off, off);
        crate::filters::filter_twice(mid.values, off_rest, off, off);
        assert(mid.values.filter(off) == d.values.filter(off));
        if e is None {
            let keep = |r: ValueData| !crate::ledger::on_day(r, last.id@, date);
            crate::filters::filter_twice(mid.values, keep, off, off);
            if error is None {
                reveal(Seq::filter);
                assert(after.values.drop_last() =~= mid.values.filter(keep));
                assert(!off(after.values.last()));
            }
        }
    }
}

/// Storing the accounts one after the other stores each as told, and leaves the
/// other accounts alone.
proof fn fetched_accounts(d: LedgerData, accounts: Seq<AkahuAccount>, date: Seq<char>)
    requires
        forall|i: int| 0 <= i < accounts.len() ==> is_taken(#[trigger] accounts[i]),
    ensures
        ({
            let (after, error) = d.with_all_fetched(accounts, date);
            &&& error is None ==> forall|i: int|
                is_last_listing(accounts, i) ==> after.accounts.contains_key(
                    (#[trigger] accounts[i]).id@,
                ) && stored_as_told(d, accounts[i], after.accounts[accounts[i].id@])
            &&& forall|id: Seq<char>|
                !takes_id(accounts, id) ==> (#[trigger] after.accounts.contains_key(id)
                    <==> d.accounts.contains_key(id)) && after.accounts[id] == d.accounts[id]
        }),
    decreases accounts.len(),
{
    if accounts.len() > 0 {
        let rest = accounts.drop_last();
        let n = accounts.len() - 1;
        let last = accounts.last();
        assert(accounts[n] == last);
        rest_taken(accounts);
        one_more_taken(accounts);
        fetched_accounts(d, rest, date);
        let (mid, e) = d.with_all_fetched(rest, date);
        let (after, error) = d.with_all_fetched(accounts, date);
        if error is None {
            assert forall|i: int| is_last_listing(accounts, i) implies after.accounts.contains_key(
                (#[trigger] accounts[i]).id@,
            ) && stored_as_told(d, accounts[i], after.accounts[accounts[i].id@]) by {
                if i == n {
                    if takes_id(rest, last.id@) {
                        last_listing_of(rest, last.id@);
                        let k = choose|k: int|
                            is_last_listing(rest, k) && (#[trigger] rest[k]).id@ == last.id@;
                        assert(stored_as_told(d, rest[k], mid.accounts[rest[k].id@]));
                        assert(mid.accounts.contains_key(rest[k].id@));
                    } else {
                        assert(mid.accounts.contains_key(last.id@) <==> d.accounts.contains_key(
                            last.id@,
                        ));
                    }
                } else {
                    assert(accounts[i].id@ != last.id@) by {
                        assert(is_taken(accounts[n]));
                    }
                    assert(rest[i] == accounts[i]);
                    assert(is_last_listing(rest, i)) by {
                        assert forall|j: int|
                            i < j < rest.len() && is_taken(#[trigger] rest[j]) implies rest[j].id@
                            != rest[i].id@ by {
                            assert(accounts[j] == rest[j]);
                        }
                    }
                }
            }
        }
        assert forall|id: Seq<char>| !takes_id(accounts, id) implies (
        #[trigger] after.accounts.contains_key(id) <==> d.accounts.contains_key(id))
            && after.accounts[id] == d.accounts[id] by {
            assert(mid.accounts.contains_key(id) <==> d.accounts.contains_key(id));
        }
    }
}

/// A taken account has a last listing.
proof fn last_listing_of(accounts: Seq<AkahuAccount>, id: Seq<char>)
    requires
        takes_id(accounts, id),
    ensures
        exists|k: int| is_last_listing(accounts, k) && (#[trigger] accounts[k]).id@ == id,
    decreases accounts.len(),
{
    let n = accounts.len() - 1;
    if accounts.len() > 0 {
        if is_taken(accounts[n]) && accounts[n].id@ == id {
            assert(is_last_listing(accounts, n));
        } else {
            let rest = accounts.drop_last();
            let i = choose|i: int|
                0 <= i < accounts.len() && is_taken(#[trigger] accounts[i]) && accounts[i].id@
                    == id;
            assert(rest[i] == accounts[i]);
            last_listing_of(rest, id);
            let k = choose|k: int| is_last_listing(rest, k) && (#[trigger] rest[k]).id@ == id;
            assert(accounts[k] == rest[k]);
            assert forall|j: int|
                k < j < accounts.len() && is_taken(#[trigger] accounts[j]) implies accounts[j].id@
                != accounts[k].id@ by {
                if j < n {
                    assert(rest[j] == accounts[j]);
                }
            }
        }
    }
}

/// The taken accounts say the same of what is taken as all accounts do.
proof fn taken_alike(accounts: Seq<AkahuAccount>, p: Seq<int>)
    requires
        crate::outcomes::positions::lists_positions(
            p,
            accounts.len() as int,
            |i: int| is_taken(accounts[i]),
        ),
    ensures
        ({
            let nzd = crate::outcomes::positions::elements_at(accounts, p);
            &&& forall|k: int| 0 <= k < nzd.len() ==> is_taken(#[trigger] nzd[k])
            &&& forall|id: Seq<char>| #[trigger] takes_id(nzd, id) <==> takes_id(accounts, id)
            &&& forall|i: int|
                is_last_listing(accounts, i) ==> exists|k: int|
                    is_last_listing(nzd, k) && #[trigger] nzd[k] == #[trigger] accounts[i]
        }),
{
    let nzd = crate::outcomes::positions::elements_at(accounts, p);
    let chosen = |i: int| is_taken(accounts[i]);
    assert forall|k: int| 0 <= k < nzd.len() implies is_taken(#[trigger] nzd[k]) by {
        assert(chosen(p[k]));
    }
    assert forall|id: Seq<char>| #[trigger] takes_id(nzd, id) <==> takes_id(accounts, id) by {
        if takes_id(nzd, id) {
            let k = choose|k: int|
                0 <= k < nzd.len() && is_taken(#[trigger] nzd[k]) && nzd[k].id@ == id;
            assert(chosen(p[k]));
            assert(is_taken(accounts[p[k]]));
        }
        if takes_id(accounts, id) {
            let i = choose|i: int|
                0 <= i < accounts.len() && is_taken(#[trigger] accounts[i]) && accounts[i].id@
                    == id;
            assert(chosen(i));
            let k = choose|k: int| 0 <= k < p.len() && p[k] == i;
            assert(nzd[k] == accounts[i]);
        }
    }
    assert forall|i: int| is_last_listing(accounts, i) implies exists|k: int|
        is_last_listing(nzd, k) && #[trigger] nzd[k] == #[trigger] accounts[i] by {
        assert(chosen(i));
        let k = choose|k: int| 0 <= k < p.len() && p[k] == i;
        assert(nzd[k] == accounts[i]);
        assert forall|l: int| k < l < nzd.len() && is_taken(#[trigger] nzd[l]) implies nzd[l].id@
            != nzd[k].id@ by {
            assert(p[k] < p[l]);
            assert(chosen(p[l]));
            assert(is_taken(accounts[p[l]]));
        }
        assert(is_last_listing(nzd, k));
    }
}

/// Whether the account is stored as told, and has the told balance as its only
/// value on the day.
pub open spec fn is_fetched(
    d: LedgerData,
    after: LedgerData,
    a: AkahuAccount,
    date: Seq<char>,
) -> bool {
    &&& after.accounts.contains_key(a.id@)
    &&& stored_as_told(d, a, after.accounts[a.id@])
    &&& exists|b: Balance|
        has_amount(a, b) && #[trigger] crate::outcomes::totals::sole_value(after, a.id@, date, b)
}

/// A fetch that went through has stored every NZD account as Akahu tells it, with
/// its balance as the only value on the day. The totals of the day add up for the
/// balances as they are then, whatever totals there were before. The day is in
/// the log once. Accounts that were not taken, the rows of other days, and the
/// settings are as they were.
pub proof fn law_fetch_outcome<F: Fn(&Vec<Balance>) -> Balance>(
    d: LedgerData,
    sum: F,
    accounts: Seq<AkahuAccount>,
    date: Seq<char>,
    after: LedgerData,
)
    requires
        d.fetch_stored(sum, accounts, date, after, None),
    ensures
        forall|i: int|
            is_last_listing(accounts, i) && !crate::outcomes::totals::total_id(
                (#[trigger] accounts[i]).id@,
            ) ==> is_fetched(d, after, accounts[i], date),
        crate::outcomes::totals::totals_hold(after, sum, date),
        forall|id: Seq<char>|
            !takes_id(accounts, id) ==> (#[trigger] after.accounts.contains_key(id)
                <==> d.accounts.contains_key(id) || crate::outcomes::totals::total_id(id)) && (
            d.accounts.contains_key(id) ==> after.accounts[id] == d.accounts[id]),
        after.values.filter(|r: ValueData| is_untouched(accounts, date, r)) == d.values.filter(
            |r: ValueData| is_untouched(accounts, date, r),
        ),
        after.fetches == d.fetches.filter(|f: FetchData| f.fetched_at != date).push(
            (FetchData { id: (d.last_fetch_id + 1) as i64, fetched_at: date }),
        ),
        after.last_fetch_id == d.last_fetch_id + 1,
        after.settings == d.settings,
{
    let p = law_nzd_accounts_are_taken(accounts);
    taken_alike(accounts, p);
    let nzd = crate::akahu::nzd_accounts(accounts);
    fetched_accounts(d, nzd, date);
    fetched_rows(d, nzd, date);
    fetched_outcome(d, nzd, date);
    let saved = d.with_all_fetched(nzd, date);
    let (totalled, e) = choose|totalled: LedgerData, e: Option<LedgerError>|
        {
            &&& #[trigger] saved.0.recomputed(sum, date, totalled, e)
            &&& if e is Some {
                (after, None::<LedgerError>) == (totalled, e)
            } else {
                (after, None::<LedgerError>) == totalled.with_logged(date)
            }
        };
    crate::outcomes::totals::law_recomputed_totals_hold(saved.0, sum, date, totalled);
    crate::outcomes::totals::law_recomputing_changes_these_rows(saved.0, sum, date, totalled);
    same_values_same_totals(totalled, after, sum, date);
    // Accounts and their balances.
    assert forall|i: int|
        is_last_listing(accounts, i) && !crate::outcomes::totals::total_id(
            (#[trigger] accounts[i]).id@,
        ) implies is_fetched(d, after, accounts[i], date) by {
        let k = choose|k: int| is_last_listing(nzd, k) && #[trigger] nzd[k] == accounts[i];
        let a = nzd[k];
        assert(stored_as_told(d, nzd[k], saved.0.accounts[nzd[k].id@]));
        assert(!crate::akahu::lists(nzd.skip(k + 1), a.id@)) by {
            if crate::akahu::lists(nzd.skip(k + 1), a.id@) {
                let j = choose|j: int|
                    0 <= j < nzd.skip(k + 1).len() && (#[trigger] nzd.skip(k + 1)[j]).id@ == a.id@;
                assert(nzd[k + 1 + j] == nzd.skip(k + 1)[j]);
                assert(is_taken(nzd[k + 1 + j]));
            }
        }
        crate::akahu::law_fetch_stores_each_balance_once(d, nzd, date, k, a.id@, date);
        crate::totals::law_one_total_per_day(saved.0, sum, date, totalled, a.id@, date);
        crate::outcomes::totals::one_value_is_sole(after, a.id@, date);
        let b = crate::akahu::current_balance(a);
        assert(has_amount(a, b));
        assert(crate::outcomes::totals::sole_value(after, a.id@, date, b));
        assert(saved.0.accounts.contains_key(a.id@));
    }
    assert forall|id: Seq<char>| !takes_id(accounts, id) implies (
    #[trigger] after.accounts.contains_key(id) <==> d.accounts.contains_key(id)
        || crate::outcomes::totals::total_id(id)) && (d.accounts.contains_key(id)
        ==> after.accounts[id] == d.accounts[id]) by {
        assert(!takes_id(nzd, id));
        assert(saved.0.accounts.contains_key(id) <==> d.accounts.contains_key(id));
    }
    // Rows.
    let off = |r: ValueData| is_untouched(accounts, date, r);
    let off_nzd = |r: ValueData| is_untouched(nzd, date, r);
    crate::filters::filter_agree(d.values, off, off_nzd);
    crate::filters::filter_agree(saved.0.values, off, off_nzd);
    crate::totals::law_recomputing_changes_only_totals(saved.0, sum, date, totalled, None);
    let other = |r: ValueData|
        !(crate::totals::is_virtual(r.account_id) && r.recorded_date == date);
    crate::filters::filter_twice(saved.0.values, other, off, off);
    crate::filters::filter_twice(totalled.values, other, off, off);
}

/// Totals are about accounts and values only.
proof fn same_values_same_totals<F: Fn(&Vec<Balance>) -> Balance>(
    d: LedgerData,
    e: LedgerData,
    sum: F,
    date: Seq<char>,
)
    requires
        crate::outcomes::totals::totals_hold(d, sum, date),
        d.values == e.values,
        d.accounts == e.accounts,
    ensures
        crate::outcomes::totals::totals_hold(e, sum, date),
{
    same_values_same_sum(d, e, sum, "__total__"@, date, |key: i64| true);
    same_values_same_sum(d, e, sum, "__assets_total__"@, date, |key: i64| key >= -1);
    same_values_same_sum(d, e, sum, "__liabilities_total__"@, date, |key: i64| key < -1);
}

proof fn same_values_same_sum<F: Fn(&Vec<Balance>) -> Balance>(
    d: LedgerData,
    e: LedgerData,
    sum: F,
    id: Seq<char>,
    date: Seq<char>,
    sign: spec_fn(i64) -> bool,
)
    requires
        crate::outcomes::totals::holds_sum(d, sum, id, date, sign),
        d.values == e.values,
        d.accounts == e.accounts,
    ensures
        crate::outcomes::totals::holds_sum(e, sum, id, date, sign),
{
    let (balances, amount) = choose|balances: Seq<Balance>, amount: Balance|
        {
            &&& #[trigger] crate::outcomes::totals::are_counting_balances(d, balances, sign)
            &&& #[trigger] crate::outcomes::totals::is_sum_of(sum, balances, amount)
            &&& crate::outcomes::totals::sole_value(d, id, date, amount)
        };
    let p = choose|p: Seq<int>|
        {
            &&& #[trigger] crate::outcomes::totals::are_counting_rows(d, p, sign)
            &&& balances.len() == p.len()
            &&& forall|k: int|
                0 <= k < p.len() ==> #[trigger] balances[k] == d.values[p[k]].balance
        };
    crate::outcomes::positions::same_positions(
        p,
        d.values.len() as int,
        |i: int| crate::outcomes::totals::row_counts(d, i) && sign(d.values[i].balance.key),
        |i: int| crate::outcomes::totals::row_counts(e, i) && sign(e.values[i].balance.key),
    );
    assert(crate::outcomes::totals::are_counting_rows(e, p, sign));
    assert(crate::outcomes::totals::are_counting_balances(e, balances, sign));
    assert(crate::outcomes::totals::sole_value(e, id, date, amount));
}

/// A fetch goes through exactly when identifiers for its values, for the three
/// totals and for its log entry are left, and every told balance is a number.
pub proof fn law_when_a_fetch_goes_through<F: Fn(&Vec<Balance>) -> Balance>(
    d: LedgerData,
    sum: F,
    accounts: Seq<AkahuAccount>,
    date: Seq<char>,
    after: LedgerData,
    error: Option<LedgerError>,
    p: Seq<int>,
)
    requires
        d.fetch_stored(sum, accounts, date, after, error),
        crate::outcomes::positions::lists_positions(
            p,
            accounts.len() as int,
            |i: int| is_taken(accounts[i]),
        ),
    ensures
        error is None <==> {
            &&& d.last_value_id + p.len() + 3 <= i64::MAX
            &&& d.last_fetch_id < i64::MAX
            &&& forall|i: int|
                0 <= i < accounts.len() && is_taken(#[trigger] accounts[i]) && tells_balance(
                    accounts[i],
                ) ==> usable(accounts[i].balance->0.current->0)
        },
{
    let q = law_nzd_accounts_are_taken(accounts);
    crate::outcomes::positions::positions_are_unique(
        p,
        q,
        accounts.len() as int,
        |i: int| is_taken(accounts[i]),
    );
    taken_alike(accounts, p);
    let nzd = crate::akahu::nzd_accounts(accounts);
    let chosen = |i: int| is_taken(accounts[i]);
    fetched_outcome(d, nzd, date);
    let saved = d.with_all_fetched(nzd, date);
    assert((forall|k: int|
        0 <= k < nzd.len() && tells_balance(#[trigger] nzd[k]) ==> usable(
            nzd[k].balance->0.current->0,
        )) <==> (forall|i: int|
        0 <= i < accounts.len() && is_taken(#[trigger] accounts[i]) && tells_balance(accounts[i])
            ==> usable(accounts[i].balance->0.current->0))) by {
        if forall|k: int|
            0 <= k < nzd.len() && tells_balance(#[trigger] nzd[k]) ==> usable(
                nzd[k].balance->0.current->0,
            ) {
            assert forall|i: int|
                0 <= i < accounts.len() && is_taken(#[trigger] accounts[i]) && tells_balance(
                    accounts[i],
                ) implies usable(accounts[i].balance->0.current->0) by {
                assert(chosen(i));
                let k = choose|k: int| 0 <= k < p.len() && p[k] == i;
                assert(nzd[k] == accounts[i]);
            }
        }
        if forall|i: int|
            0 <= i < accounts.len() && is_taken(#[trigger] accounts[i]) && tells_balance(
                accounts[i],
            ) ==> usable(accounts[i].balance->0.current->0) {
            assert forall|k: int| 0 <= k < nzd.len() && tells_balance(#[trigger] nzd[k]) implies usable(
                nzd[k].balance->0.current->0,
            ) by {
                assert(chosen(p[k]));
                assert(is_taken(accounts[p[k]]));
            }
        }
    }
    if saved.1 is None {
        let (totalled, e) = choose|totalled: LedgerData, e: Option<LedgerError>|
            {
                &&& #[trigger] saved.0.recomputed(sum, date, totalled, e)
                &&& if e is Some {
                    (after, error) == (totalled, e)
                } else {
                    (after, error) == totalled.with_logged(date)
                }
            };
        crate::outcomes::totals::law_recomputing_needs_three_identifiers(
            saved.0,
            sum,
            date,
            totalled,
            e,
        );
        if e is None {
            crate::outcomes::totals::law_recomputing_changes_these_rows(
                saved.0,
                sum,
                date,
                totalled,
            );
        }
    }
}

} // verus!
