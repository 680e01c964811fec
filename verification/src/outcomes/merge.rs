//! What a merge comes to.
use vstd::prelude::*;

use crate::ledger::{LedgerData, LedgerError};
use crate::model::{FetchData, ValueData};

verus! {

/// Whether the account has a value on the day.
pub open spec fn some_row_on(values: Seq<ValueData>, id: Seq<char>, date: Seq<char>) -> bool {
    exists|i: int|
        0 <= i < values.len() && (#[trigger] values[i]).account_id == id
            && values[i].recorded_date == date
}

/// Whether a fetch of the day is logged.
pub open spec fn some_fetch_on(fetches: Seq<FetchData>, day: Seq<char>) -> bool {
    exists|i: int| 0 <= i < fetches.len() && (#[trigger] fetches[i]).fetched_at == day
}

/// Whether the value of the other ledger is to be taken over: the live ledger has
/// none of the account on the day.
pub open spec fn value_is_new(live: LedgerData, other: LedgerData, j: int) -> bool {
    !some_row_on(live.values, other.values[j].account_id, other.values[j].recorded_date)
}

/// Whether the positions are those of the values to be taken over.
pub open spec fn are_new_values(live: LedgerData, other: LedgerData, p: Seq<int>) -> bool {
    crate::outcomes::positions::lists_positions(
        p,
        other.values.len() as int,
        |j: int| value_is_new(live, other, j),
    )
}

/// Whether the positions are those of the fetches to be taken over.
pub open spec fn are_new_fetches(live: LedgerData, other: LedgerData, q: Seq<int>) -> bool {
    crate::outcomes::positions::lists_positions(
        q,
        other.fetches.len() as int,
        |j: int| !some_fetch_on(live.fetches, other.fetches[j].fetched_at),
    )
}

/// Whether the row is a copy of the other, but for the identifier.
pub open spec fn same_value(row: ValueData, copy: ValueData) -> bool {
    row.account_id == copy.account_id && row.recorded_date == copy.recorded_date && row.balance
        == copy.balance
}

/// Whether the accounts are those of both ledgers, the live ones as they were.
pub open spec fn accounts_united(live: LedgerData, other: LedgerData, after: LedgerData) -> bool {
    &&& forall|k: Seq<char>| #[trigger]
        after.accounts.contains_key(k) <==> live.accounts.contains_key(k)
            || other.accounts.contains_key(k)
    &&& forall|k: Seq<char>| #[trigger]
        live.accounts.contains_key(k) ==> after.accounts[k] == live.accounts[k]
    &&& forall|k: Seq<char>| #[trigger]
        other.accounts.contains_key(k) && !live.accounts.contains_key(k) ==> after.accounts[k]
            == other.accounts[k]
}

/// Whether the settings are those of both ledgers, the live ones as they were.
pub open spec fn settings_united(live: LedgerData, other: LedgerData, after: LedgerData) -> bool {
    &&& forall|k: Seq<char>| #[trigger]
        after.settings.contains_key(k) <==> live.settings.contains_key(k)
            || other.settings.contains_key(k)
    &&& forall|k: Seq<char>| #[trigger]
        live.settings.contains_key(k) ==> after.settings[k] == live.settings[k]
    &&& forall|k: Seq<char>| #[trigger]
        other.settings.contains_key(k) && !live.settings.contains_key(k) ==> after.settings[k]
            == other.settings[k]
}

/// Whether the values are the live ones as they were, followed by those at the
/// positions, in the order of the other ledger and under identifiers that grow.
pub open spec fn values_appended(
    live: LedgerData,
    other: LedgerData,
    after: LedgerData,
    p: Seq<int>,
) -> bool {
    let n = live.values.len() as int;
    &&& after.values.len() == n + p.len()
    &&& forall|i: int| 0 <= i < n ==> #[trigger] after.values[i] == live.values[i]
    &&& forall|k: int|
        0 <= k < p.len() ==> same_value(after.values[n + k], other.values[#[trigger] p[k]])
            && after.values[n + k].id == live.last_value_id + 1 + k
    &&& after.last_value_id == live.last_value_id + p.len()
}

/// Whether the log is the live one as it was, followed by the entries at the
/// positions, in the order of the other ledger and under identifiers that grow.
pub open spec fn fetches_appended(
    live: LedgerData,
    other: LedgerData,
    after: LedgerData,
    q: Seq<int>,
) -> bool {
    let n = live.fetches.len() as int;
    &&& after.fetches.len() == n + q.len()
    &&& forall|i: int| 0 <= i < n ==> #[trigger] after.fetches[i] == live.fetches[i]
    &&& forall|k: int|
        0 <= k < q.len() ==> after.fetches[n + k].fetched_at == other.fetches[#[trigger]
        q[k]].fetched_at && after.fetches[n + k].id == live.last_fetch_id + 1 + k
    &&& after.last_fetch_id == live.last_fetch_id + q.len()
}

/// Whether each of the values belongs to an account of one of the ledgers.
pub open spec fn accounts_known(live: LedgerData, other: LedgerData, p: Seq<int>) -> bool {
    forall|k: int|
        0 <= k < p.len() ==> {
            let id = other.values[#[trigger] p[k]].account_id;
            live.accounts.contains_key(id) || other.accounts.contains_key(id)
        }
}

/// What a merge does, whatever comes of it: accounts first, values next, then the
/// log and the settings. It stops before the values when identifiers run out or
/// an account is missing, and before the log when identifiers run out there.
pub proof fn law_merge_outcome(live: LedgerData, other: LedgerData, p: Seq<int>, q: Seq<int>)
    requires
        are_new_values(live, other, p),
        are_new_fetches(live, other, q),
    ensures
        ({
            let (after, error) = live.merged(other);
            let ids = live.last_value_id + p.len() <= i64::MAX;
            let known = accounts_known(live, other, p);
            let fetch_ids = live.last_fetch_id + q.len() <= i64::MAX;
            &&& accounts_united(live, other, after)
            &&& error is None <==> ids && known && fetch_ids
            &&& error == Some(LedgerError::UnknownAccount) <==> ids && !known
            &&& error == Some(LedgerError::NoIdLeft) <==> !ids || known && !fetch_ids
            &&& ids && known ==> values_appended(live, other, after, p)
            &&& !(ids && known) ==> after.values == live.values && after.last_value_id
                == live.last_value_id
            &&& error is None ==> fetches_appended(live, other, after, q) && settings_united(
                live,
                other,
                after,
            )
            &&& error is Some ==> after.fetches == live.fetches && after.last_fetch_id
                == live.last_fetch_id && after.settings == live.settings
        }),
{
    let keep = |r: ValueData| !crate::merge::has_day(live.values, r.account_id, r.recorded_date);
    let keep_fetch = |f: FetchData| !crate::merge::has_fetch(live.fetches, f.fetched_at);
    let p2 = crate::outcomes::positions::filter_by_position(other.values, keep);
    let q2 = crate::outcomes::positions::filter_by_position(other.fetches, keep_fetch);
    let is_new = |j: int| value_is_new(live, other, j);
    let is_new_fetch = |j: int| !some_fetch_on(live.fetches, other.fetches[j].fetched_at);
    assert forall|j: int| 0 <= j < other.values.len() implies (keep(other.values[j]) <==>
        #[trigger] is_new(j)) by {
        same_days(live.values, other.values[j].account_id, other.values[j].recorded_date);
    }
    crate::outcomes::positions::same_positions(
        p2,
        other.values.len() as int,
        |j: int| keep(other.values[j]),
        is_new,
    );
    crate::outcomes::positions::same_positions(
        q2,
        other.fetches.len() as int,
        |j: int| keep_fetch(other.fetches[j]),
        is_new_fetch,
    );
    crate::outcomes::positions::positions_are_unique(p, p2, other.values.len() as int, is_new);
    crate::outcomes::positions::positions_are_unique(
        q,
        q2,
        other.fetches.len() as int,
        is_new_fetch,
    );
    let (after, error) = live.merged(other);
    let rows = crate::merge::fresh_values(live.values, other.values);
    let days = crate::merge::fresh_fetches(live.fetches, other.fetches);
    let a = live.with_accounts_of(other);
    assert(rows == crate::outcomes::positions::elements_at(other.values, p));
    assert(days == crate::outcomes::positions::elements_at(other.fetches, q));
    assert(crate::merge::all_known(a.accounts, rows) <==> accounts_known(live, other, p)) by {
        if crate::merge::all_known(a.accounts, rows) {
            assert forall|k: int| 0 <= k < p.len() implies ({
                let id = other.values[#[trigger] p[k]].account_id;
                live.accounts.contains_key(id) || other.accounts.contains_key(id)
            }) by {
                assert(a.accounts.contains_key(rows[k].account_id));
            }
        }
        if accounts_known(live, other, p) {
            assert forall|k: int| 0 <= k < rows.len() implies a.accounts.contains_key(
                (#[trigger] rows[k]).account_id,
            ) by {
                assert(rows[k] == other.values[p[k]]);
            }
        }
    }
    let n = live.values.len() as int;
    if live.last_value_id + p.len() <= i64::MAX && accounts_known(live, other, p) {
        assert forall|k: int| 0 <= k < p.len() implies same_value(
            after.values[n + k],
            other.values[#[trigger] p[k]],
        ) && after.values[n + k].id == live.last_value_id + 1 + k by {
            assert(rows[k] == other.values[p[k]]);
        }
    }
    if error is None {
        let m = live.fetches.len() as int;
        assert forall|k: int| 0 <= k < q.len() implies after.fetches[m + k].fetched_at
            == other.fetches[#[trigger] q[k]].fetched_at && after.fetches[m + k].id
            == live.last_fetch_id + 1 + k by {
            assert(days[k] == other.fetches[q[k]]);
        }
    }
}

/// The two ways to say that an account has a value on a day agree.
proof fn same_days(values: Seq<ValueData>, id: Seq<char>, date: Seq<char>)
    ensures
        crate::merge::has_day(values, id, date) <==> some_row_on(values, id, date),
{
    if crate::merge::has_day(values, id, date) {
        let i = choose|i: int|
            0 <= i < values.len() && crate::ledger::on_day(#[trigger] values[i], id, date);
        assert(values[i].account_id == id);
    }
    if some_row_on(values, id, date) {
        let i = choose|i: int|
            0 <= i < values.len() && (#[trigger] values[i]).account_id == id
                && values[i].recorded_date == date;
        assert(crate::ledger::on_day(values[i], id, date));
    }
}

/// There are lists of what is to be taken over.
pub proof fn new_rows_listed(live: LedgerData, other: LedgerData) -> (r: (Seq<int>, Seq<int>))
    ensures
        are_new_values(live, other, r.0),
        are_new_fetches(live, other, r.1),
{
    let p = crate::outcomes::positions::choose_positions(
        other.values.len() as int,
        |j: int| value_is_new(live, other, j),
    );
    let q = crate::outcomes::positions::choose_positions(
        other.fetches.len() as int,
        |j: int| !some_fetch_on(live.fetches, other.fetches[j].fetched_at),
    );
    (p, q)
}

/// The values that are taken over keep the order of the copy: of two of them, the
/// one with the lower identifier in the copy has the lower one after the merge,
/// and both come after all that were there.
pub proof fn law_merge_keeps_the_order_of_the_copy(
    live: LedgerData,
    other: LedgerData,
    i: int,
    j: int,
)
    requires
        live.merged(other).1 is None,
        live.well_formed(),
        other.well_formed(),
        0 <= i < other.values.len(),
        0 <= j < other.values.len(),
        value_is_new(live, other, i),
        value_is_new(live, other, j),
        other.values[i].id < other.values[j].id,
    ensures
        exists|x: int, y: int|
            {
                &&& live.values.len() <= x < y < live.merged(other).0.values.len()
                &&& same_value(#[trigger] live.merged(other).0.values[x], other.values[i])
                &&& same_value(#[trigger] live.merged(other).0.values[y], other.values[j])
                &&& live.last_value_id < live.merged(other).0.values[x].id
                &&& live.merged(other).0.values[x].id < live.merged(other).0.values[y].id
            },
{
    let (p, q) = new_rows_listed(live, other);
    law_merge_outcome(live, other, p, q);
    let after = live.merged(other).0;
    let n = live.values.len() as int;
    let is_new = |k: int| value_is_new(live, other, k);
    assert(is_new(i) && is_new(j));
    let k = choose|k: int| 0 <= k < p.len() && p[k] == i;
    let l = choose|l: int| 0 <= l < p.len() && p[l] == j;
    assert(i < j) by {
        if j < i {
            assert(other.values[j].id < other.values[i].id);
        }
    }
    if l < k {
        assert(p[l] < p[k]);
    }
    assert(same_value(after.values[n + k], other.values[p[k]]));
    assert(same_value(after.values[n + l], other.values[p[l]]));
}

/// After a merge the latest value of an account is the copy's latest one that was
/// taken over, if any was, and otherwise the one that it was.
pub proof fn law_latest_value_after_a_merge(live: LedgerData, other: LedgerData, id: Seq<char>)
    requires
        live.merged(other).1 is None,
        live.well_formed(),
        other.well_formed(),
    ensures
        forall|j: int|
            0 <= j < other.values.len() && (#[trigger] other.values[j]).account_id == id
                && value_is_new(live, other, j) && (forall|i: int|
                0 <= i < other.values.len() && (#[trigger] other.values[i]).account_id == id
                    && value_is_new(live, other, i) ==> other.values[i].id <= other.values[j].id)
                ==> exists|y: int|
                0 <= y < live.merged(other).0.values.len() && same_value(
                    #[trigger] live.merged(other).0.values[y],
                    other.values[j],
                ) && crate::outcomes::totals::highest_of_account(live.merged(other).0, y),
        (forall|i: int|
            0 <= i < other.values.len() && (#[trigger] other.values[i]).account_id == id
                ==> !value_is_new(live, other, i)) ==> forall|y: int|
            0 <= y < live.values.len() && (#[trigger] live.values[y]).account_id == id
                && crate::outcomes::totals::highest_of_account(live, y)
                ==> live.merged(other).0.values[y] == live.values[y]
                && crate::outcomes::totals::highest_of_account(live.merged(other).0, y),
{
    let (p, q) = new_rows_listed(live, other);
    law_merge_outcome(live, other, p, q);
    let after = live.merged(other).0;
    let n = live.values.len() as int;
    let is_new = |k: int| value_is_new(live, other, k);
    assert forall|j: int|
        0 <= j < other.values.len() && (#[trigger] other.values[j]).account_id == id
            && value_is_new(live, other, j) && (forall|i: int|
            0 <= i < other.values.len() && (#[trigger] other.values[i]).account_id == id
                && value_is_new(live, other, i) ==> other.values[i].id
                <= other.values[j].id) implies exists|y: int|
        0 <= y < after.values.len() && same_value(#[trigger] after.values[y], other.values[j])
            && crate::outcomes::totals::highest_of_account(after, y) by {
        assert(is_new(j));
        let k = choose|k: int| 0 <= k < p.len() && p[k] == j;
        let y = n + k;
        assert(same_value(after.values[n + k], other.values[p[k]]));
        assert forall|x: int|
            0 <= x < after.values.len() && (#[trigger] after.values[x]).account_id
                == after.values[y].account_id implies after.values[x].id <= after.values[y].id by {
            if x < n {
                assert(after.values[x] == live.values[x]);
            } else {
                let l = x - n;
                assert(same_value(after.values[n + l], other.values[p[l]]));
                assert(is_new(p[l]));
                if l > k {
                    assert(p[k] < p[l]);
                    assert(other.values[p[k]].id < other.values[p[l]].id);
                }
            }
        }
    }
    if forall|i: int|
        0 <= i < other.values.len() && (#[trigger] other.values[i]).account_id == id
            ==> !value_is_new(live, other, i) {
        assert forall|y: int|
            0 <= y < live.values.len() && (#[trigger] live.values[y]).account_id == id
                && crate::outcomes::totals::highest_of_account(live, y) implies after.values[y]
            == live.values[y] && crate::outcomes::totals::highest_of_account(after, y) by {
            assert(after.values[y] == live.values[y]);
            assert forall|x: int|
                0 <= x < after.values.len() && (#[trigger] after.values[x]).account_id
                    == after.values[y].account_id implies after.values[x].id
                <= after.values[y].id by {
                if x < n {
                    assert(after.values[x] == live.values[x]);
                } else {
                    let l = x - n;
                    assert(same_value(after.values[n + l], other.values[p[l]]));
                    assert(is_new(p[l]));
                }
            }
        }
    }
}

/// Merging one copy more is merging it into what the others gave, and merging
/// none changes nothing.
pub proof fn law_copies_are_merged_in_turn(
    live: LedgerData,
    copies: Seq<LedgerData>,
    copy: LedgerData,
)
    ensures
        live.merged_all(Seq::empty()) == live,
        live.merged_all(copies.push(copy)) == live.merged_all(copies).merged(copy).0,
        live.copy_refusal(copies.push(copy), copies.len() as int) == live.merged_all(
            copies,
        ).merged(copy).1,
        forall|i: int|
            0 <= i < copies.len() ==> #[trigger] live.copy_refusal(copies.push(copy), i)
                == live.copy_refusal(copies, i),
{
    assert(copies.push(copy).drop_last() =~= copies);
    assert(copies.push(copy).take(copies.len() as int) =~= copies);
    assert forall|i: int| 0 <= i < copies.len() implies #[trigger] live.copy_refusal(
        copies.push(copy),
        i,
    ) == live.copy_refusal(copies, i) by {
        assert(copies.push(copy).take(i) =~= copies.take(i));
    }
}

} // verus!
