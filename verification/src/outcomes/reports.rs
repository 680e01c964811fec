//! What reports show.
use vstd::prelude::*;

use crate::balance::Balance;
use crate::ledger::LedgerData;
use crate::model::{AccountChange, AccountData, AccountSummary, BalanceChange, ValueData};
use crate::reports::Listing;

verus! {

/// Whether `a` comes before `b` by code points: at the first place where they
/// differ it has the lower one, or it ends there.
pub open spec fn precedes(a: Seq<char>, b: Seq<char>) -> bool {
    exists|i: int| #[trigger] differs_at(a, b, i)
}

/// Whether the texts agree up to the place, and `a` is the lower one there.
pub open spec fn differs_at(a: Seq<char>, b: Seq<char>, i: int) -> bool {
    &&& 0 <= i <= a.len()
    &&& i < b.len()
    &&& forall|j: int| 0 <= j < i ==> #[trigger] a[j] == b[j]
    &&& i < a.len() ==> (a[i] as u32) < (b[i] as u32)
}

/// Texts are compared by their code points.
pub proof fn law_texts_are_compared_by_code_points(a: Seq<char>, b: Seq<char>)
    ensures
        crate::text::lex_less(a, b) <==> precedes(a, b),
    decreases a.len(),
{
    if b.len() == 0 {
    } else if a.len() == 0 {
        assert(differs_at(a, b, 0));
    } else if a[0] != b[0] {
        if (a[0] as u32) < (b[0] as u32) {
            assert(differs_at(a, b, 0));
        }
        if precedes(a, b) {
            let i = choose|i: int| #[trigger] differs_at(a, b, i);
            if i > 0 {
                assert(a[0] == b[0]);
            }
        }
    } else {
        let x = a.drop_first();
        let y = b.drop_first();
        law_texts_are_compared_by_code_points(x, y);
        if precedes(x, y) {
            let i = choose|i: int| #[trigger] differs_at(x, y, i);
            assert forall|j: int| 0 <= j < i + 1 implies #[trigger] a[j] == b[j] by {
                if j > 0 {
                    assert(x[j - 1] == y[j - 1]);
                }
            }
            assert(differs_at(a, b, i + 1));
        }
        if precedes(a, b) {
            let i = choose|i: int| #[trigger] differs_at(a, b, i);
            assert(i > 0);
            assert forall|j: int| 0 <= j < i - 1 implies #[trigger] x[j] == y[j] by {
                assert(a[j + 1] == b[j + 1]);
            }
            assert(differs_at(x, y, i - 1));
        }
    }
}

/// The group of an account on the dashboard: the totals first, one after the
/// other.
pub open spec fn dashboard_group(a: AccountData) -> int {
    if a.id == "__total__"@ {
        0
    } else if a.id == "__assets_total__"@ {
        1
    } else if a.id == "__liabilities_total__"@ {
        2
    } else {
        3
    }
}

/// The group of an account in the configuration: manual accounts last.
pub open spec fn config_group(a: AccountData) -> int {
    if a.is_manual {
        1
    } else {
        0
    }
}

/// Whether `a` has to stand before `b`: by group, then institution, then name.
pub open spec fn stands_before(
    a: AccountData,
    b: AccountData,
    group: spec_fn(AccountData) -> int,
) -> bool {
    ||| group(a) < group(b)
    ||| group(a) == group(b) && precedes(a.institution, b.institution)
    ||| group(a) == group(b) && a.institution == b.institution && precedes(a.name, b.name)
}

/// Whether the account is one of those listed.
pub open spec fn is_listed(rows: Seq<AccountData>, id: Seq<char>) -> bool {
    exists|i: int| 0 <= i < rows.len() && (#[trigger] rows[i]).id == id
}

/// Whether the rows are stored accounts as they are stored, each once, and stand
/// in order.
pub open spec fn is_ordered_list(
    accounts: Map<Seq<char>, AccountData>,
    rows: Seq<AccountData>,
    group: spec_fn(AccountData) -> int,
) -> bool {
    &&& forall|i: int|
        0 <= i < rows.len() ==> accounts.contains_key((#[trigger] rows[i]).id)
            && accounts[rows[i].id] == rows[i]
    &&& forall|i: int, j: int|
        0 <= i < j < rows.len() ==> (#[trigger] rows[i]).id != (#[trigger] rows[j]).id
            && !stands_before(rows[j], rows[i], group)
}

/// The dashboard shows an account if and only if it is stored and not hidden,
/// manual or not, and stands in order.
pub proof fn law_dashboard_shows_every_visible_account(
    accounts: Map<Seq<char>, AccountData>,
    rows: Seq<AccountData>,
)
    requires
        crate::ledger::filed_by_id(accounts),
        Listing::Dashboard.lists(accounts, rows),
    ensures
        forall|id: Seq<char>| #[trigger]
            is_listed(rows, id) <==> accounts.contains_key(id) && !accounts[id].is_ignored,
        is_ordered_list(accounts, rows, |a: AccountData| dashboard_group(a)),
{
    let group = |a: AccountData| dashboard_group(a);
    assert forall|id: Seq<char>| #[trigger] is_listed(rows, id) <==> accounts.contains_key(id)
        && !accounts[id].is_ignored by {
        if accounts.contains_key(id) && !accounts[id].is_ignored {
            assert(Listing::Dashboard.includes(accounts[id]));
            assert(rows.contains(accounts[id]));
            let i = choose|i: int| 0 <= i < rows.len() && rows[i] == accounts[id];
            assert(rows[i].id == id);
        }
    }
    assert forall|i: int, j: int| 0 <= i < j < rows.len() implies (#[trigger] rows[i]).id != (
    #[trigger] rows[j]).id && !stands_before(rows[j], rows[i], group) by {
        assert(!Listing::Dashboard.before(rows[j], rows[i]));
        law_texts_are_compared_by_code_points(rows[j].institution, rows[i].institution);
        law_texts_are_compared_by_code_points(rows[j].name, rows[i].name);
    }
}

/// The configuration shows an account if and only if it is stored and not
/// virtual, hidden or not, and stands in order.
pub proof fn law_configuration_shows_every_real_account(
    accounts: Map<Seq<char>, AccountData>,
    rows: Seq<AccountData>,
)
    requires
        crate::ledger::filed_by_id(accounts),
        Listing::Config.lists(accounts, rows),
    ensures
        forall|id: Seq<char>| #[trigger]
            is_listed(rows, id) <==> accounts.contains_key(id)
                && !crate::outcomes::totals::total_id(id),
        is_ordered_list(accounts, rows, |a: AccountData| config_group(a)),
{
    let group = |a: AccountData| config_group(a);
    assert forall|id: Seq<char>| #[trigger] is_listed(rows, id) <==> accounts.contains_key(id)
        && !crate::outcomes::totals::total_id(id) by {
        if accounts.contains_key(id) && !crate::outcomes::totals::total_id(id) {
            assert(Listing::Config.includes(accounts[id]));
            assert(rows.contains(accounts[id]));
            let i = choose|i: int| 0 <= i < rows.len() && rows[i] == accounts[id];
            assert(rows[i].id == id);
        }
        if is_listed(rows, id) {
            let i = choose|i: int| 0 <= i < rows.len() && (#[trigger] rows[i]).id == id;
            assert(Listing::Config.includes(rows[i]));
        }
    }
    assert forall|i: int, j: int| 0 <= i < j < rows.len() implies (#[trigger] rows[i]).id != (
    #[trigger] rows[j]).id && !stands_before(rows[j], rows[i], group) by {
        assert(!Listing::Config.before(rows[j], rows[i]));
        law_texts_are_compared_by_code_points(rows[j].institution, rows[i].institution);
        law_texts_are_compared_by_code_points(rows[j].name, rows[i].name);
    }
}

/// A summary shows the balance and the day of the account's row with the highest
/// identifier, and the highest balance of all its rows. Without rows it shows
/// neither.
pub proof fn law_summary_shows_the_last_row_and_the_highest(d: LedgerData, s: AccountSummary)
    requires
        d.well_formed(),
        d.summarised_by(s),
    ensures
        forall|i: int|
            0 <= i < d.values.len() && (#[trigger] d.values[i]).account_id == s.account.id@
                && crate::outcomes::totals::highest_of_account(d, i) ==> {
                &&& s.latest_balance == Some(d.values[i].balance)
                &&& s.latest_date is Some && s.latest_date->0@ == d.values[i].recorded_date
            },
        forall|i: int|
            0 <= i < d.values.len() && (#[trigger] d.values[i]).account_id == s.account.id@
                ==> s.max_balance is Some && d.values[i].balance.key <= s.max_balance->0.key,
        s.max_balance is Some ==> exists|i: int|
            0 <= i < d.values.len() && (#[trigger] d.values[i]).account_id == s.account.id@
                && d.values[i].balance == s.max_balance->0,
        !crate::outcomes::totals::some_row_of(d, s.account.id@) ==> s.latest_balance is None
            && s.latest_date is None && s.max_balance is None,
{
    assert forall|i: int|
        0 <= i < d.values.len() && (#[trigger] d.values[i]).account_id == s.account.id@
            && crate::outcomes::totals::highest_of_account(d, i) implies ({
        &&& s.latest_balance == Some(d.values[i].balance)
        &&& s.latest_date is Some && s.latest_date->0@ == d.values[i].recorded_date
    }) by {
        let row = choose|row: ValueData|
            {
                &&& #[trigger] d.is_last_of(row, s.account.id@)
                &&& row.balance == s.latest_balance->0
                &&& row.recorded_date == s.latest_date->0@
            };
        assert(!crate::reports::no_values(d.values, s.account.id@));
        let j = choose|j: int| 0 <= j < d.values.len() && d.values[j] == row;
        assert(d.values[j].id <= d.values[i].id);
        assert(d.values[i].id <= d.values[j].id);
        if i < j {
            assert(d.values[i].id < d.values[j].id);
        } else if j < i {
            assert(d.values[j].id < d.values[i].id);
        }
    }
    if !crate::outcomes::totals::some_row_of(d, s.account.id@) {
        if s.latest_balance is Some {
            let row = choose|row: ValueData|
                {
                    &&& #[trigger] d.is_last_of(row, s.account.id@)
                    &&& row.balance == s.latest_balance->0
                    &&& row.recorded_date == s.latest_date->0@
                };
            let j = choose|j: int| 0 <= j < d.values.len() && d.values[j] == row;
            assert(d.values[j].account_id == s.account.id@);
        }
    }
}

/// Whether `a` stands before `b` in a history: by day, and by identifier within a
/// day.
pub open spec fn is_earlier(a: ValueData, b: ValueData) -> bool {
    precedes(a.recorded_date, b.recorded_date) || a.recorded_date == b.recorded_date && a.id < b.id
}

/// A history has each row of its account once and no other, by day, and within a
/// day by identifier.
pub proof fn law_history_has_every_row(
    values: Seq<ValueData>,
    id: Seq<char>,
    rows: Seq<ValueData>,
)
    requires
        crate::reports::is_history(values, id, rows),
    ensures
        forall|v: ValueData| #[trigger]
            rows.contains(v) <==> values.contains(v) && v.account_id == id,
        forall|i: int, j: int|
            0 <= i < j < rows.len() ==> is_earlier(#[trigger] rows[i], #[trigger] rows[j])
                && rows[i] != rows[j],
{
    assert forall|v: ValueData| #[trigger] rows.contains(v) <==> values.contains(v)
        && v.account_id == id by {
        if values.contains(v) && v.account_id == id {
            let j = choose|j: int| 0 <= j < values.len() && values[j] == v;
            assert(rows.contains(values[j]));
        }
        if rows.contains(v) {
            let i = choose|i: int| 0 <= i < rows.len() && rows[i] == v;
            assert(values.contains(rows[i]));
        }
    }
    assert forall|i: int, j: int| 0 <= i < j < rows.len() implies is_earlier(
        #[trigger] rows[i],
        #[trigger] rows[j],
    ) && rows[i] != rows[j] by {
        assert(crate::reports::earlier(rows[i], rows[j]));
        law_texts_are_compared_by_code_points(rows[i].recorded_date, rows[j].recorded_date);
        crate::text::lex_less_total(rows[i].recorded_date, rows[j].recorded_date);
    }
}

/// The extremes of a history are balances of it that no other passes, and only
/// finite ones are shown.
pub proof fn law_extremes_are_not_passed(rows: Seq<ValueData>, m: Balance)
    ensures
        crate::reports::is_lowest_in(rows, m) <==> (exists|i: int|
            0 <= i < rows.len() && (#[trigger] rows[i]).balance == m) && (forall|i: int|
            0 <= i < rows.len() ==> (#[trigger] rows[i]).balance.key >= m.key),
        crate::reports::is_highest_in(rows, m) <==> (exists|i: int|
            0 <= i < rows.len() && (#[trigger] rows[i]).balance == m) && (forall|i: int|
            0 <= i < rows.len() ==> (#[trigger] rows[i]).balance.key <= m.key),
        m.finite() <==> -0x7ff0_0000_0000_0001 < m.key < 0x7ff0_0000_0000_0000,
{
}

/// Whether the row is one of the account, no later than the limit if there is
/// one.
pub open spec fn is_within(
    values: Seq<ValueData>,
    id: Seq<char>,
    limit: Option<Seq<char>>,
    i: int,
) -> bool {
    &&& 0 <= i < values.len()
    &&& values[i].account_id == id
    &&& limit is Some ==> !precedes(limit->0, values[i].recorded_date)
}

/// Whether the row is the latest one of the account within the limit: by day, and
/// by identifier within a day.
pub open spec fn is_latest_within(
    values: Seq<ValueData>,
    id: Seq<char>,
    limit: Option<Seq<char>>,
    i: int,
) -> bool {
    &&& is_within(values, id, limit, i)
    &&& forall|j: int| #[trigger]
        is_within(values, id, limit, j) && j != i ==> is_earlier(values[j], values[i])
}

/// Whether the balance is that of the account's latest row within the limit, or
/// missing because there is no such row.
pub open spec fn shows_latest(
    values: Seq<ValueData>,
    id: Seq<char>,
    limit: Option<Seq<char>>,
    balance: Option<Balance>,
) -> bool {
    match balance {
        Some(b) => exists|i: int| #[trigger]
            is_latest_within(values, id, limit, i) && values[i].balance == b,
        None => forall|i: int| !#[trigger] is_within(values, id, limit, i),
    }
}

/// What shows the newest value shows the latest row.
proof fn newest_is_latest(
    values: Seq<ValueData>,
    last: i64,
    id: Seq<char>,
    limit: Option<Seq<char>>,
    balance: Option<Balance>,
    date: Option<Seq<char>>,
)
    requires
        crate::ledger::values_ordered(values, last),
        crate::changes::shows_newest(values, id, limit, balance, date),
    ensures
        shows_latest(values, id, limit, balance),
        balance is Some ==> exists|i: int| #[trigger]
            is_latest_within(values, id, limit, i) && values[i].balance == balance->0
                && Some(values[i].recorded_date) == date,
        balance is None ==> date is None,
{
    assert forall|j: int| 0 <= j < values.len() implies (crate::changes::in_reach(
        #[trigger] values[j],
        id,
        limit,
    ) <==> is_within(values, id, limit, j)) by {
        if limit is Some {
            law_texts_are_compared_by_code_points(limit->0, values[j].recorded_date);
        }
    }
    if balance is Some {
        let row = choose|row: ValueData|
            {
                &&& #[trigger] crate::changes::is_newest(values, id, limit, row)
                &&& row.balance == balance->0
                &&& row.recorded_date == date->0
            };
        let i = choose|i: int| 0 <= i < values.len() && values[i] == row;
        assert(is_within(values, id, limit, i));
        assert forall|j: int| #[trigger] is_within(values, id, limit, j) && j
            != i implies is_earlier(values[j], values[i]) by {
            assert(crate::changes::in_reach(values[j], id, limit));
            if j < i {
                assert(values[j].id < values[i].id);
            } else {
                assert(values[i].id < values[j].id);
            }
            assert(crate::reports::earlier(values[j], row));
            law_texts_are_compared_by_code_points(values[j].recorded_date, row.recorded_date);
        }
        assert(is_latest_within(values, id, limit, i));
    } else {
        assert forall|i: int| !#[trigger] is_within(values, id, limit, i) by {
            if is_within(values, id, limit, i) {
                assert(crate::changes::in_reach(values[i], id, limit));
            }
        }
    }
}

/// There is one latest row.
proof fn one_latest(
    values: Seq<ValueData>,
    last: i64,
    id: Seq<char>,
    limit: Option<Seq<char>>,
    i: int,
    j: int,
)
    requires
        crate::ledger::values_ordered(values, last),
        is_latest_within(values, id, limit, i),
        is_latest_within(values, id, limit, j),
    ensures
        i == j,
{
    if i != j {
        assert(is_within(values, id, limit, i) && is_within(values, id, limit, j));
        let a = values[i].recorded_date;
        let b = values[j].recorded_date;
        law_texts_are_compared_by_code_points(a, b);
        law_texts_are_compared_by_code_points(b, a);
        crate::text::lex_less_total(a, b);
    }
}

/// A change is measured from the latest row that is no later than the day looked
/// back to, to the latest row of all. The amount is there when both are. The
/// percentage is there when the amount is and the earlier balance is not zero,
/// whatever its sign, and is of the same two balances.
pub proof fn law_change_outcome(
    values: Seq<ValueData>,
    last: i64,
    id: Seq<char>,
    label: Seq<char>,
    lookback: Option<Seq<char>>,
    c: AccountChange,
)
    requires
        crate::ledger::values_ordered(values, last),
        crate::changes::reports_change(values, id, label, lookback, c),
    ensures
        c.period@ == label,
        lookback is None ==> c.previous_balance is None && c.previous_date is None,
        lookback is Some ==> shows_latest(values, id, lookback, c.previous_balance),
        c.previous_balance is Some <==> c.previous_date is Some,
        forall|i: int| #[trigger]
            is_latest_within(values, id, lookback, i) && lookback is Some
                ==> c.previous_date is Some && c.previous_date->0@ == values[i].recorded_date,
        c.change_amount is Some <==> c.previous_balance is Some,
        forall|i: int| #[trigger]
            is_latest_within(values, id, None, i) && c.previous_balance is Some
                ==> c.change_amount == Some(
                (BalanceChange { current: values[i].balance, previous: c.previous_balance->0 }),
            ),
        c.change_amount is None ==> c.change_percent is None,
        c.change_amount is Some ==> {
            let zero = c.previous_balance->0.key == 0 || c.previous_balance->0.key == -1;
            &&& zero ==> c.change_percent is None
            &&& !zero ==> c.change_percent == c.change_amount
        },
{
    let previous_date = crate::model::text_data(c.previous_date);
    let (current, date) = choose|current: Option<Balance>, date: Option<Seq<char>>|
        {
            &&& #[trigger] crate::changes::shows_newest(values, id, None, current, date)
            &&& c.change_amount == crate::changes::change_between(current, c.previous_balance)
            &&& c.change_percent == crate::changes::percent_between(current, c.previous_balance)
        };
    newest_is_latest(values, last, id, None, current, date);
    if lookback is Some {
        newest_is_latest(values, last, id, lookback, c.previous_balance, previous_date);
        assert forall|i: int| #[trigger] is_latest_within(
            values,
            id,
            lookback,
            i,
        ) implies c.previous_date is Some && c.previous_date->0@ == values[i].recorded_date by {
            assert(is_within(values, id, lookback, i));
            let j = choose|j: int| #[trigger]
                is_latest_within(values, id, lookback, j) && values[j].balance
                    == c.previous_balance->0 && Some(values[j].recorded_date) == previous_date;
            one_latest(values, last, id, lookback, i, j);
        }
    }
    if c.previous_balance is Some {
        let j = choose|j: int| #[trigger]
            is_latest_within(values, id, lookback, j) && values[j].balance == c.previous_balance->0;
        assert(is_within(values, id, lookback, j));
        assert(is_within(values, id, None, j));
        assert(current is Some);
        assert forall|i: int| #[trigger]
            is_latest_within(values, id, None, i) implies c.change_amount == Some(
            (BalanceChange { current: values[i].balance, previous: c.previous_balance->0 }),
        ) by {
            let k = choose|k: int| #[trigger]
                is_latest_within(values, id, None, k) && values[k].balance == current->0;
            one_latest(values, last, id, None, i, k);
        }
    }
}

} // verus!
