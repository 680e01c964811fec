//! How balances changed over fixed periods.
use vstd::prelude::*;

use crate::balance::Balance;
use crate::dates::lookback_date;
use crate::ledger::Ledger;
use crate::model::{AccountChange, BalanceChange, ValueData};
use crate::text::text_less;

verus! {

/// Whether the row is a value of the account, recorded no later than the limit.
pub open spec fn in_reach(row: ValueData, id: Seq<char>, limit: Option<Seq<char>>) -> bool {
    row.account_id == id && match limit {
        None => true,
        Some(date) => !crate::text::lex_less(date, row.recorded_date),
    }
}

/// Whether the row is the value of the account with the latest day up to the
/// limit, and the one added last on that day.
pub open spec fn is_newest(
    values: Seq<ValueData>,
    id: Seq<char>,
    limit: Option<Seq<char>>,
    row: ValueData,
) -> bool {
    &&& values.contains(row)
    &&& in_reach(row, id, limit)
    &&& forall|j: int|
        0 <= j < values.len() && in_reach(#[trigger] values[j], id, limit) ==> values[j] == row
            || crate::reports::earlier(values[j], row)
}

/// Whether the account has no value up to the limit.
pub open spec fn none_in_reach(
    values: Seq<ValueData>,
    id: Seq<char>,
    limit: Option<Seq<char>>,
) -> bool {
    forall|j: int| 0 <= j < values.len() ==> !in_reach(#[trigger] values[j], id, limit)
}

/// Whether the balance and the day are those of the newest value up to the
/// limit, or both missing because there is no such value.
pub open spec fn shows_newest(
    values: Seq<ValueData>,
    id: Seq<char>,
    limit: Option<Seq<char>>,
    balance: Option<Balance>,
    date: Option<Seq<char>>,
) -> bool {
    match (balance, date) {
        (Some(b), Some(d)) => exists|row: ValueData|
            {
                &&& #[trigger] is_newest(values, id, limit, row)
                &&& row.balance == b
                &&& row.recorded_date == d
            },
        (None, None) => none_in_reach(values, id, limit),
        _ => false,
    }
}

/// The change between two balances, when both are known.
pub open spec fn change_between(current: Option<Balance>, previous: Option<Balance>) -> Option<
    BalanceChange,
> {
    match (current, previous) {
        (Some(c), Some(p)) => Some(BalanceChange { current: c, previous: p }),
        _ => None,
    }
}

/// The change to report as a percentage: none when there was nothing before.
pub open spec fn percent_between(current: Option<Balance>, previous: Option<Balance>) -> Option<
    BalanceChange,
> {
    match change_between(current, previous) {
        Some(c) => if c.previous.zero_amount() {
            None
        } else {
            Some(c)
        },
        None => None,
    }
}

/// Whether `c` reports the change of the account since the day `lookback`, or no
/// earlier balance where there is no such day.
pub open spec fn reports_change(
    values: Seq<ValueData>,
    id: Seq<char>,
    label: Seq<char>,
    lookback: Option<Seq<char>>,
    c: AccountChange,
) -> bool {
    let previous_date = crate::model::text_data(c.previous_date);
    &&& c.period@ == label
    &&& match lookback {
        None => c.previous_balance is None && previous_date is None,
        Some(date) => shows_newest(values, id, Some(date), c.previous_balance, previous_date),
    }
    &&& exists|current: Option<Balance>, date: Option<Seq<char>>|
        {
            &&& #[trigger] shows_newest(values, id, None, current, date)
            &&& c.change_amount == change_between(current, c.previous_balance)
            &&& c.change_percent == percent_between(current, c.previous_balance)
        }
}

/// The order of a history is transitive.
proof fn earlier_transitive(a: ValueData, b: ValueData, c: ValueData)
    requires
        crate::reports::earlier(a, b),
        crate::reports::earlier(b, c),
    ensures
        crate::reports::earlier(a, c),
{
    if crate::text::lex_less(a.recorded_date, b.recorded_date) && crate::text::lex_less(
        b.recorded_date,
        c.recorded_date,
    ) {
        crate::text::lex_less_transitive(a.recorded_date, b.recorded_date, c.recorded_date);
    }
}

impl Ledger {
    /// Where the newest value of the account up to the limit stands.
    fn newest_at(&self, account_id: &str, limit: Option<&str>) -> (r: Option<usize>)
        requires
            self.well_formed(),
        ensures
            ({
                let bound = match limit {
                    None => None,
                    Some(d) => Some(d@),
                };
                match r {
                    Some(i) => i < self.values.len() && is_newest(
                        self@.values,
                        account_id@,
                        bound,
                        self@.values[i as int],
                    ),
                    None => none_in_reach(self@.values, account_id@, bound),
                }
            }),
    {
        let key: String = account_id.to_owned();
        let ghost rows = self@.values;
        let ghost bound: Option<Seq<char>> = match limit {
            None => None,
            Some(d) => Some(d@),
        };
        let mut best: Option<usize> = None;
        let mut i: usize = 0;
        while i < self.values.len()
            invariant
                i <= self.values.len(),
                self.well_formed(),
                key@ == account_id@,
                rows == self@.values,
                rows.len() == self.values.len(),
                bound == (match limit {
                    None => None,
                    Some(d) => Some(d@),
                }),
                match best {
                    None => forall|j: int|
                        0 <= j < i ==> !in_reach(#[trigger] rows[j], account_id@, bound),
                    Some(b) => {
                        &&& b < i
                        &&& in_reach(rows[b as int], account_id@, bound)
                        &&& forall|j: int|
                            0 <= j < i && in_reach(#[trigger] rows[j], account_id@, bound) ==> j
                                == b || crate::reports::earlier(rows[j], rows[b as int])
                    },
                },
            decreases self.values.len() - i,
        {
            assert(rows[i as int] == self.values[i as int]@);
            let reached: bool = self.values[i].account_id == key && match limit {
                None => true,
                Some(d) => !text_less(d, self.values[i].recorded_date.as_str()),
            };
            assert(reached == in_reach(rows[i as int], account_id@, bound));
            if reached {
                let newer: bool = match best {
                    None => true,
                    Some(b) => {
                        assert(rows[b as int] == self.values[b as int]@);
                        !text_less(
                            self.values[i].recorded_date.as_str(),
                            self.values[b].recorded_date.as_str(),
                        )
                    },
                };
                proof {
                    if best is Some {
                        let b = best->0 as int;
                        let x = rows[i as int];
                        crate::text::lex_less_total(x.recorded_date, rows[b].recorded_date);
                        if newer {
                            assert(rows[b].id < x.id);
                            assert(crate::reports::earlier(rows[b], x));
                            assert forall|j: int|
                                0 <= j < i && in_reach(
                                    #[trigger] rows[j],
                                    account_id@,
                                    bound,
                                ) implies crate::reports::earlier(rows[j], x) by {
                                if j != b {
                                    earlier_transitive(rows[j], rows[b], x);
                                }
                            }
                        }
                    }
                }
                if newer {
                    best = Some(i);
                }
            }
            i = i + 1;
        }
        proof {
            if best is Some {
                assert(rows.contains(rows[best->0 as int]));
            }
        }
        best
    }

    /// How the account changed since the day `lookback`.
    pub fn period_change(&self, account_id: &str, label: &str, lookback: Option<String>) -> (r:
        AccountChange)
        requires
            self.well_formed(),
        ensures
            reports_change(
                self@.values,
                account_id@,
                label@,
                crate::model::text_data(lookback),
                r,
            ),
            r.change_percent == if r.previous_balance is Some && r.previous_balance->0.key != 0
                && r.previous_balance->0.key != -1 {
                r.change_amount
            } else {
                None
            },
    {
        let ghost rows = self@.values;
        let ghost mut current_date: Option<Seq<char>> = None;
        let current: Option<Balance> = match self.newest_at(account_id, None) {
            None => None,
            Some(i) => {
                proof {
                    assert(rows[i as int] == self.values[i as int]@);
                    current_date = Some(rows[i as int].recorded_date);
                }
                Some(self.values[i].balance)
            },
        };
        assert(shows_newest(rows, account_id@, None, current, current_date));
        let mut previous_balance: Option<Balance> = None;
        let mut previous_date: Option<String> = None;
        match &lookback {
            None => {},
            Some(date) => {
                match self.newest_at(account_id, Some(date.as_str())) {
                    None => {},
                    Some(i) => {
                        assert(rows[i as int] == self.values[i as int]@);
                        previous_balance = Some(self.values[i].balance);
                        previous_date = Some(self.values[i].recorded_date.clone());
                    },
                }
                assert(shows_newest(
                    rows,
                    account_id@,
                    Some(date@),
                    previous_balance,
                    crate::model::text_data(previous_date),
                ));
            },
        }
        let change: Option<BalanceChange> = match (current, previous_balance) {
            (Some(c), Some(p)) => Some(BalanceChange { current: c, previous: p }),
            _ => None,
        };
        let percent: Option<BalanceChange> = match change {
            Some(c) => if c.previous.is_zero() {
                None
            } else {
                Some(c)
            },
            None => None,
        };
        AccountChange {
            period: label.to_owned(),
            previous_balance,
            previous_date,
            change_amount: change,
            change_percent: percent,
        }
    }

    /// How the account changed over the last 30, 180 and 360 days.
    pub fn get_account_changes(&self, account_id: &str, today: &str) -> (r: Vec<AccountChange>)
        requires
            self.well_formed(),
        ensures
            r@.len() == 3,
            reports_change(
                self@.values,
                account_id@,
                "30d"@,
                crate::dates::lookback_spec(today@, 30),
                r@[0],
            ),
            reports_change(
                self@.values,
                account_id@,
                "180d"@,
                crate::dates::lookback_spec(today@, 180),
                r@[1],
            ),
            reports_change(
                self@.values,
                account_id@,
                "360d"@,
                crate::dates::lookback_spec(today@, 360),
                r@[2],
            ),
    {
        let mut out: Vec<AccountChange> = Vec::new();
        out.push(self.period_change(account_id, "30d", lookback_date(today, 30)));
        out.push(self.period_change(account_id, "180d", lookback_date(today, 180)));
        out.push(self.period_change(account_id, "360d", lookback_date(today, 360)));
        out
    }
}

/// At most one value is the newest one up to a limit, so a report is pinned down
/// by the values.
pub proof fn law_newest_is_unique(
    values: Seq<ValueData>,
    last: i64,
    id: Seq<char>,
    limit: Option<Seq<char>>,
    a: ValueData,
    b: ValueData,
)
    requires
        crate::ledger::values_ordered(values, last),
        is_newest(values, id, limit, a),
        is_newest(values, id, limit, b),
    ensures
        a == b,
{
    let i = choose|i: int| 0 <= i < values.len() && values[i] == a;
    let j = choose|j: int| 0 <= j < values.len() && values[j] == b;
    assert(values[i] == b || crate::reports::earlier(values[i], b));
    assert(values[j] == a || crate::reports::earlier(values[j], a));
    crate::text::lex_less_total(a.recorded_date, b.recorded_date);
}

/// The balance that a change is measured from is missing exactly when the first
/// recorded day lies after the day looked back to, or nothing is recorded.
pub proof fn law_no_earlier_balance_before_first_measurement(
    values: Seq<ValueData>,
    id: Seq<char>,
    label: Seq<char>,
    lookback: Seq<char>,
    c: AccountChange,
)
    requires
        reports_change(values, id, label, Some(lookback), c),
    ensures
        c.previous_balance is None <==> forall|j: int|
            0 <= j < values.len() && (#[trigger] values[j]).account_id == id
                ==> crate::text::lex_less(lookback, values[j].recorded_date),
        c.previous_balance is None ==> c.change_amount is None && c.change_percent is None,
{
    if c.previous_balance is None {
        assert forall|j: int|
            0 <= j < values.len() && (#[trigger] values[j]).account_id
                == id implies crate::text::lex_less(lookback, values[j].recorded_date) by {
            assert(!in_reach(values[j], id, Some(lookback)));
        }
    } else {
        let row = choose|row: ValueData|
            {
                &&& #[trigger] is_newest(values, id, Some(lookback), row)
                &&& row.balance == c.previous_balance->0
                &&& row.recorded_date == crate::model::text_data(c.previous_date)->0
            };
        let j = choose|j: int| 0 <= j < values.len() && values[j] == row;
        assert(values[j].account_id == id);
    }
}

/// A history ends with the newest value: the current balance there is the one
/// that changes are measured to.
pub proof fn law_history_ends_with_the_newest(
    values: Seq<ValueData>,
    id: Seq<char>,
    rows: Seq<ValueData>,
)
    requires
        crate::reports::is_history(values, id, rows),
        rows.len() > 0,
    ensures
        is_newest(values, id, None, rows.last()),
{
    let last = rows[rows.len() - 1];
    assert forall|j: int|
        0 <= j < values.len() && in_reach(#[trigger] values[j], id, None) implies values[j] == last
        || crate::reports::earlier(values[j], last) by {
        assert(rows.contains(values[j]));
        let k = choose|k: int| 0 <= k < rows.len() && rows[k] == values[j];
        if k < rows.len() - 1 {
            assert(crate::reports::earlier(rows[k], last));
        }
    }
}

} // verus!
