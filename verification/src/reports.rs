//! What is shown of the ledger: account lists, histories and changes.
use vstd::prelude::*;

use crate::balance::Balance;
use crate::ledger::{Ledger, LedgerData, LedgerError};
use crate::model::{
    Account, AccountData, AccountHistory, AccountSummary, AccountValue,
    ValueData,
};
use crate::text::text_less;

verus! {

/// The two lists of accounts.
#[derive(Debug, Clone, Copy, PartialEq, Eq, Structural)]
pub enum Listing {
    /// Every account that is not hidden: virtual totals first.
    Dashboard,
    /// Every account that is not virtual: fetched accounts first.
    Config,
}

impl Listing {
    /// Whether the account is on the list.
    pub open spec fn includes(self, a: AccountData) -> bool {
        match self {
            Listing::Dashboard => !a.is_ignored,
            Listing::Config => !crate::totals::is_virtual(a.id),
        }
    }

    /// The group in which the account is listed.
    pub open spec fn rank(self, a: AccountData) -> int {
        match self {
            Listing::Dashboard => if a.id == crate::totals::TOTAL_ID@ {
                0
            } else if a.id == crate::totals::ASSETS_ID@ {
                1
            } else if a.id == crate::totals::LIABILITIES_ID@ {
                2
            } else {
                3
            },
            Listing::Config => if a.is_manual {
                1
            } else {
                0
            },
        }
    }

    /// Whether `a` has to be listed before `b`: by group, institution and name.
    pub open spec fn before(self, a: AccountData, b: AccountData) -> bool {
        ||| self.rank(a) < self.rank(b)
        ||| self.rank(a) == self.rank(b) && crate::text::lex_less(a.institution, b.institution)
        ||| self.rank(a) == self.rank(b) && a.institution == b.institution
            && crate::text::lex_less(a.name, b.name)
    }

    /// Whether `rows` are exactly the accounts on the list, each once and in
    /// order.
    pub open spec fn lists(
        self,
        accounts: Map<Seq<char>, AccountData>,
        rows: Seq<AccountData>,
    ) -> bool {
        &&& forall|i: int|
            0 <= i < rows.len() ==> accounts.contains_key((#[trigger] rows[i]).id)
                && accounts[rows[i].id] == rows[i] && self.includes(rows[i])
        &&& forall|k: Seq<char>| #[trigger]
            accounts.contains_key(k) && self.includes(accounts[k]) ==> rows.contains(accounts[k])
        &&& forall|i: int, j: int|
            0 <= i < j < rows.len() ==> (#[trigger] rows[i]).id != (#[trigger] rows[j]).id
        &&& forall|i: int, j: int|
            0 <= i < j < rows.len() ==> !self.before(#[trigger] rows[j], #[trigger] rows[i])
    }

    proof fn before_is_transitive(self, a: AccountData, b: AccountData, c: AccountData)
        requires
            self.before(a, b),
            self.before(b, c),
        ensures
            self.before(a, c),
    {
        if crate::text::lex_less(a.institution, b.institution) && crate::text::lex_less(
            b.institution,
            c.institution,
        ) {
            crate::text::lex_less_transitive(a.institution, b.institution, c.institution);
        }
        if crate::text::lex_less(a.name, b.name) && crate::text::lex_less(b.name, c.name) {
            crate::text::lex_less_transitive(a.name, b.name, c.name);
        }
    }

    fn rank_of(self, a: &Account) -> (r: u8)
        ensures
            r == self.rank(a@),
    {
        match self {
            Listing::Dashboard => if a.id == crate::totals::TOTAL_ID.to_owned() {
                0
            } else if a.id == crate::totals::ASSETS_ID.to_owned() {
                1
            } else if a.id == crate::totals::LIABILITIES_ID.to_owned() {
                2
            } else {
                3
            },
            Listing::Config => if a.is_manual {
                1
            } else {
                0
            },
        }
    }

    fn is_before(self, a: &Account, b: &Account) -> (r: bool)
        ensures
            r == self.before(a@, b@),
    {
        let x: u8 = self.rank_of(a);
        let y: u8 = self.rank_of(b);
        if x != y {
            x < y
        } else if a.institution == b.institution {
            proof {
                crate::text::lex_less_total(a.institution@, b.institution@);
            }
            text_less(a.name.as_str(), b.name.as_str())
        } else {
            text_less(a.institution.as_str(), b.institution.as_str())
        }
    }

    fn is_included(self, a: &Account) -> (r: bool)
        ensures
            r == self.includes(a@),
    {
        match self {
            Listing::Dashboard => !a.is_ignored,
            Listing::Config => !crate::totals::is_virtual_id(&a.id),
        }
    }
}

/// What the accounts hold.
pub open spec fn account_rows(rows: Seq<Account>) -> Seq<AccountData> {
    rows.map_values(|a: Account| a@)
}

/// Whether no two neighbours, near or far, are in the wrong order.
pub open spec fn sorted_for(listing: Listing, rows: Seq<AccountData>) -> bool {
    forall|i: int, j: int|
        0 <= i < j < rows.len() ==> !listing.before(#[trigger] rows[j], #[trigger] rows[i])
}

/// Puts an account into its place in an ordered list.
fn insert_account(out: &mut Vec<Account>, account: Account, listing: Listing) -> (at: usize)
    requires
        sorted_for(listing, account_rows(old(out)@)),
    ensures
        at <= old(out)@.len(),
        final(out)@ == old(out)@.insert(at as int, account),
        sorted_for(listing, account_rows(final(out)@)),
{
    let ghost rows = account_rows(out@);
    let ghost x = account@;
    let mut at: usize = 0;
    while at < out.len() && !listing.is_before(&account, &out[at])
        invariant
            at <= out.len(),
            x == account@,
            rows == account_rows(out@),
            rows.len() == out.len(),
            *out == *old(out),
            forall|k: int| 0 <= k < at ==> !listing.before(x, #[trigger] rows[k]),
        decreases out.len() - at,
    {
        at = at + 1;
    }
    proof {
        let next = rows.insert(at as int, x);
        assert forall|i: int, j: int| 0 <= i < j < next.len() implies !listing.before(
            #[trigger] next[j],
            #[trigger] next[i],
        ) by {
            if i < at && j == at {
                assert(next[i] == rows[i]);
            } else if i == at && j > at {
                assert(next[j] == rows[j - 1]);
                if listing.before(rows[j - 1], x) {
                    assert(listing.before(x, rows[at as int]));
                    listing.before_is_transitive(rows[j - 1], x, rows[at as int]);
                    if j - 1 == at {
                        crate::text::lex_less_total(x.institution, x.institution);
                        crate::text::lex_less_total(
                            rows[at as int].institution,
                            rows[at as int].institution,
                        );
                        crate::text::lex_less_total(rows[at as int].name, rows[at as int].name);
                    }
                }
            } else if i < at && j > at {
                assert(next[i] == rows[i] && next[j] == rows[j - 1]);
            } else if j < at {
                assert(next[i] == rows[i] && next[j] == rows[j]);
            } else {
                assert(next[i] == rows[i - 1] && next[j] == rows[j - 1]);
            }
        }
    }
    out.insert(at, account);
    assert(account_rows(out@) =~= rows.insert(at as int, x));
    at
}

impl Ledger {
    /// The accounts on a list, in order.
    fn listed(&self, listing: Listing) -> (r: Vec<Account>)
        requires
            self.well_formed(),
        ensures
            listing.lists(self@.accounts, account_rows(r@)),
    {
        proof {
            self.lemma_contents();
        }
        let mut out: Vec<Account> = Vec::new();
        let mut i: usize = 0;
        let ghost entries = crate::ledger::account_entries(self.accounts@);
        while i < self.accounts.len()
            invariant
                i <= self.accounts.len(),
                self.well_formed(),
                entries == crate::ledger::account_entries(self.accounts@),
                sorted_for(listing, account_rows(out@)),
                forall|k: int|
                    0 <= k < out.len() ==> exists|j: int|
                        0 <= j < i && #[trigger] self.accounts[j] == #[trigger] out@[k],
                forall|k: int| 0 <= k < out.len() ==> listing.includes((#[trigger] out@[k])@),
                forall|j: int|
                    0 <= j < i && listing.includes((#[trigger] self.accounts[j])@)
                        ==> out@.contains(self.accounts[j]),
                forall|k: int, m: int|
                    0 <= k < m < out.len() ==> (#[trigger] out@[k]).id@ != (#[trigger] out@[m]).id@,
            decreases self.accounts.len() - i,
        {
            if listing.is_included(&self.accounts[i]) {
                let ghost before = out@;
                let account: Account = self.accounts[i].duplicate();
                let at: usize = insert_account(&mut out, account, listing);
                proof {
                    let x = self.accounts[i as int];
                    assert forall|k: int| 0 <= k < out.len() implies exists|j: int|
                        0 <= j < i + 1 && #[trigger] self.accounts[j] == #[trigger] out@[k] by {
                        if k == at {
                            assert(self.accounts[i as int] == out@[k]);
                        } else {
                            let old_k = if k < at {
                                k
                            } else {
                                k - 1
                            };
                            assert(out@[k] == before[old_k]);
                            let j = choose|j: int|
                                0 <= j < i && #[trigger] self.accounts[j] == before[old_k];
                            assert(self.accounts[j] == out@[k]);
                        }
                    }
                    assert forall|k: int| 0 <= k < out.len() implies listing.includes(
                        (#[trigger] out@[k])@,
                    ) by {
                        if k < at {
                            assert(out@[k] == before[k]);
                        } else if k > at {
                            assert(out@[k] == before[k - 1]);
                        }
                    }
                    assert forall|j: int|
                        0 <= j < i + 1 && listing.includes(
                            (#[trigger] self.accounts[j])@,
                        ) implies out@.contains(self.accounts[j]) by {
                        if j == i {
                            assert(out@[at as int] == self.accounts[j]);
                        } else {
                            let k = choose|k: int|
                                0 <= k < before.len() && before[k] == self.accounts[j];
                            if k < at {
                                assert(out@[k] == self.accounts[j]);
                            } else {
                                assert(out@[k + 1] == self.accounts[j]);
                            }
                        }
                    }
                    assert forall|k: int| 0 <= k < before.len() implies (#[trigger] before[k]).id@
                        != x.id@ by {
                        let j = choose|j: int|
                            0 <= j < i && #[trigger] self.accounts[j] == before[k];
                        assert(entries[j].0 != entries[i as int].0);
                    }
                    assert forall|k: int, m: int| 0 <= k < m < out.len() implies (
                    #[trigger] out@[k]).id@ != (#[trigger] out@[m]).id@ by {
                        let old_k = if k < at {
                            k
                        } else {
                            k - 1
                        };
                        let old_m = if m < at {
                            m
                        } else {
                            m - 1
                        };
                        if k == at {
                            assert(out@[m] == before[old_m]);
                        } else if m == at {
                            assert(out@[k] == before[old_k]);
                        } else {
                            assert(out@[k] == before[old_k] && out@[m] == before[old_m]);
                        }
                    }
                }
            }
            i = i + 1;
        }
        proof {
            let rows = account_rows(out@);
            assert forall|k: int| 0 <= k < rows.len() implies self@.accounts.contains_key(
                (#[trigger] rows[k]).id,
            ) && self@.accounts[rows[k].id] == rows[k] && listing.includes(rows[k]) by {
                let j = choose|j: int|
                    0 <= j < self.accounts.len() && #[trigger] self.accounts[j] == out@[k];
                assert(self@.accounts.contains_key(self.accounts[j].id@));
                assert(rows[k] == out@[k]@);
            }
            assert forall|k: Seq<char>| #[trigger]
                self@.accounts.contains_key(k) && listing.includes(
                    self@.accounts[k],
                ) implies rows.contains(self@.accounts[k]) by {
                let j = choose|j: int|
                    0 <= j < self.accounts.len() && (#[trigger] self.accounts[j]).id@ == k;
                assert(self@.accounts[k] == self.accounts[j]@);
                assert(out@.contains(self.accounts[j]));
                let m = choose|m: int| 0 <= m < out.len() && out@[m] == self.accounts[j];
                assert(rows[m] == self.accounts[j]@);
            }
            assert forall|k: int, m: int| 0 <= k < m < rows.len() implies (#[trigger] rows[k]).id
                != (#[trigger] rows[m]).id by {
                assert(rows[k] == out@[k]@ && rows[m] == out@[m]@);
            }
        }
        out
    }

    /// Every account that is not virtual, fetched accounts before manual ones.
    pub fn get_all_accounts_config(&self) -> (r: Vec<Account>)
        requires
            self.well_formed(),
        ensures
            Listing::Config.lists(self@.accounts, account_rows(r@)),
    {
        self.listed(Listing::Config)
    }
}

/// Whether the account has no values.
pub open spec fn no_values(values: Seq<ValueData>, id: Seq<char>) -> bool {
    forall|i: int| 0 <= i < values.len() ==> (#[trigger] values[i]).account_id != id
}

/// Whether `m` is the highest balance that the account ever had, `None` standing
/// for an account without values.
pub open spec fn is_highest(values: Seq<ValueData>, id: Seq<char>, m: Option<Balance>) -> bool {
    match m {
        None => no_values(values, id),
        Some(b) => {
            &&& exists|i: int|
                0 <= i < values.len() && (#[trigger] values[i]).account_id == id
                    && values[i].balance == b
            &&& forall|i: int|
                0 <= i < values.len() && (#[trigger] values[i]).account_id == id
                    ==> values[i].balance.key <= b.key
        },
    }
}

impl LedgerData {
    /// Whether the summary shows the last added value of its account and the
    /// highest balance of the account.
    pub open spec fn summarised_by(self, s: AccountSummary) -> bool {
        &&& match (s.latest_balance, s.latest_date) {
            (Some(b), Some(date)) => exists|row: ValueData|
                {
                    &&& #[trigger] self.is_last_of(row, s.account.id@)
                    &&& row.balance == b
                    &&& row.recorded_date == date@
                },
            (None, None) => no_values(self.values, s.account.id@),
            _ => false,
        }
        &&& is_highest(self.values, s.account.id@, s.max_balance)
    }
}

/// The accounts that summaries are of.
pub open spec fn summary_accounts(rows: Seq<AccountSummary>) -> Seq<AccountData> {
    rows.map_values(|s: AccountSummary| s.account@)
}

/// Whether `a` comes before `b` in a history: by day, and by order of addition
/// within a day.
pub open spec fn earlier(a: ValueData, b: ValueData) -> bool {
    ||| crate::text::lex_less(a.recorded_date, b.recorded_date)
    ||| a.recorded_date == b.recorded_date && a.id < b.id
}

/// Whether `rows` are exactly the values of the account, in the order of their
/// days.
pub open spec fn is_history(values: Seq<ValueData>, id: Seq<char>, rows: Seq<ValueData>) -> bool {
    &&& forall|i: int|
        0 <= i < rows.len() ==> values.contains(#[trigger] rows[i]) && rows[i].account_id == id
    &&& forall|j: int|
        0 <= j < values.len() && (#[trigger] values[j]).account_id == id ==> rows.contains(
            values[j],
        )
    &&& forall|i: int, j: int|
        0 <= i < j < rows.len() ==> earlier(#[trigger] rows[i], #[trigger] rows[j])
}

/// Whether `m` is the lowest balance of the rows.
pub open spec fn is_lowest_in(rows: Seq<ValueData>, m: Balance) -> bool {
    &&& exists|i: int| 0 <= i < rows.len() && (#[trigger] rows[i]).balance == m
    &&& forall|i: int| 0 <= i < rows.len() ==> m.key <= (#[trigger] rows[i]).balance.key
}

/// Whether `m` is the highest balance of the rows.
pub open spec fn is_highest_in(rows: Seq<ValueData>, m: Balance) -> bool {
    &&& exists|i: int| 0 <= i < rows.len() && (#[trigger] rows[i]).balance == m
    &&& forall|i: int| 0 <= i < rows.len() ==> (#[trigger] rows[i]).balance.key <= m.key
}

/// Puts a value into its place in a history.
fn insert_value_by_day(out: &mut Vec<AccountValue>, value: AccountValue) -> (at: usize)
    requires
        forall|i: int, j: int|
            0 <= i < j < old(out)@.len() ==> earlier(
                (#[trigger] old(out)@[i])@,
                (#[trigger] old(out)@[j])@,
            ),
        forall|i: int| 0 <= i < old(out)@.len() ==> (#[trigger] old(out)@[i]).id < value.id,
    ensures
        at <= old(out)@.len(),
        final(out)@ == old(out)@.insert(at as int, value),
        forall|i: int, j: int|
            0 <= i < j < final(out)@.len() ==> earlier(
                (#[trigger] final(out)@[i])@,
                (#[trigger] final(out)@[j])@,
            ),
{
    let ghost before = out@;
    let mut at: usize = 0;
    while at < out.len() && !text_less(
        value.recorded_date.as_str(),
        out[at].recorded_date.as_str(),
    )
        invariant
            at <= out.len(),
            out@ == before,
            forall|k: int|
                0 <= k < at ==> !crate::text::lex_less(
                    value.recorded_date@,
                    (#[trigger] before[k]).recorded_date@,
                ),
        decreases out.len() - at,
    {
        at = at + 1;
    }
    let ghost x = value;
    out.insert(at, value);
    proof {
        assert forall|i: int, j: int| 0 <= i < j < out@.len() implies earlier(
            (#[trigger] out@[i])@,
            (#[trigger] out@[j])@,
        ) by {
            if i < at && j == at {
                assert(out@[i] == before[i]);
                crate::text::lex_less_total(before[i].recorded_date@, x.recorded_date@);
            } else if i == at && j > at {
                assert(out@[j] == before[j - 1]);
                let d = before[at as int].recorded_date@;
                assert(crate::text::lex_less(x.recorded_date@, d));
                if j - 1 > at {
                    assert(earlier(before[at as int]@, before[j - 1]@));
                    if crate::text::lex_less(d, before[j - 1].recorded_date@) {
                        crate::text::lex_less_transitive(
                            x.recorded_date@,
                            d,
                            before[j - 1].recorded_date@,
                        );
                    }
                }
            } else if i < at && j > at {
                assert(out@[i] == before[i] && out@[j] == before[j - 1]);
            } else if j < at {
                assert(out@[i] == before[i] && out@[j] == before[j]);
            } else {
                assert(out@[i] == before[i - 1] && out@[j] == before[j - 1]);
            }
        }
    }
    at
}

impl Ledger {
    /// The highest balance that the account ever had.
    fn highest_balance(&self, id: &String) -> (r: Option<Balance>)
        ensures
            is_highest(self@.values, id@, r),
    {
        let ghost rows = self@.values;
        let mut best: Option<Balance> = None;
        let mut i: usize = 0;
        assert(rows.take(0) =~= Seq::<ValueData>::empty());
        while i < self.values.len()
            invariant
                i <= self.values.len(),
                rows == self@.values,
                rows.len() == self.values.len(),
                is_highest(rows.take(i as int), id@, best),
            decreases self.values.len() - i,
        {
            let ghost now = rows.take(i as int);
            let ghost next = rows.take(i + 1);
            assert(next[i as int] == self.values[i as int]@);
            assert forall|j: int| 0 <= j < i implies #[trigger] next[j] == now[j] by {}
            if self.values[i].account_id == *id {
                let b: Balance = self.values[i].balance;
                let higher: bool = match best {
                    None => true,
                    Some(m) => m.key < b.key,
                };
                if higher {
                    proof {
                        assert(next[i as int].balance == b);
                        assert forall|j: int|
                            0 <= j < next.len() && (#[trigger] next[j]).account_id
                                == id@ implies next[j].balance.key <= b.key by {
                            if j < i {
                                assert(next[j] == now[j]);
                            }
                        }
                    }
                    best = Some(b);
                } else {
                    proof {
                        let m = best->0;
                        let j = choose|j: int|
                            0 <= j < now.len() && (#[trigger] now[j]).account_id == id@
                                && now[j].balance == m;
                        assert(next[j].balance == m);
                        assert forall|k: int|
                            0 <= k < next.len() && (#[trigger] next[k]).account_id
                                == id@ implies next[k].balance.key <= m.key by {
                            if k < i {
                                assert(next[k] == now[k]);
                            }
                        }
                    }
                }
            } else {
                proof {
                    if best is Some {
                        let m = best->0;
                        let j = choose|j: int|
                            0 <= j < now.len() && (#[trigger] now[j]).account_id == id@
                                && now[j].balance == m;
                        assert(next[j].balance == m);
                    }
                    assert forall|k: int|
                        0 <= k < next.len() && (#[trigger] next[k]).account_id == id@ implies k < i
                        && next[k] == now[k] by {}
                }
            }
            i = i + 1;
        }
        assert(rows.take(rows.len() as int) =~= rows);
        best
    }

    /// Every account that is not hidden, virtual totals first, with its last
    /// added value and its highest balance.
    pub fn get_accounts_summary(&self) -> (r: Vec<AccountSummary>)
        requires
            self.well_formed(),
        ensures
            Listing::Dashboard.lists(self@.accounts, summary_accounts(r@)),
            forall|i: int| 0 <= i < r@.len() ==> self@.summarised_by(#[trigger] r@[i]),
            forall|id: Seq<char>| #[trigger]
                crate::outcomes::reports::is_listed(summary_accounts(r@), id)
                    <==> self@.accounts.contains_key(id) && !self@.accounts[id].is_ignored,
    {
        let accounts: Vec<Account> = self.listed(Listing::Dashboard);
        let mut out: Vec<AccountSummary> = Vec::new();
        let mut i: usize = 0;
        while i < accounts.len()
            invariant
                i <= accounts.len(),
                self.well_formed(),
                out@.len() == i,
                forall|k: int| 0 <= k < i ==> (#[trigger] out@[k]).account == accounts@[k],
                forall|k: int| 0 <= k < i ==> self@.summarised_by(#[trigger] out@[k]),
            decreases accounts.len() - i,
        {
            let account: Account = accounts[i].duplicate();
            let max_balance: Option<Balance> = self.highest_balance(&account.id);
            let ghost id = account.id@;
            let mut summary = AccountSummary {
                account,
                latest_balance: None,
                latest_date: None,
                max_balance,
            };
            match self.last_value_at(summary.account.id.as_str()) {
                Some(at) => {
                    let date: String = self.values[at].recorded_date.clone();
                    summary.latest_balance = Some(self.values[at].balance);
                    summary.latest_date = Some(date);
                    proof {
                        let row = self@.values[at as int];
                        assert(row == self.values[at as int]@);
                        assert(self@.is_last_of(row, summary.account.id@));
                        assert(row.balance == summary.latest_balance->0);
                        assert(row.recorded_date == summary.latest_date->0@);
                    }
                    assert(self@.summarised_by(summary));
                },
                None => {
                    assert(no_values(self@.values, id));
                    assert(self@.summarised_by(summary));
                },
            }
            out.push(summary);
            i = i + 1;
        }
        assert(summary_accounts(out@) =~= account_rows(accounts@));
        proof {
            self.lemma_contents();
            crate::outcomes::reports::law_dashboard_shows_every_visible_account(
                self@.accounts,
                summary_accounts(out@),
            );
        }
        out
    }

    /// The values of the account in the order of their days.
    fn values_by_day(&self, id: &str) -> (r: Vec<AccountValue>)
        requires
            self.well_formed(),
        ensures
            is_history(self@.values, id@, crate::ledger::value_rows(r@)),
    {
        let key: String = id.to_owned();
        let ghost rows = self@.values;
        let mut out: Vec<AccountValue> = Vec::new();
        let mut i: usize = 0;
        while i < self.values.len()
            invariant
                i <= self.values.len(),
                self.well_formed(),
                key@ == id@,
                rows == self@.values,
                rows.len() == self.values.len(),
                forall|k: int|
                    0 <= k < out@.len() ==> exists|j: int|
                        0 <= j < i && #[trigger] self.values[j] == #[trigger] out@[k],
                forall|k: int| 0 <= k < out@.len() ==> (#[trigger] out@[k]).account_id@ == id@,
                forall|j: int|
                    0 <= j < i && (#[trigger] self.values[j]).account_id@ == id@ ==> out@.contains(
                        self.values[j],
                    ),
                forall|k: int, m: int|
                    0 <= k < m < out@.len() ==> earlier(
                        (#[trigger] out@[k])@,
                        (#[trigger] out@[m])@,
                    ),
            decreases self.values.len() - i,
        {
            if self.values[i].account_id == key {
                let ghost before = out@;
                let value: AccountValue = self.values[i].duplicate();
                proof {
                    assert forall|k: int| 0 <= k < before.len() implies (#[trigger] before[k]).id
                        < value.id by {
                        let j = choose|j: int|
                            0 <= j < i && #[trigger] self.values[j] == before[k];
                        assert(rows[j].id < rows[i as int].id);
                    }
                }
                let at: usize = insert_value_by_day(&mut out, value);
                proof {
                    assert forall|k: int| 0 <= k < out@.len() implies exists|j: int|
                        0 <= j < i + 1 && #[trigger] self.values[j] == #[trigger] out@[k] by {
                        if k == at {
                            assert(self.values[i as int] == out@[k]);
                        } else {
                            let old_k = if k < at {
                                k
                            } else {
                                k - 1
                            };
                            assert(out@[k] == before[old_k]);
                            let j = choose|j: int|
                                0 <= j < i && #[trigger] self.values[j] == before[old_k];
                            assert(self.values[j] == out@[k]);
                        }
                    }
                    assert forall|k: int| 0 <= k < out@.len() implies (
                    #[trigger] out@[k]).account_id@ == id@ by {
                        if k < at {
                            assert(out@[k] == before[k]);
                        } else if k > at {
                            assert(out@[k] == before[k - 1]);
                        }
                    }
                    assert forall|j: int|
                        0 <= j < i + 1 && (#[trigger] self.values[j]).account_id@
                            == id@ implies out@.contains(self.values[j]) by {
                        if j == i {
                            assert(out@[at as int] == self.values[j]);
                        } else {
                            let k = choose|k: int|
                                0 <= k < before.len() && before[k] == self.values[j];
                            if k < at {
                                assert(out@[k] == self.values[j]);
                            } else {
                                assert(out@[k + 1] == self.values[j]);
                            }
                        }
                    }
                }
            }
            i = i + 1;
        }
        proof {
            let shown = crate::ledger::value_rows(out@);
            assert forall|k: int| 0 <= k < shown.len() implies rows.contains(#[trigger] shown[k])
                && shown[k].account_id == id@ by {
                assert(shown[k] == out@[k]@);
                let j = choose|j: int|
                    0 <= j < self.values.len() && #[trigger] self.values[j] == out@[k];
                assert(rows[j] == shown[k]);
            }
            assert forall|j: int|
                0 <= j < rows.len() && (#[trigger] rows[j]).account_id
                    == id@ implies shown.contains(rows[j]) by {
                assert(rows[j] == self.values[j]@);
                assert(out@.contains(self.values[j]));
                let k = choose|k: int| 0 <= k < out@.len() && out@[k] == self.values[j];
                assert(shown[k] == rows[j]);
            }
            assert forall|k: int, m: int| 0 <= k < m < shown.len() implies earlier(
                #[trigger] shown[k],
                #[trigger] shown[m],
            ) by {
                assert(shown[k] == out@[k]@ && shown[m] == out@[m]@);
            }
        }
        out
    }

    /// An account with all its values by day, its current balance and its finite
    /// extremes.
    pub fn get_account_history(&self, account_id: &str) -> (r: Result<AccountHistory, LedgerError>)
        requires
            self.well_formed(),
        ensures
            match r {
                Err(e) => e == LedgerError::AccountNotFound && !self@.accounts.contains_key(
                    account_id@,
                ),
                Ok(h) => {
                    let rows = crate::ledger::value_rows(h.values@);
                    &&& self@.accounts.contains_key(account_id@)
                    &&& h.account@ == self@.accounts[account_id@]
                    &&& is_history(self@.values, account_id@, rows)
                    &&& h.current_balance == (if rows.len() == 0 {
                        None
                    } else {
                        Some(rows.last().balance)
                    })
                    &&& forall|m: Balance|
                        h.min_balance == Some(m) <==> #[trigger] is_lowest_in(rows, m)
                            && m.finite()
                    &&& forall|m: Balance|
                        h.max_balance == Some(m) <==> #[trigger] is_highest_in(rows, m)
                            && m.finite()
                },
            },
    {
        let at: usize = match self.find_account(account_id) {
            None => {
                return Err(LedgerError::AccountNotFound);
            },
            Some(i) => i,
        };
        let values: Vec<AccountValue> = self.values_by_day(account_id);
        let ghost rows = crate::ledger::value_rows(values@);
        let account: Account = self.accounts[at].duplicate();
        let n: usize = values.len();
        if n == 0 {
            return Ok(
                AccountHistory {
                    account,
                    values,
                    current_balance: None,
                    min_balance: None,
                    max_balance: None,
                },
            );
        }
        let mut low: Balance = values[0].balance;
        let mut high: Balance = values[0].balance;
        let mut i: usize = 1;
        assert(rows[0].balance == low);
        let ghost mut low_at: int = 0;
        let ghost mut high_at: int = 0;
        while i < n
            invariant
                1 <= i <= n,
                n == values.len(),
                rows == crate::ledger::value_rows(values@),
                0 <= low_at < i,
                0 <= high_at < i,
                rows[low_at].balance == low,
                rows[high_at].balance == high,
                forall|k: int|
                    0 <= k < i ==> low.key <= (#[trigger] rows[k]).balance.key
                        && rows[k].balance.key <= high.key,
            decreases n - i,
        {
            let b: Balance = values[i].balance;
            assert(rows[i as int].balance == b);
            if b.key < low.key {
                low = b;
                proof {
                    low_at = i as int;
                }
            }
            if high.key < b.key {
                high = b;
                proof {
                    high_at = i as int;
                }
            }
            i = i + 1;
        }
        let current: Balance = values[n - 1].balance;
        assert(rows.last().balance == current);
        let min_balance: Option<Balance> = if low.is_finite() {
            Some(low)
        } else {
            None
        };
        let max_balance: Option<Balance> = if high.is_finite() {
            Some(high)
        } else {
            None
        };
        proof {
            assert(is_lowest_in(rows, low));
            assert(is_highest_in(rows, high));
            assert forall|m: Balance| #[trigger] is_lowest_in(rows, m) implies m == low by {
                let k = choose|k: int| 0 <= k < rows.len() && (#[trigger] rows[k]).balance == m;
                assert(low.key <= rows[k].balance.key);
                assert(m.key <= rows[low_at].balance.key);
            }
            assert forall|m: Balance| #[trigger] is_highest_in(rows, m) implies m == high by {
                let k = choose|k: int| 0 <= k < rows.len() && (#[trigger] rows[k]).balance == m;
                assert(rows[k].balance.key <= high.key);
                assert(rows[high_at].balance.key <= m.key);
            }
        }
        Ok(
            AccountHistory {
                account,
                values,
                current_balance: Some(current),
                min_balance,
                max_balance,
            },
        )
    }
}

/// A dashboard begins with the overall total, if that is on it.
pub proof fn law_the_total_is_listed_first(
    accounts: Map<Seq<char>, AccountData>,
    rows: Seq<AccountData>,
    i: int,
)
    requires
        Listing::Dashboard.lists(accounts, rows),
        0 <= i < rows.len(),
        rows[i].id == crate::totals::TOTAL_ID@,
    ensures
        i == 0,
{
    if i > 0 {
        assert(!Listing::Dashboard.before(rows[i], rows[0]));
        assert(rows[0].id != rows[i].id);
    }
}

/// The highest balance in a summary is no lower than the latest one, and both
/// are missing together.
pub proof fn law_highest_is_at_least_latest(d: LedgerData, s: AccountSummary)
    requires
        d.summarised_by(s),
    ensures
        s.latest_balance is None <==> s.max_balance is None,
        s.latest_balance is Some ==> s.latest_balance->0.key <= s.max_balance->0.key,
{
    if s.latest_balance is Some {
        let row = choose|row: ValueData|
            {
                &&& #[trigger] d.is_last_of(row, s.account.id@)
                &&& row.balance == s.latest_balance->0
                &&& row.recorded_date == s.latest_date->0@
            };
        let i = choose|i: int| 0 <= i < d.values.len() && d.values[i] == row;
        assert(d.values[i].account_id == s.account.id@);
    }
}

/// The current balance in a history lies between the lowest and the highest.
pub proof fn law_current_lies_between_extremes(
    rows: Seq<ValueData>,
    lowest: Balance,
    highest: Balance,
)
    requires
        rows.len() > 0,
        is_lowest_in(rows, lowest),
        is_highest_in(rows, highest),
    ensures
        lowest.key <= rows.last().balance.key <= highest.key,
{
    assert(rows[rows.len() - 1] == rows.last());
}

} // verus!
