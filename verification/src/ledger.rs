//! The ledger: accounts, recorded values, fetch log and settings.
use vstd::prelude::*;

use crate::balance::Balance;
use crate::model::{
    Account, AccountData, AccountValue, FetchData, FetchEntry, Setting, ValueData,
};
use crate::text::text_eq;

verus! {

/// Everything that is stored.
///
/// Value and fetch identifiers only ever grow: `last_value_id` and
/// `last_fetch_id` are the highest ones ever given out.
#[derive(Debug, Clone, PartialEq, Eq)]
pub struct Ledger {
    pub accounts: Vec<Account>,
    pub values: Vec<AccountValue>,
    pub last_value_id: i64,
    pub fetches: Vec<FetchEntry>,
    pub last_fetch_id: i64,
    pub settings: Vec<Setting>,
}

/// What a [`Ledger`] holds: accounts by identifier, values and fetches in the
/// order in which they were added, settings by name.
pub struct LedgerData {
    pub accounts: Map<Seq<char>, AccountData>,
    pub values: Seq<ValueData>,
    pub last_value_id: i64,
    pub fetches: Seq<FetchData>,
    pub last_fetch_id: i64,
    pub settings: Map<Seq<char>, Seq<char>>,
}

/// Why an operation on the ledger was refused.
#[derive(Debug, Clone, Copy, PartialEq, Eq, Structural)]
pub enum LedgerError {
    /// No account has the identifier.
    NoSuchRow,
    /// No account has the identifier that a report or a manual entry names.
    AccountNotFound,
    /// The identifier is reserved for virtual accounts.
    VirtualAccount,
    /// Values can be added to manual accounts only.
    AddToForeignAccount,
    /// Values can be deleted from manual accounts only.
    DeleteFromForeignAccount,
    /// An account with the identifier exists.
    DuplicateAccount,
    /// No identifier is left for a new row.
    NoIdLeft,
    /// The balance is not a number.
    NotANumber,
    /// The value belongs to no account.
    UnknownAccount,
}

impl LedgerError {
    /// The message shown to the user.
    pub open spec fn message_spec(self) -> Seq<char> {
        match self {
            LedgerError::NoSuchRow => "Query returned no rows"@,
            LedgerError::AccountNotFound => "Account not found: Query returned no rows"@,
            LedgerError::VirtualAccount => "Cannot ignore virtual accounts"@,
            LedgerError::AddToForeignAccount => "Can only add values to manual accounts"@,
            LedgerError::DeleteFromForeignAccount =>
                "Can only delete values from manual accounts"@,
            LedgerError::DuplicateAccount => "UNIQUE constraint failed: accounts.id"@,
            LedgerError::NoIdLeft => "database or disk is full"@,
            LedgerError::NotANumber => "NOT NULL constraint failed: account_values.balance"@,
            LedgerError::UnknownAccount => "FOREIGN KEY constraint failed"@,
        }
    }

    /// The message shown to the user.
    pub fn message(&self) -> (r: String)
        ensures
            r@ == self.message_spec(),
    {
        let text: &str = match self {
            LedgerError::NoSuchRow => "Query returned no rows",
            LedgerError::AccountNotFound => "Account not found: Query returned no rows",
            LedgerError::VirtualAccount => "Cannot ignore virtual accounts",
            LedgerError::AddToForeignAccount => "Can only add values to manual accounts",
            LedgerError::DeleteFromForeignAccount => "Can only delete values from manual accounts",
            LedgerError::DuplicateAccount => "UNIQUE constraint failed: accounts.id",
            LedgerError::NoIdLeft => "database or disk is full",
            LedgerError::NotANumber => "NOT NULL constraint failed: account_values.balance",
            LedgerError::UnknownAccount => "FOREIGN KEY constraint failed",
        };
        text.to_owned()
    }
}

/// The map with the given entries, a later entry replacing an earlier one of
/// the same key.
pub open spec fn keyed<V>(entries: Seq<(Seq<char>, V)>) -> Map<Seq<char>, V>
    decreases entries.len(),
{
    if entries.len() == 0 {
        Map::empty()
    } else {
        keyed(entries.drop_last()).insert(entries.last().0, entries.last().1)
    }
}

/// No two entries share a key.
pub open spec fn distinct_keys<V>(entries: Seq<(Seq<char>, V)>) -> bool {
    forall|i: int, j: int|
        0 <= i < j < entries.len() ==> (#[trigger] entries[i]).0 != (#[trigger] entries[j]).0
}

/// One more entry with a new key leaves the keys distinct.
proof fn distinct_take_push<V>(entries: Seq<(Seq<char>, V)>, n: int)
    requires
        0 <= n < entries.len(),
        distinct_keys(entries.take(n)),
        forall|k: int| 0 <= k < n ==> (#[trigger] entries[k]).0 != entries[n].0,
    ensures
        distinct_keys(entries.take(n + 1)),
{
    let before = entries.take(n);
    let after = entries.take(n + 1);
    assert forall|i: int, j: int| 0 <= i < j < after.len() implies (#[trigger] after[i]).0 != (
    #[trigger] after[j]).0 by {
        assert(after[i] == entries[i] && after[j] == entries[j]);
        if j < n {
            assert(before[i] == entries[i] && before[j] == entries[j]);
        }
    }
}

/// A map of entries with distinct keys has exactly those entries.
pub proof fn keyed_has_entries<V>(entries: Seq<(Seq<char>, V)>)
    requires
        distinct_keys(entries),
    ensures
        forall|i: int|
            0 <= i < entries.len() ==> keyed(entries).contains_key((#[trigger] entries[i]).0)
                && keyed(entries)[entries[i].0] == entries[i].1,
        forall|k: Seq<char>| #[trigger]
            keyed(entries).contains_key(k) ==> exists|i: int|
                0 <= i < entries.len() && (#[trigger] entries[i]).0 == k,
    decreases entries.len(),
{
    if entries.len() > 0 {
        let rest = entries.drop_last();
        let n = entries.len() - 1;
        keyed_has_entries(rest);
        assert forall|i: int| 0 <= i < entries.len() implies keyed(entries).contains_key(
            (#[trigger] entries[i]).0,
        ) && keyed(entries)[entries[i].0] == entries[i].1 by {
            if i < n {
                assert(rest[i] == entries[i]);
                assert(entries[i].0 != entries[n].0);
            }
        }
        assert forall|k: Seq<char>| #[trigger] keyed(entries).contains_key(k) implies exists|i: int|
            0 <= i < entries.len() && (#[trigger] entries[i]).0 == k by {
            if k == entries[n].0 {
                assert(entries[n].0 == k);
            } else {
                assert(keyed(rest).contains_key(k));
                let i = choose|i: int| 0 <= i < rest.len() && (#[trigger] rest[i]).0 == k;
                assert(entries[i] == rest[i]);
            }
        }
    }
}

/// Replacing the value of one entry replaces the value in the map.
pub proof fn keyed_update<V>(entries: Seq<(Seq<char>, V)>, i: int, v: V)
    requires
        distinct_keys(entries),
        0 <= i < entries.len(),
    ensures
        distinct_keys(entries.update(i, (entries[i].0, v))),
        keyed(entries.update(i, (entries[i].0, v))) == keyed(entries).insert(entries[i].0, v),
{
    let next = entries.update(i, (entries[i].0, v));
    assert(distinct_keys(next)) by {
        assert forall|a: int, b: int| 0 <= a < b < next.len() implies (#[trigger] next[a]).0 != (
        #[trigger] next[b]).0 by {
            assert(next[a].0 == entries[a].0 && next[b].0 == entries[b].0);
        }
    }
    keyed_has_entries(entries);
    keyed_has_entries(next);
    let m = keyed(entries).insert(entries[i].0, v);
    assert forall|k: Seq<char>| keyed(next).contains_key(k) <==> m.contains_key(k) by {
        if keyed(next).contains_key(k) {
            let j = choose|j: int| 0 <= j < next.len() && (#[trigger] next[j]).0 == k;
            assert(entries[j].0 == k);
        }
        if m.contains_key(k) {
            if keyed(entries).contains_key(k) {
                let j = choose|j: int| 0 <= j < entries.len() && (#[trigger] entries[j]).0 == k;
                assert(next[j].0 == k);
            } else {
                assert(next[i].0 == k);
            }
        }
    }
    assert forall|k: Seq<char>| keyed(next).contains_key(k) implies keyed(next)[k] == m[k] by {
        let j = choose|j: int| 0 <= j < next.len() && (#[trigger] next[j]).0 == k;
        assert(entries[j].0 == k);
        if j != i {
            assert(next[i].0 == entries[i].0);
            if i < j {
                assert(entries[i].0 != entries[j].0);
            } else {
                assert(entries[j].0 != entries[i].0);
            }
        }
    }
    assert(keyed(next) =~= m);
}

/// Adding an entry with a new key adds it to the map.
pub proof fn keyed_push<V>(entries: Seq<(Seq<char>, V)>, k: Seq<char>, v: V)
    requires
        distinct_keys(entries),
        !keyed(entries).contains_key(k),
    ensures
        distinct_keys(entries.push((k, v))),
        keyed(entries.push((k, v))) == keyed(entries).insert(k, v),
{
    keyed_has_entries(entries);
    let next = entries.push((k, v));
    assert(next.drop_last() =~= entries);
    assert forall|a: int, b: int| 0 <= a < b < next.len() implies (#[trigger] next[a]).0 != (
    #[trigger] next[b]).0 by {
        assert(next[a] == entries[a]);
        if b < entries.len() {
            assert(next[b] == entries[b]);
        } else {
            assert(keyed(entries).contains_key(entries[a].0));
        }
    }
}

/// The accounts by identifier.
pub open spec fn account_entries(rows: Seq<Account>) -> Seq<(Seq<char>, AccountData)> {
    rows.map_values(|a: Account| (a.id@, a@))
}

/// The settings by name.
pub open spec fn setting_entries(rows: Seq<Setting>) -> Seq<(Seq<char>, Seq<char>)> {
    rows.map_values(|s: Setting| (s.key@, s.value@))
}

/// What the values hold.
pub open spec fn value_rows(rows: Seq<AccountValue>) -> Seq<ValueData> {
    rows.map_values(|v: AccountValue| v@)
}

/// What the fetch entries hold.
pub open spec fn fetch_rows(rows: Seq<FetchEntry>) -> Seq<FetchData> {
    rows.map_values(|f: FetchEntry| f@)
}

impl View for Ledger {
    type V = LedgerData;

    open spec fn view(&self) -> LedgerData {
        LedgerData {
            accounts: keyed(account_entries(self.accounts@)),
            values: value_rows(self.values@),
            last_value_id: self.last_value_id,
            fetches: fetch_rows(self.fetches@),
            last_fetch_id: self.last_fetch_id,
            settings: keyed(setting_entries(self.settings@)),
        }
    }
}

/// Whether the row is on the given day of the given account.
pub open spec fn on_day(row: ValueData, account_id: Seq<char>, date: Seq<char>) -> bool {
    row.account_id == account_id && row.recorded_date == date
}

/// Identifiers grow from row to row up to `last`, and every balance is a number.
pub open spec fn values_ordered(values: Seq<ValueData>, last: i64) -> bool {
    &&& forall|i: int, j: int|
        0 <= i < j < values.len() ==> (#[trigger] values[i]).id < (#[trigger] values[j]).id
    &&& forall|i: int|
        0 <= i < values.len() ==> (#[trigger] values[i]).id <= last && values[i].balance.number()
}

/// Identifiers grow from entry to entry up to `last`.
pub open spec fn fetches_ordered(fetches: Seq<FetchData>, last: i64) -> bool {
    &&& forall|i: int, j: int|
        0 <= i < j < fetches.len() ==> (#[trigger] fetches[i]).id < (#[trigger] fetches[j]).id
    &&& forall|i: int| 0 <= i < fetches.len() ==> (#[trigger] fetches[i]).id <= last
}

/// An entry of the account map is filed under its own identifier.
pub open spec fn filed_by_id(accounts: Map<Seq<char>, AccountData>) -> bool {
    forall|k: Seq<char>| #[trigger] accounts.contains_key(k) ==> accounts[k].id == k
}

impl LedgerData {
    /// What every stored ledger satisfies.
    pub open spec fn well_formed(self) -> bool {
        &&& 0 <= self.last_value_id
        &&& 0 <= self.last_fetch_id
        &&& values_ordered(self.values, self.last_value_id)
        &&& fetches_ordered(self.fetches, self.last_fetch_id)
        &&& filed_by_id(self.accounts)
    }

    /// Every value belongs to an account.
    pub open spec fn references_hold(self) -> bool {
        forall|i: int|
            0 <= i < self.values.len() ==> self.accounts.contains_key(
                (#[trigger] self.values[i]).account_id,
            )
    }

    /// The ledger without the values of an account on a day.
    pub open spec fn without_day(self, account_id: Seq<char>, date: Seq<char>) -> LedgerData {
        LedgerData {
            values: self.values.filter(|r: ValueData| !on_day(r, account_id, date)),
            ..self
        }
    }

    /// Why a value with this balance cannot be added to the account, if it cannot.
    pub open spec fn value_refusal(self, account_id: Seq<char>, balance: Balance) -> Option<
        LedgerError,
    > {
        if self.last_value_id == i64::MAX {
            Some(LedgerError::NoIdLeft)
        } else if !balance.number() {
            Some(LedgerError::NotANumber)
        } else if !self.accounts.contains_key(account_id) {
            Some(LedgerError::UnknownAccount)
        } else {
            None
        }
    }

    /// The ledger with one more value.
    pub open spec fn with_value(
        self,
        account_id: Seq<char>,
        balance: Balance,
        date: Seq<char>,
    ) -> LedgerData {
        let id = (self.last_value_id + 1) as i64;
        LedgerData {
            values: self.values.push(
                ValueData { id, account_id, balance, recorded_date: date },
            ),
            last_value_id: id,
            ..self
        }
    }

    /// The ledger with an account, in place of any other with its identifier.
    pub open spec fn with_account(self, account: AccountData) -> LedgerData {
        LedgerData { accounts: self.accounts.insert(account.id, account), ..self }
    }

    /// The ledger with a setting.
    pub open spec fn with_setting(self, key: Seq<char>, value: Seq<char>) -> LedgerData {
        LedgerData { settings: self.settings.insert(key, value), ..self }
    }

    /// The value of a setting.
    pub open spec fn setting_value(self, key: Seq<char>) -> Option<Seq<char>> {
        if self.settings.contains_key(key) {
            Some(self.settings[key])
        } else {
            None
        }
    }
}

/// Keeping some of the values of an ordered list leaves it ordered.
pub proof fn filter_keeps_order(values: Seq<ValueData>, last: i64, keep: spec_fn(ValueData) -> bool)
    requires
        values_ordered(values, last),
    ensures
        values_ordered(values.filter(keep), last),
    decreases values.len(),
{
    reveal(Seq::filter);
    if values.len() > 0 {
        let rest = values.drop_last();
        assert forall|i: int, j: int| 0 <= i < j < rest.len() implies (#[trigger] rest[i]).id < (
        #[trigger] rest[j]).id by {
            assert(rest[i] == values[i] && rest[j] == values[j]);
        }
        assert forall|i: int| 0 <= i < rest.len() implies (#[trigger] rest[i]).id
            <= values.last().id - 1 && rest[i].balance.number() by {
            assert(rest[i] == values[i]);
        }
        if rest.len() > 0 {
            assert(rest[0] == values[0]);
            filter_keeps_order(rest, (values.last().id - 1) as i64, keep);
        } else {
            assert(rest.filter(keep).len() == 0);
        }
        let kept = values.filter(keep);
        let kept_rest = rest.filter(keep);
        assert forall|i: int, j: int| 0 <= i < j < kept.len() implies (#[trigger] kept[i]).id < (
        #[trigger] kept[j]).id by {
            assert(kept[i] == kept_rest[i]);
            if j < kept_rest.len() {
                assert(kept[j] == kept_rest[j]);
            }
        }
        assert forall|i: int| 0 <= i < kept.len() implies (#[trigger] kept[i]).id <= last
            && kept[i].balance.number() by {
            if i < kept_rest.len() {
                assert(kept[i] == kept_rest[i]);
            }
        }
    }
}

impl Ledger {
    /// The rows obey their keys: one account per identifier, one setting per
    /// name, identifiers that grow, balances that are numbers.
    pub open spec fn well_formed(&self) -> bool {
        &&& distinct_keys(account_entries(self.accounts@))
        &&& distinct_keys(setting_entries(self.settings@))
        &&& 0 <= self.last_value_id
        &&& 0 <= self.last_fetch_id
        &&& values_ordered(value_rows(self.values@), self.last_value_id)
        &&& fetches_ordered(fetch_rows(self.fetches@), self.last_fetch_id)
    }

    /// What the rows of a well-formed ledger say of its contents.
    pub proof fn lemma_contents(&self)
        requires
            self.well_formed(),
        ensures
            self@.well_formed(),
            forall|i: int|
                0 <= i < self.accounts.len() ==> self@.accounts.contains_key(
                    (#[trigger] self.accounts[i]).id@,
                ) && self@.accounts[self.accounts[i].id@] == self.accounts[i]@,
            forall|k: Seq<char>| #[trigger]
                self@.accounts.contains_key(k) ==> exists|i: int|
                    0 <= i < self.accounts.len() && (#[trigger] self.accounts[i]).id@ == k,
            forall|i: int|
                0 <= i < self.settings.len() ==> self@.settings.contains_key(
                    (#[trigger] self.settings[i]).key@,
                ) && self@.settings[self.settings[i].key@] == self.settings[i].value@,
            forall|k: Seq<char>| #[trigger]
                self@.settings.contains_key(k) ==> exists|i: int|
                    0 <= i < self.settings.len() && (#[trigger] self.settings[i]).key@ == k,
    {
        let a = account_entries(self.accounts@);
        let s = setting_entries(self.settings@);
        keyed_has_entries(a);
        keyed_has_entries(s);
        assert forall|i: int| 0 <= i < self.accounts.len() implies self@.accounts.contains_key(
            (#[trigger] self.accounts[i]).id@,
        ) && self@.accounts[self.accounts[i].id@] == self.accounts[i]@ by {
            assert(a[i].0 == self.accounts[i].id@);
        }
        assert forall|k: Seq<char>| #[trigger] self@.accounts.contains_key(k) implies exists|i: int|
            0 <= i < self.accounts.len() && (#[trigger] self.accounts[i]).id@ == k by {
            let i = choose|i: int| 0 <= i < a.len() && (#[trigger] a[i]).0 == k;
            assert(self.accounts[i].id@ == k);
        }
        assert forall|i: int| 0 <= i < self.settings.len() implies self@.settings.contains_key(
            (#[trigger] self.settings[i]).key@,
        ) && self@.settings[self.settings[i].key@] == self.settings[i].value@ by {
            assert(s[i].0 == self.settings[i].key@);
        }
        assert forall|k: Seq<char>| #[trigger] self@.settings.contains_key(k) implies exists|i: int|
            0 <= i < self.settings.len() && (#[trigger] self.settings[i]).key@ == k by {
            let i = choose|i: int| 0 <= i < s.len() && (#[trigger] s[i]).0 == k;
            assert(self.settings[i].key@ == k);
        }
    }

    /// A ledger with nothing in it.
    pub fn new() -> (r: Ledger)
        ensures
            r.well_formed(),
            r@.accounts == Map::<Seq<char>, AccountData>::empty(),
            r@.values == Seq::<ValueData>::empty(),
            r@.last_value_id == 0,
            r@.fetches == Seq::<FetchData>::empty(),
            r@.last_fetch_id == 0,
            r@.settings == Map::<Seq<char>, Seq<char>>::empty(),
    {
        let r = Ledger {
            accounts: Vec::new(),
            values: Vec::new(),
            last_value_id: 0,
            fetches: Vec::new(),
            last_fetch_id: 0,
            settings: Vec::new(),
        };
        assert(r@.values =~= Seq::<ValueData>::empty());
        assert(r@.fetches =~= Seq::<FetchData>::empty());
        r
    }

    /// Whether the rows obey their keys. Rows from outside are to be checked
    /// before anything else is done with them.
    pub fn is_well_formed(&self) -> (r: bool)
        ensures
            r == self.well_formed(),
    {
        let ghost a = account_entries(self.accounts@);
        let ghost s = setting_entries(self.settings@);
        let ghost v = value_rows(self.values@);
        let ghost f = fetch_rows(self.fetches@);
        if self.last_value_id < 0 || self.last_fetch_id < 0 {
            return false;
        }
        let mut i: usize = 0;
        while i < self.accounts.len()
            invariant
                i <= self.accounts.len(),
                a == account_entries(self.accounts@),
                a.len() == self.accounts.len(),
                distinct_keys(a.take(i as int)),
            decreases self.accounts.len() - i,
        {
            assert(a[i as int].0 == self.accounts[i as int].id@);
            let mut j: usize = 0;
            while j < i
                invariant
                    j <= i < self.accounts.len(),
                    a == account_entries(self.accounts@),
                    a.len() == self.accounts.len(),
                    forall|k: int| 0 <= k < j ==> (#[trigger] a[k]).0 != a[i as int].0,
                decreases i - j,
            {
                assert(a[j as int].0 == self.accounts[j as int].id@);
                assert(a[i as int].0 == self.accounts[i as int].id@);
                if self.accounts[j].id == self.accounts[i].id {
                    assert(!distinct_keys(a));
                    return false;
                }
                j = j + 1;
            }
            proof {
                distinct_take_push(a, i as int);
            }
            i = i + 1;
        }
        assert(a.take(a.len() as int) =~= a);
        i = 0;
        while i < self.settings.len()
            invariant
                i <= self.settings.len(),
                s == setting_entries(self.settings@),
                s.len() == self.settings.len(),
                distinct_keys(s.take(i as int)),
            decreases self.settings.len() - i,
        {
            assert(s[i as int].0 == self.settings[i as int].key@);
            let mut j: usize = 0;
            while j < i
                invariant
                    j <= i < self.settings.len(),
                    s == setting_entries(self.settings@),
                    s.len() == self.settings.len(),
                    forall|k: int| 0 <= k < j ==> (#[trigger] s[k]).0 != s[i as int].0,
                decreases i - j,
            {
                assert(s[j as int].0 == self.settings[j as int].key@);
                assert(s[i as int].0 == self.settings[i as int].key@);
                if self.settings[j].key == self.settings[i].key {
                    assert(!distinct_keys(s));
                    return false;
                }
                j = j + 1;
            }
            proof {
                distinct_take_push(s, i as int);
            }
            i = i + 1;
        }
        assert(s.take(s.len() as int) =~= s);
        i = 0;
        while i < self.values.len()
            invariant
                i <= self.values.len(),
                v == value_rows(self.values@),
                v.len() == self.values.len(),
                forall|p: int, q: int|
                    0 <= p < q < i ==> (#[trigger] v[p]).id < (#[trigger] v[q]).id,
                forall|p: int|
                    0 <= p < i ==> (#[trigger] v[p]).id <= self.last_value_id
                        && v[p].balance.number(),
            decreases self.values.len() - i,
        {
            assert(v[i as int] == self.values[i as int]@);
            if self.values[i].id > self.last_value_id || !self.values[i].balance.is_number() {
                return false;
            }
            if i > 0 {
                assert(v[i - 1] == self.values[i - 1]@);
                if self.values[i - 1].id >= self.values[i].id {
                    return false;
                }
            }
            i = i + 1;
        }
        i = 0;
        while i < self.fetches.len()
            invariant
                i <= self.fetches.len(),
                f == fetch_rows(self.fetches@),
                f.len() == self.fetches.len(),
                forall|p: int, q: int|
                    0 <= p < q < i ==> (#[trigger] f[p]).id < (#[trigger] f[q]).id,
                forall|p: int| 0 <= p < i ==> (#[trigger] f[p]).id <= self.last_fetch_id,
            decreases self.fetches.len() - i,
        {
            assert(f[i as int] == self.fetches[i as int]@);
            if self.fetches[i].id > self.last_fetch_id {
                return false;
            }
            if i > 0 {
                assert(f[i - 1] == self.fetches[i - 1]@);
                if self.fetches[i - 1].id >= self.fetches[i].id {
                    return false;
                }
            }
            i = i + 1;
        }
        true
    }

    /// Where the account with the identifier stands.
    pub(crate) fn find_account(&self, id: &str) -> (r: Option<usize>)
        requires
            self.well_formed(),
        ensures
            match r {
                Some(i) => i < self.accounts.len() && self.accounts[i as int].id@ == id@
                    && self@.accounts.contains_key(id@) && self@.accounts[id@]
                    == self.accounts[i as int]@,
                None => !self@.accounts.contains_key(id@),
            },
    {
        proof {
            self.lemma_contents();
        }
        let key: String = id.to_owned();
        let mut i: usize = 0;
        while i < self.accounts.len()
            invariant
                i <= self.accounts.len(),
                key@ == id@,
                self.well_formed(),
                forall|j: int| 0 <= j < i ==> (#[trigger] self.accounts[j]).id@ != id@,
            decreases self.accounts.len() - i,
        {
            if self.accounts[i].id == key {
                proof {
                    self.lemma_contents();
                }
                return Some(i);
            }
            i = i + 1;
        }
        None
    }

    /// Stores an account, in place of any other with its identifier.
    pub(crate) fn put_account(&mut self, account: Account)
        requires
            old(self).well_formed(),
        ensures
            final(self).well_formed(),
            final(self)@ == old(self)@.with_account(account@),
    {
        let ghost before = account_entries(self.accounts@);
        let ghost data = account@;
        match self.find_account(account.id.as_str()) {
            Some(i) => {
                proof {
                    keyed_update(before, i as int, data);
                }
                self.accounts.set(i, account);
                assert(account_entries(self.accounts@) =~= before.update(
                    i as int,
                    (before[i as int].0, data),
                ));
            },
            None => {
                proof {
                    keyed_push(before, data.id, data);
                }
                self.accounts.push(account);
                assert(account_entries(self.accounts@) =~= before.push((data.id, data)));
            },
        }
    }

    /// The value of a setting.
    pub fn setting(&self, key: &str) -> (r: Option<String>)
        requires
            self.well_formed(),
        ensures
            crate::model::text_data(r) == self@.setting_value(key@),
    {
        proof {
            self.lemma_contents();
        }
        let mut i: usize = 0;
        while i < self.settings.len()
            invariant
                i <= self.settings.len(),
                self.well_formed(),
                forall|j: int| 0 <= j < i ==> (#[trigger] self.settings[j]).key@ != key@,
            decreases self.settings.len() - i,
        {
            if text_eq(self.settings[i].key.as_str(), key) {
                proof {
                    self.lemma_contents();
                }
                return Some(self.settings[i].value.clone());
            }
            i = i + 1;
        }
        None
    }

    /// Stores a setting, in place of any other value that it had.
    pub fn set_setting(&mut self, key: &str, value: &str)
        requires
            old(self).well_formed(),
        ensures
            final(self).well_formed(),
            final(self)@ == old(self)@.with_setting(key@, value@),
    {
        let ghost before = setting_entries(self.settings@);
        proof {
            self.lemma_contents();
        }
        let mut i: usize = 0;
        while i < self.settings.len()
            invariant
                i <= self.settings.len(),
                *self == *old(self),
                before == setting_entries(self.settings@),
                self.well_formed(),
                forall|j: int| 0 <= j < i ==> (#[trigger] self.settings[j]).key@ != key@,
            decreases self.settings.len() - i,
        {
            if text_eq(self.settings[i].key.as_str(), key) {
                proof {
                    keyed_update(before, i as int, value@);
                }
                let name: String = self.settings[i].key.clone();
                self.settings.set(i, Setting { key: name, value: value.to_owned() });
                assert(setting_entries(self.settings@) =~= before.update(
                    i as int,
                    (before[i as int].0, value@),
                ));
                return ;
            }
            i = i + 1;
        }
        proof {
            self.lemma_contents();
            keyed_push(before, key@, value@);
        }
        self.settings.push(Setting { key: key.to_owned(), value: value.to_owned() });
        assert(setting_entries(self.settings@) =~= before.push((key@, value@)));
    }

    /// Removes the values of an account on a day.
    pub(crate) fn delete_day(&mut self, account_id: &str, date: &str)
        requires
            old(self).well_formed(),
        ensures
            final(self).well_formed(),
            final(self)@ == old(self)@.without_day(account_id@, date@),
    {
        let id: String = account_id.to_owned();
        let day: String = date.to_owned();
        let ghost keep = |r: ValueData| !on_day(r, account_id@, date@);
        let ghost rows = value_rows(self.values@);
        let mut kept: Vec<AccountValue> = Vec::new();
        let mut i: usize = 0;
        assert(rows.take(0).filter(keep) =~= value_rows(kept@)) by {
            reveal(Seq::filter);
        }
        while i < self.values.len()
            invariant
                i <= self.values.len(),
                *self == *old(self),
                id@ == account_id@,
                day@ == date@,
                keep == (|r: ValueData| !on_day(r, account_id@, date@)),
                rows == value_rows(self.values@),
                value_rows(kept@) == rows.take(i as int).filter(keep),
            decreases self.values.len() - i,
        {
            let ghost next = rows.take(i + 1);
            assert(next.drop_last() =~= rows.take(i as int));
            assert(next.last() == self.values[i as int]@);
            proof {
                reveal(Seq::filter);
            }
            if !(self.values[i].account_id == id && self.values[i].recorded_date == day) {
                let ghost before = kept@;
                kept.push(self.values[i].duplicate());
                assert(value_rows(kept@) =~= value_rows(before).push(next.last()));
            }
            i = i + 1;
        }
        proof {
            assert(rows.take(rows.len() as int) =~= rows);
            filter_keeps_order(rows, self.last_value_id, keep);
        }
        self.values = kept;
    }

    /// Adds a value under a new identifier.
    pub(crate) fn insert_value(&mut self, account_id: &str, balance: Balance, date: &str) -> (r:
        Result<(), LedgerError>)
        requires
            old(self).well_formed(),
        ensures
            final(self).well_formed(),
            match r {
                Ok(_) => old(self)@.value_refusal(account_id@, balance) is None && final(self)@
                    == old(self)@.with_value(account_id@, balance, date@),
                Err(e) => old(self)@.value_refusal(account_id@, balance) == Some(e)
                    && final(self)@ == old(self)@,
            },
    {
        if self.last_value_id == i64::MAX {
            return Err(LedgerError::NoIdLeft);
        }
        if !balance.is_number() {
            return Err(LedgerError::NotANumber);
        }
        if self.find_account(account_id).is_none() {
            return Err(LedgerError::UnknownAccount);
        }
        let id: i64 = self.last_value_id + 1;
        let ghost before = value_rows(self.values@);
        let row = AccountValue {
            id,
            account_id: account_id.to_owned(),
            balance,
            recorded_date: date.to_owned(),
        };
        self.last_value_id = id;
        self.values.push(row);
        assert(value_rows(self.values@) =~= before.push(row@));
        Ok(())
    }
}

} // verus!
