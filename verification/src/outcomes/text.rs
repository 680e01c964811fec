//! What texts say.
use vstd::prelude::*;
use vstd::utf8::*;

use crate::ledger::LedgerError;

verus! {

/// The number that a decimal numeral tells.
pub open spec fn numeral_value(s: Seq<char>) -> int
    decreases s.len(),
{
    if s.len() == 0 {
        0
    } else {
        10 * numeral_value(s.drop_last()) + (s.last() as u32 - '0' as u32)
    }
}

/// A numeral has decimal digits only, no leading zero but in that of zero, and
/// tells its number.
pub proof fn law_numerals_tell_their_number(n: nat)
    ensures
        numeral_value(crate::text::decimal(n)) == n,
        crate::text::decimal(n).len() > 0,
        forall|i: int|
            0 <= i < crate::text::decimal(n).len() ==> '0' <= (#[trigger] crate::text::decimal(
                n,
            )[i]) <= '9',
        crate::text::decimal(n)[0] == '0' <==> n == 0,
    decreases n,
{
    let s = crate::text::decimal(n);
    if n < 10 {
        assert(s.drop_last() =~= Seq::<char>::empty());
        assert(numeral_value(s.drop_last()) == 0);
        assert(s.last() == crate::text::digit_char(n as int));
        assert(numeral_value(s) == n);
    } else {
        law_numerals_tell_their_number(n / 10);
        assert(s.drop_last() =~= crate::text::decimal(n / 10));
        assert(s.last() == crate::text::digit_char((n % 10) as int));
        assert(s[0] == s.drop_last()[0]);
    }
}

/// A text that fits is left as it is. One that does not keeps its first
/// characters, exactly as many as make up the given number of bytes, and three
/// dots follow.
pub proof fn law_truncation_keeps_the_start(s: Seq<char>, max_len: nat)
    requires
        crate::text::can_truncate(s, max_len),
    ensures
        encode_utf8(s).len() <= max_len ==> crate::text::truncated(s, max_len) == s,
        encode_utf8(s).len() > max_len ==> exists|k: int|
            {
                &&& 0 <= k < s.len()
                &&& encode_utf8(#[trigger] s.take(k)).len() == max_len
                &&& crate::text::truncated(s, max_len) == s.take(k).push('.').push('.').push('.')
            },
{
    let bytes = encode_utf8(s);
    if bytes.len() > max_len {
        let m = max_len as int;
        let head_bytes = bytes.subrange(0, m);
        let head = decode_utf8(head_bytes);
        encode_utf8_valid_utf8(s);
        encode_utf8_decode_utf8(s);
        valid_utf8_split(bytes, m);
        decode_utf8_split(bytes, m);
        decode_utf8_encode_utf8(head_bytes);
        let k = head.len() as int;
        assert(s.take(k) =~= head);
        assert(encode_utf8(s.take(k)).len() == max_len);
        if k == s.len() {
            assert(s.take(k) =~= s);
        }
        reveal_strlit("...");
        assert(crate::text::truncated(s, max_len) =~= s.take(k).push('.').push('.').push('.'));
    }
}

/// Days are written year, month and day. Names of backups and of archived copies
/// have the time of day as well, to the second, and sort by it.
pub proof fn law_formats_of_moments()
    ensures
        crate::dates::DAY_FORMAT@ == "%Y-%m-%d"@,
        crate::dates::BACKUP_FORMAT@ == "%Y%m%d-%H%M%S"@,
        crate::dates::ARCHIVE_FORMAT@ == "%Y%m%dT%H%M%S"@,
{
}

/// What a refused operation says.
pub proof fn law_error_messages(e: LedgerError)
    ensures
        e is NoSuchRow ==> e.message_spec() == "Query returned no rows"@,
        e is AccountNotFound ==> e.message_spec() == "Account not found: Query returned no rows"@,
        e is VirtualAccount ==> e.message_spec() == "Cannot ignore virtual accounts"@,
        e is AddToForeignAccount ==> e.message_spec()
            == "Can only add values to manual accounts"@,
        e is DeleteFromForeignAccount ==> e.message_spec()
            == "Can only delete values from manual accounts"@,
        e is DuplicateAccount ==> e.message_spec() == "UNIQUE constraint failed: accounts.id"@,
        e is NoIdLeft ==> e.message_spec() == "database or disk is full"@,
        e is NotANumber ==> e.message_spec()
            == "NOT NULL constraint failed: account_values.balance"@,
        e is UnknownAccount ==> e.message_spec() == "FOREIGN KEY constraint failed"@,
{
}

/// The day looked back to lies exactly so many days before, if there is such a
/// day.
pub proof fn law_lookback_counts_days(today: Seq<char>, days: int)
    requires
        0 <= days <= i32::MAX,
        crate::dates::parsed_date(today) is Some ==> -95_746_129 <= crate::dates::parsed_date(
            today,
        )->0 <= 95_745_399,
    ensures
        crate::dates::parsed_date(today) is None ==> crate::dates::lookback_spec(today, days)
            is None,
        crate::dates::parsed_date(today) is Some ==> (crate::dates::lookback_spec(today, days)
            is Some <==> crate::dates::parsed_date(today)->0 >= -95_746_129 + days),
        crate::dates::lookback_spec(today, days) is Some ==> exists|e: i32|
            crate::dates::lookback_spec(today, days) == Some(
                #[trigger] crate::dates::formatted_date(e),
            ) && e + days == crate::dates::parsed_date(today)->0,
{
    if crate::dates::lookback_spec(today, days) is Some {
        let e = (crate::dates::parsed_date(today)->0 - days) as i32;
        assert(crate::dates::lookback_spec(today, days) == Some(crate::dates::formatted_date(e)));
    }
}

} // verus!
