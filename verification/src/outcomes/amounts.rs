//! Which bit patterns are which amounts, and what makes a ledger sound.
use vstd::prelude::*;

use crate::balance::Balance;
use crate::dates::Moment;
use crate::ledger::LedgerData;

verus! {

/// The sign and the kind of an amount by its double precision bit pattern: below
/// zero with the sign bit and a magnitude, zero with a magnitude of zero, finite
/// with a magnitude under that of the infinities, and a number up to these.
pub proof fn law_amounts_by_bit_pattern(bits: u64, b: Balance)
    requires
        b.key == crate::balance::key_of_bits(bits),
    ensures
        b.negative() <==> bits > 0x8000_0000_0000_0000,
        b.zero_amount() <==> bits == 0 || bits == 0x8000_0000_0000_0000,
        b.finite() <==> bits < 0x7ff0_0000_0000_0000 || 0x8000_0000_0000_0000 <= bits
            < 0xfff0_0000_0000_0000,
        b.number() <==> bits <= 0x7ff0_0000_0000_0000 || 0x8000_0000_0000_0000 <= bits
            <= 0xfff0_0000_0000_0000,
{
}

/// A moment is handled exactly when it lies between a day before year 0 and a day
/// after year 9999. Only the last second of a minute can be a leap second.
pub proof fn law_handled_moments(m: Moment)
    ensures
        m.valid() <==> -62_167_305_600 <= m.secs <= 253_402_387_199 && m.nanos < 2_000_000_000 && (
        m.nanos >= 1_000_000_000 ==> (m.secs + 1) % 60 == 0),
        m.plain() <==> m.valid() && -62_167_219_200 <= m.secs <= 253_402_300_799 && m.nanos
            < 1_000_000_000,
{
}

/// A ledger is sound exactly when identifiers of values and of fetches grow from
/// row to row and are none above the last one given out, every balance is a
/// number, and every account is stored under its identifier.
pub proof fn law_sound_ledgers(d: LedgerData)
    ensures
        d.well_formed() <==> {
            &&& d.last_value_id >= 0
            &&& d.last_fetch_id >= 0
            &&& forall|i: int, j: int|
                0 <= i < j < d.values.len() ==> (#[trigger] d.values[i]).id < (
                #[trigger] d.values[j]).id
            &&& forall|i: int|
                0 <= i < d.values.len() ==> (#[trigger] d.values[i]).id <= d.last_value_id
                    && -0x7ff0_0000_0000_0001 <= d.values[i].balance.key <= 0x7ff0_0000_0000_0000
            &&& forall|i: int, j: int|
                0 <= i < j < d.fetches.len() ==> (#[trigger] d.fetches[i]).id < (
                #[trigger] d.fetches[j]).id
            &&& forall|i: int|
                0 <= i < d.fetches.len() ==> (#[trigger] d.fetches[i]).id <= d.last_fetch_id
            &&& forall|k: Seq<char>| #[trigger]
                d.accounts.contains_key(k) ==> d.accounts[k].id == k
        },
        d.references_hold() <==> forall|i: int|
            0 <= i < d.values.len() ==> d.accounts.contains_key(
                (#[trigger] d.values[i]).account_id,
            ),
{
}

} // verus!
