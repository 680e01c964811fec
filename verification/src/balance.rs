//! Balances, held by the integer that stands for a double precision number.
use vstd::prelude::*;

verus! {

/// A monetary amount, identified by an order key.
///
/// The key of a double precision number is its bit pattern when the sign bit is
/// clear, and otherwise the bitwise complement of its magnitude. Comparing keys
/// as integers compares the numbers, and no amount loses precision. The key of
/// negative zero is `-1`; patterns beyond the two infinities are not numbers.
#[derive(Debug, Clone, Copy, PartialEq, Eq, Structural)]
pub struct Balance {
    pub key: i64,
}

pub const SIGN_BIT: u64 = 0x8000_0000_0000_0000;

pub const POSITIVE_INFINITY: i64 = 0x7ff0_0000_0000_0000;

pub const NEGATIVE_INFINITY: i64 = -0x7ff0_0000_0000_0001;

/// The order key of a bit pattern.
pub open spec fn key_of_bits(bits: u64) -> int {
    if bits < SIGN_BIT {
        bits as int
    } else {
        -1 - (bits - SIGN_BIT)
    }
}

impl Balance {
    /// Positive zero.
    pub open spec fn zero_spec() -> Balance {
        Balance { key: 0 }
    }

    /// Whether the amount is a number, infinities included.
    pub open spec fn number(self) -> bool {
        NEGATIVE_INFINITY <= self.key <= POSITIVE_INFINITY
    }

    /// Whether the amount is a number other than the infinities.
    pub open spec fn finite(self) -> bool {
        NEGATIVE_INFINITY < self.key < POSITIVE_INFINITY
    }

    /// Whether the amount is below zero.
    pub open spec fn negative(self) -> bool {
        self.key < -1
    }

    /// Whether the amount is zero, of either sign.
    pub open spec fn zero_amount(self) -> bool {
        self.key == 0 || self.key == -1
    }

    /// The amount zero.
    #[verifier::when_used_as_spec(zero_spec)]
    pub fn zero() -> (r: Balance)
        ensures
            r == Balance::zero_spec(),
    {
        Balance { key: 0 }
    }

    /// The amount with the given double precision bit pattern.
    pub fn from_bits(bits: u64) -> (r: Balance)
        ensures
            r.key == key_of_bits(bits),
    {
        if bits < SIGN_BIT {
            Balance { key: bits as i64 }
        } else {
            let magnitude: i64 = (bits - SIGN_BIT) as i64;
            Balance { key: -1 - magnitude }
        }
    }

    /// The double precision bit pattern of the amount.
    pub fn to_bits(&self) -> (r: u64)
        ensures
            key_of_bits(r) == self.key,
    {
        if self.key >= 0 {
            self.key as u64
        } else {
            let magnitude: u64 = (-(self.key + 1)) as u64;
            SIGN_BIT + magnitude
        }
    }

    /// Whether the amount is a number.
    pub fn is_number(&self) -> (r: bool)
        ensures
            r == self.number(),
    {
        NEGATIVE_INFINITY <= self.key && self.key <= POSITIVE_INFINITY
    }

    /// Whether the amount is a finite number.
    pub fn is_finite(&self) -> (r: bool)
        ensures
            r == self.finite(),
    {
        NEGATIVE_INFINITY < self.key && self.key < POSITIVE_INFINITY
    }

    /// Whether the amount is below zero.
    pub fn is_negative(&self) -> (r: bool)
        ensures
            r == self.negative(),
    {
        self.key < -1
    }

    /// Whether the amount is zero.
    pub fn is_zero(&self) -> (r: bool)
        ensures
            r == self.zero_amount(),
    {
        self.key == 0 || self.key == -1
    }
}

/// Different bit patterns have different keys, and every key has a pattern: a
/// balance turned into bits and back is the same balance.
pub proof fn law_bits_round_trip(a: u64, b: u64)
    ensures
        key_of_bits(a) == key_of_bits(b) ==> a == b,
        i64::MIN <= key_of_bits(a) <= i64::MAX,
{
}

/// Keys order amounts by sign and magnitude: an amount with the sign bit set
/// comes before one without it, larger patterns come later among the latter and
/// earlier among the former.
pub proof fn law_keys_order_amounts(a: u64, b: u64)
    ensures
        a >= SIGN_BIT && b < SIGN_BIT ==> key_of_bits(a) < key_of_bits(b),
        a < SIGN_BIT && b < SIGN_BIT ==> (key_of_bits(a) < key_of_bits(b) <==> a < b),
        a >= SIGN_BIT && b >= SIGN_BIT ==> (key_of_bits(a) < key_of_bits(b) <==> a > b),
{
}

} // verus!
