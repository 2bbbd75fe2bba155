//! Integer values and their canonicalization.
//!
//! An integer's identity is its mathematical value, independent of the
//! signed or unsigned representation the caller used: equality, ordering and
//! hashing all go through [`IntValue::as_int`].

use vstd::prelude::*;

use core::cmp::Ordering;

use vstd::std_specs::cmp::PartialEqSpec;
use vstd::std_specs::cmp::PartialOrdSpec;

use crate::error::Error;
use crate::error::ErrorCode;

verus! {

/// Represents an integer number.
#[derive(Copy, Clone, Debug)]
pub enum IntValue {
    /// Signed value.
    Signed(i64),
    /// Unsigned value.
    Unsigned(u64),
}

impl IntValue {
    /// The mathematical value the integer stands for.
    pub open spec fn as_int(&self) -> int {
        match self {
            IntValue::Signed(s) => *s as int,
            IntValue::Unsigned(u) => *u as int,
        }
    }

    /// True when the representation cannot be narrowed further: negative
    /// values are signed, all others unsigned.
    pub open spec fn is_canonical(&self) -> bool {
        match self {
            IntValue::Signed(s) => *s < 0,
            IntValue::Unsigned(_) => true,
        }
    }

    /// The key that hashing feeds to the hasher: the 64-bit two's-complement
    /// bit pattern of the value. Two equal values share it.
    pub open spec fn spec_hash_key(&self) -> u64 {
        if self.as_int() >= 0 {
            self.as_int() as u64
        } else {
            (self.as_int() + 0x1_0000_0000_0000_0000) as u64
        }
    }

    /// How `self` stands to `other` as mathematical integers.
    pub open spec fn spec_cmp(&self, other: &IntValue) -> Ordering {
        if self.as_int() < other.as_int() {
            Ordering::Less
        } else if self.as_int() == other.as_int() {
            Ordering::Equal
        } else {
            Ordering::Greater
        }
    }

    /// Returns `true`, if `self` is signed, otherwise `false`.
    pub fn is_signed(&self) -> (r: bool)
        ensures
            r == (self is Signed),
    {
        match self {
            IntValue::Signed(_) => true,
            IntValue::Unsigned(_) => false,
        }
    }

    /// The canonical representation of the same value: signed iff negative.
    pub fn canonicalized(&self) -> (r: IntValue)
        ensures
            r.as_int() == self.as_int(),
            r.is_canonical(),
    {
        match self {
            IntValue::Signed(s) => {
                if *s >= 0 {
                    IntValue::Unsigned(*s as u64)
                } else {
                    IntValue::Signed(*s)
                }
            },
            IntValue::Unsigned(u) => IntValue::Unsigned(*u),
        }
    }

    /// Attempts to convert the value into a signed value; a value above the
    /// signed range is out of range.
    pub fn to_signed(self) -> (r: Result<i64, Error>)
        ensures
            self.as_int() <= i64::MAX ==> r == Ok::<i64, Error>(self.as_int() as i64),
            self.as_int() > i64::MAX ==> (r matches Err(e) && e.code == ErrorCode::NumberOutOfRange),
    {
        match self {
            IntValue::Signed(s) => Ok(s),
            IntValue::Unsigned(u) => {
                if u <= i64::MAX as u64 {
                    Ok(u as i64)
                } else {
                    Err(Error::number_out_of_range(None))
                }
            },
        }
    }

    /// Attempts to convert the value into an unsigned value; a negative
    /// value is out of range.
    pub fn to_unsigned(self) -> (r: Result<u64, Error>)
        ensures
            self.as_int() >= 0 ==> r == Ok::<u64, Error>(self.as_int() as u64),
            self.as_int() < 0 ==> (r matches Err(e) && e.code == ErrorCode::NumberOutOfRange),
    {
        match self {
            IntValue::Signed(s) => {
                if s >= 0 {
                    Ok(s as u64)
                } else {
                    Err(Error::number_out_of_range(None))
                }
            },
            IntValue::Unsigned(u) => Ok(u),
        }
    }

    /// The key that hashing feeds to the hasher. Values that compare equal
    /// produce the same key, whatever representation they were built from.
    pub fn hash_key(&self) -> (r: u64)
        ensures
            r == self.spec_hash_key(),
    {
        match self {
            IntValue::Signed(s) => {
                if *s >= 0 {
                    *s as u64
                } else {
                    let below_top: u64 = (-1i64 - *s) as u64;
                    u64::MAX - below_top
                }
            },
            IntValue::Unsigned(u) => *u,
        }
    }

    /// How `self` stands to `other` as mathematical integers; agrees with
    /// `==` and `<` across signed and unsigned representations.
    pub fn cmp(&self, other: &IntValue) -> (r: Ordering)
        ensures
            r == self.spec_cmp(other),
    {
        match (self, other) {
            (IntValue::Signed(lhs), IntValue::Signed(rhs)) => {
                if lhs < rhs {
                    Ordering::Less
                } else if lhs == rhs {
                    Ordering::Equal
                } else {
                    Ordering::Greater
                }
            },
            (IntValue::Unsigned(lhs), IntValue::Unsigned(rhs)) => {
                if lhs < rhs {
                    Ordering::Less
                } else if lhs == rhs {
                    Ordering::Equal
                } else {
                    Ordering::Greater
                }
            },
            (IntValue::Signed(lhs), IntValue::Unsigned(rhs)) => {
                if *lhs < 0 {
                    Ordering::Less
                } else {
                    let l = *lhs as u64;
                    if l < *rhs {
                        Ordering::Less
                    } else if l == *rhs {
                        Ordering::Equal
                    } else {
                        Ordering::Greater
                    }
                }
            },
            (IntValue::Unsigned(lhs), IntValue::Signed(rhs)) => {
                if *rhs < 0 {
                    Ordering::Greater
                } else {
                    let r = *rhs as u64;
                    if *lhs < r {
                        Ordering::Less
                    } else if *lhs == r {
                        Ordering::Equal
                    } else {
                        Ordering::Greater
                    }
                }
            },
        }
    }
}

impl PartialEq for IntValue {
    /// Width-independent equality: representations of the same mathematical
    /// value compare equal.
    fn eq(&self, other: &IntValue) -> (r: bool) {
        match (self, other) {
            (IntValue::Signed(lhs), IntValue::Signed(rhs)) => lhs == rhs,
            (IntValue::Unsigned(lhs), IntValue::Unsigned(rhs)) => lhs == rhs,
            (IntValue::Signed(lhs), IntValue::Unsigned(rhs)) => {
                if *lhs < 0 {
                    false
                } else {
                    (*lhs as u64) == *rhs
                }
            },
            (IntValue::Unsigned(lhs), IntValue::Signed(rhs)) => {
                if *rhs < 0 {
                    false
                } else {
                    *lhs == (*rhs as u64)
                }
            },
        }
    }
}

impl Eq for IntValue {

}

impl vstd::std_specs::cmp::PartialEqSpecImpl for IntValue {
    open spec fn obeys_eq_spec() -> bool {
        true
    }

    open spec fn eq_spec(&self, other: &IntValue) -> bool {
        self.as_int() == other.as_int()
    }
}

impl PartialOrd for IntValue {
    /// Width-independent ordering: representations compare as their
    /// mathematical values; a negative integer is less than any unsigned.
    fn partial_cmp(&self, other: &IntValue) -> (r: Option<Ordering>) {
        Some(self.cmp(other))
    }
}

impl vstd::std_specs::cmp::PartialOrdSpecImpl for IntValue {
    open spec fn obeys_partial_cmp_spec() -> bool {
        true
    }

    open spec fn partial_cmp_spec(&self, other: &IntValue) -> Option<Ordering> {
        Some(self.spec_cmp(other))
    }
}

impl Default for IntValue {
    /// Unsigned zero.
    fn default() -> (r: Self)
        ensures
            r == IntValue::Unsigned(0u64),
    {
        IntValue::Unsigned(0)
    }
}

impl From<i8> for IntValue {
    fn from(value: i8) -> (r: Self) {
        IntValue::Signed(value as i64)
    }
}

impl vstd::std_specs::convert::FromSpecImpl<i8> for IntValue {
    open spec fn obeys_from_spec() -> bool {
        true
    }

    open spec fn from_spec(value: i8) -> Self {
        IntValue::Signed(value as i64)
    }
}

impl From<i16> for IntValue {
    fn from(value: i16) -> (r: Self) {
        IntValue::Signed(value as i64)
    }
}

impl vstd::std_specs::convert::FromSpecImpl<i16> for IntValue {
    open spec fn obeys_from_spec() -> bool {
        true
    }

    open spec fn from_spec(value: i16) -> Self {
        IntValue::Signed(value as i64)
    }
}

impl From<i32> for IntValue {
    fn from(value: i32) -> (r: Self) {
        IntValue::Signed(value as i64)
    }
}

impl vstd::std_specs::convert::FromSpecImpl<i32> for IntValue {
    open spec fn obeys_from_spec() -> bool {
        true
    }

    open spec fn from_spec(value: i32) -> Self {
        IntValue::Signed(value as i64)
    }
}

impl From<i64> for IntValue {
    fn from(value: i64) -> (r: Self) {
        IntValue::Signed(value)
    }
}

impl vstd::std_specs::convert::FromSpecImpl<i64> for IntValue {
    open spec fn obeys_from_spec() -> bool {
        true
    }

    open spec fn from_spec(value: i64) -> Self {
        IntValue::Signed(value)
    }
}

impl From<u8> for IntValue {
    fn from(value: u8) -> (r: Self) {
        IntValue::Unsigned(value as u64)
    }
}

impl vstd::std_specs::convert::FromSpecImpl<u8> for IntValue {
    open spec fn obeys_from_spec() -> bool {
        true
    }

    open spec fn from_spec(value: u8) -> Self {
        IntValue::Unsigned(value as u64)
    }
}

impl From<u16> for IntValue {
    fn from(value: u16) -> (r: Self) {
        IntValue::Unsigned(value as u64)
    }
}

impl vstd::std_specs::convert::FromSpecImpl<u16> for IntValue {
    open spec fn obeys_from_spec() -> bool {
        true
    }

    open spec fn from_spec(value: u16) -> Self {
        IntValue::Unsigned(value as u64)
    }
}

impl From<u32> for IntValue {
    fn from(value: u32) -> (r: Self) {
        IntValue::Unsigned(value as u64)
    }
}

impl vstd::std_specs::convert::FromSpecImpl<u32> for IntValue {
    open spec fn obeys_from_spec() -> bool {
        true
    }

    open spec fn from_spec(value: u32) -> Self {
        IntValue::Unsigned(value as u64)
    }
}

impl From<u64> for IntValue {
    fn from(value: u64) -> (r: Self) {
        IntValue::Unsigned(value)
    }
}

impl vstd::std_specs::convert::FromSpecImpl<u64> for IntValue {
    open spec fn obeys_from_spec() -> bool {
        true
    }

    open spec fn from_spec(value: u64) -> Self {
        IntValue::Unsigned(value)
    }
}

impl From<isize> for IntValue {
    fn from(value: isize) -> (r: Self) {
        IntValue::Signed(value as i64)
    }
}

impl vstd::std_specs::convert::FromSpecImpl<isize> for IntValue {
    open spec fn obeys_from_spec() -> bool {
        true
    }

    open spec fn from_spec(value: isize) -> Self {
        IntValue::Signed(value as i64)
    }
}

impl From<usize> for IntValue {
    fn from(value: usize) -> (r: Self) {
        IntValue::Unsigned(value as u64)
    }
}

impl vstd::std_specs::convert::FromSpecImpl<usize> for IntValue {
    open spec fn obeys_from_spec() -> bool {
        true
    }

    open spec fn from_spec(value: usize) -> Self {
        IntValue::Unsigned(value as u64)
    }
}

/// Integer identity is width-independent: two integer values are equal
/// exactly when their mathematical values are, the ordering is the
/// mathematical one, and equal values share their hash key.
pub proof fn lemma_int_value_canonical_identity(a: IntValue, b: IntValue)
    ensures
        a.eq_spec(&b) <==> a.as_int() == b.as_int(),
        a.partial_cmp_spec(&b) == Some(a.spec_cmp(&b)),
        a.spec_cmp(&b) is Less <==> a.as_int() < b.as_int(),
        a.spec_cmp(&b) is Equal <==> a.as_int() == b.as_int(),
        a.as_int() == b.as_int() ==> a.spec_hash_key() == b.spec_hash_key(),
{
}

} // verus!
