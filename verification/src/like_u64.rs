//! Codes of 64 bits.

use crate::bits::{
    bits_of, bits_value, lemma_bit_length_bound, lemma_bits_value_bound, length_of,
    trailing_ones_of, value_of,
};
use crate::error::ZwlError;
use crate::traits::{
    Code, CustomWriteSize, LeadingZerosR, Numeric, RequiredBits, ToBits, TrailingOnesR,
};
use std::cmp::Ordering;
use std::ops::Sub;
use vstd::arithmetic::power2::{lemma2_to64_rest, lemma_pow2_strictly_increases};
use vstd::prelude::*;
use vstd::std_specs::cmp::PartialOrdSpecImpl;
use vstd::std_specs::convert::{FromSpecImpl, TryFromSpecImpl};
use vstd::std_specs::ops::SubSpecImpl;

verus! {

/// A code of 64 bits, written at its full width throughout a stream.
#[derive(Clone, Copy, Debug, PartialEq, Eq, Structural)]
pub struct LikeU64(pub u64);

impl LikeU64 {
    /// The code whose number the bits stand for, least significant bit first,
    /// where there are no more than 64 bits.
    fn of_bits(bits: &[bool]) -> (code: Result<Self, ZwlError>)
        ensures
            code == (if bits@.len() > 64 {
                Err::<Self, ZwlError>(ZwlError::Format)
            } else {
                Ok::<Self, ZwlError>(LikeU64(bits_value(bits@) as u64))
            }),
            bits@.len() <= 64 ==> bits_value(bits@) <= 0xffff_ffff_ffff_ffff,
    {
        if bits.len() > 64 {
            return Err(ZwlError::Format);
        }
        proof {
            lemma2_to64_rest();
            lemma_bits_value_bound(bits@);
            if bits@.len() < 64 {
                lemma_pow2_strictly_increases(bits@.len(), 64);
            }
        }
        Ok(LikeU64(value_of(bits)))
    }
}

impl PartialOrd for LikeU64 {
    /// Codes are ordered as their numbers are.
    fn partial_cmp(&self, other: &Self) -> (order: Option<Ordering>) {
        if self.0 < other.0 {
            Some(Ordering::Less)
        } else if self.0 == other.0 {
            Some(Ordering::Equal)
        } else {
            Some(Ordering::Greater)
        }
    }
}

impl PartialOrdSpecImpl for LikeU64 {
    open spec fn obeys_partial_cmp_spec() -> bool {
        true
    }

    open spec fn partial_cmp_spec(&self, other: &Self) -> Option<Ordering> {
        if self.0 < other.0 {
            Some(Ordering::Less)
        } else if self.0 == other.0 {
            Some(Ordering::Equal)
        } else {
            Some(Ordering::Greater)
        }
    }
}

impl Default for LikeU64 {
    /// The code 0.
    fn default() -> (code: Self)
        ensures
            code.number() == 0,
    {
        LikeU64(0)
    }
}

impl TryFrom<usize> for LikeU64 {
    type Error = ZwlError;

    /// The code with the number `value`.
    fn try_from(value: usize) -> (code: Result<Self, ZwlError>) {
        Ok(LikeU64(value as u64))
    }
}

impl TryFromSpecImpl<usize> for LikeU64 {
    open spec fn obeys_try_from_spec() -> bool {
        true
    }

    open spec fn try_from_spec(value: usize) -> Result<Self, ZwlError> {
        Ok(LikeU64(value as u64))
    }
}

impl TryFrom<LikeU64> for usize {
    type Error = ZwlError;

    /// The number of the code, where a `usize` can hold it.
    fn try_from(code: LikeU64) -> (value: Result<usize, ZwlError>) {
        if code.0 <= usize::MAX as u64 {
            Ok(code.0 as usize)
        } else {
            Err(ZwlError::BitWidthOverflow)
        }
    }
}

impl TryFromSpecImpl<LikeU64> for usize {
    open spec fn obeys_try_from_spec() -> bool {
        true
    }

    open spec fn try_from_spec(code: LikeU64) -> Result<usize, ZwlError> {
        if code.0 <= usize::MAX {
            Ok(code.0 as usize)
        } else {
            Err(ZwlError::BitWidthOverflow)
        }
    }
}

impl From<u8> for LikeU64 {
    /// The code of a byte.
    fn from(value: u8) -> (code: Self) {
        LikeU64(value as u64)
    }
}

impl FromSpecImpl<u8> for LikeU64 {
    open spec fn obeys_from_spec() -> bool {
        true
    }

    open spec fn from_spec(value: u8) -> Self {
        LikeU64(value as u64)
    }
}

impl Sub<LikeU64> for LikeU64 {
    type Output = LikeU64;

    /// The code that lies `rhs` below `self`, for an `rhs` that is no greater.
    fn sub(self, rhs: Self) -> (difference: Self) {
        LikeU64(self.0 - rhs.0)
    }
}

impl SubSpecImpl<LikeU64> for LikeU64 {
    open spec fn obeys_sub_spec() -> bool {
        true
    }

    open spec fn sub_req(self, rhs: LikeU64) -> bool {
        rhs.0 <= self.0
    }

    open spec fn sub_spec(self, rhs: LikeU64) -> LikeU64 {
        LikeU64((self.0 - rhs.0) as u64)
    }
}

impl TryFrom<&[bool]> for LikeU64 {
    type Error = ZwlError;

    /// The code whose number the bits stand for, least significant bit first.
    /// More than 64 bits are refused.
    fn try_from(value: &[bool]) -> (code: Result<Self, ZwlError>)
        ensures
            value@.len() <= 64 ==> code is Ok && code->Ok_0.number() == bits_value(value@),
            value@.len() > 64 ==> code == Err::<Self, ZwlError>(ZwlError::Format),
    {
        LikeU64::of_bits(value)
    }
}

impl TryFromSpecImpl<&[bool]> for LikeU64 {
    open spec fn obeys_try_from_spec() -> bool {
        true
    }

    open spec fn try_from_spec(value: &[bool]) -> Result<Self, ZwlError> {
        if value@.len() > 64 {
            Err(ZwlError::Format)
        } else {
            Ok(LikeU64(bits_value(value@) as u64))
        }
    }
}

impl Numeric for LikeU64 {
    open spec fn number(&self) -> nat {
        self.0 as nat
    }
}

impl CustomWriteSize for LikeU64 {
    open spec fn width() -> nat {
        64
    }

    fn custom_size() -> (size: usize) {
        64
    }
}

impl ToBits for LikeU64 {
    /// All 64 bits of the code.
    fn bits_vec(&self) -> (bits: Vec<bool>)
        ensures
            bits@.len() == 64,
    {
        proof {
            lemma2_to64_rest();
            lemma_bit_length_bound(self.0 as nat, 64);
        }
        bits_of(self.0, 64)
    }
}

impl RequiredBits for LikeU64 {
    fn required_bits(&self) -> (n: usize) {
        length_of(self.0)
    }
}

impl LeadingZerosR for LikeU64 {
    fn leading_zeros(&self) -> (n: usize) {
        proof {
            lemma2_to64_rest();
            lemma_bit_length_bound(self.0 as nat, 64);
        }
        64 - length_of(self.0)
    }
}

impl TrailingOnesR for LikeU64 {
    fn trailing_ones(&self) -> (n: usize) {
        trailing_ones_of(self.0)
    }
}

impl Code for LikeU64 {
    open spec fn initial_width() -> nat {
        64
    }

    proof fn lemma_widths() {
    }

    proof fn lemma_fits(&self) {
        lemma2_to64_rest();
    }

    fn initial_size() -> (size: usize) {
        64
    }

    fn max_value() -> (max: Self) {
        proof {
            lemma2_to64_rest();
        }
        LikeU64(0xffff_ffff_ffff_ffff)
    }

    fn from_byte(byte: u8) -> (code: Self) {
        LikeU64(byte as u64)
    }

    fn from_u64(value: u64) -> (code: Result<Self, ZwlError>) {
        proof {
            lemma2_to64_rest();
        }
        Ok(LikeU64(value))
    }

    fn to_u64(&self) -> (value: u64) {
        self.0
    }

    fn from_bits(bits: &[bool]) -> (code: Result<Self, ZwlError>) {
        LikeU64::of_bits(bits)
    }
}

} // verus!
