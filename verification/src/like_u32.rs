//! Codes of 32 bits.

use crate::bits::{
    bits_of, bits_value, lemma_bit_length_bound, lemma_bits_value_bound, length_of,
    trailing_ones_of, value_of,
};
use crate::error::ZwlError;
use crate::traits::{
    Code, CustomWriteSize, LeadingZerosR, Numeric, RequiredBits, ToBits, TrailingOnesR,
};
use std::cmp::Ordering;
use std::ops::Sub;
use vstd::arithmetic::power2::{lemma2_to64, lemma_pow2_strictly_increases};
use vstd::prelude::*;
use vstd::std_specs::cmp::PartialOrdSpecImpl;
use vstd::std_specs::convert::{FromSpecImpl, TryFromSpecImpl};
use vstd::std_specs::ops::SubSpecImpl;

verus! {

/// A code of 32 bits, written at its full width throughout a stream.
#[derive(Clone, Copy, Debug, PartialEq, Eq, Structural)]
pub struct LikeU32(pub u32);

impl LikeU32 {
    /// The code with the number `value`, where 32 bits can hold it.
    fn of_number(value: u64) -> (code: Result<Self, ZwlError>)
        ensures
            code == (if value <= 0xffff_ffff {
                Ok::<Self, ZwlError>(LikeU32(value as u32))
            } else {
                Err::<Self, ZwlError>(ZwlError::BitWidthOverflow)
            }),
    {
        if value <= 0xffff_ffff {
            Ok(LikeU32(value as u32))
        } else {
            Err(ZwlError::BitWidthOverflow)
        }
    }

    /// The code whose number the bits stand for, least significant bit first,
    /// where there are no more than 32 bits.
    fn of_bits(bits: &[bool]) -> (code: Result<Self, ZwlError>)
        ensures
            code == (if bits@.len() > 32 {
                Err::<Self, ZwlError>(ZwlError::Format)
            } else {
                Ok::<Self, ZwlError>(LikeU32(bits_value(bits@) as u32))
            }),
            bits@.len() <= 32 ==> bits_value(bits@) <= 0xffff_ffff,
    {
        if bits.len() > 32 {
            return Err(ZwlError::Format);
        }
        proof {
            lemma2_to64();
            lemma_bits_value_bound(bits@);
            if bits@.len() < 32 {
                lemma_pow2_strictly_increases(bits@.len(), 32);
            }
        }
        Ok(LikeU32(value_of(bits) as u32))
    }
}

impl PartialOrd for LikeU32 {
    /// Codes are ordered as their numbers are.
    fn partial_cmp(&self, other: &Self) -> (order: Option<Ordering>) {
        if self.0 < other.0 {
            Some(Ordering::Less)
        } else if self.0 == other.0 {
            Some(Ordering::Equal)
        } else {
            Some(Ordering::Greater)
        }
    }
}

impl PartialOrdSpecImpl for LikeU32 {
    open spec fn obeys_partial_cmp_spec() -> bool {
        true
    }

    open spec fn partial_cmp_spec(&self, other: &Self) -> Option<Ordering> {
        if self.0 < other.0 {
            Some(Ordering::Less)
        } else if self.0 == other.0 {
            Some(Ordering::Equal)
        } else {
            Some(Ordering::Greater)
        }
    }
}

impl Default for LikeU32 {
    /// The code 0.
    fn default() -> (code: Self)
        ensures
            code.number() == 0,
    {
        LikeU32(0)
    }
}

impl TryFrom<usize> for LikeU32 {
    type Error = ZwlError;

    /// The code with the number `value`. A number that 32 bits cannot hold is
    /// refused.
    fn try_from(value: usize) -> (code: Result<Self, ZwlError>) {
        LikeU32::of_number(value as u64)
    }
}

impl TryFromSpecImpl<usize> for LikeU32 {
    open spec fn obeys_try_from_spec() -> bool {
        true
    }

    open spec fn try_from_spec(value: usize) -> Result<Self, ZwlError> {
        if value <= 0xffff_ffff {
            Ok(LikeU32(value as u32))
        } else {
            Err(ZwlError::BitWidthOverflow)
        }
    }
}

impl TryFrom<LikeU32> for usize {
    type Error = ZwlError;

    /// The number of the code, where a `usize` can hold it.
    fn try_from(code: LikeU32) -> (value: Result<usize, ZwlError>) {
        if code.0 as u64 <= usize::MAX as u64 {
            Ok(code.0 as usize)
        } else {
            Err(ZwlError::BitWidthOverflow)
        }
    }
}

impl TryFromSpecImpl<LikeU32> for usize {
    open spec fn obeys_try_from_spec() -> bool {
        true
    }

    open spec fn try_from_spec(code: LikeU32) -> Result<usize, ZwlError> {
        if code.0 <= usize::MAX {
            Ok(code.0 as usize)
        } else {
            Err(ZwlError::BitWidthOverflow)
        }
    }
}

impl From<u8> for LikeU32 {
    /// The code of a byte.
    fn from(value: u8) -> (code: Self) {
        LikeU32(value as u32)
    }
}

impl FromSpecImpl<u8> for LikeU32 {
    open spec fn obeys_from_spec() -> bool {
        true
    }

    open spec fn from_spec(value: u8) -> Self {
        LikeU32(value as u32)
    }
}

impl Sub<LikeU32> for LikeU32 {
    type Output = LikeU32;

    /// The code that lies `rhs` below `self`, for an `rhs` that is no greater.
    fn sub(self, rhs: Self) -> (difference: Self) {
        LikeU32(self.0 - rhs.0)
    }
}

impl SubSpecImpl<LikeU32> for LikeU32 {
    open spec fn obeys_sub_spec() -> bool {
        true
    }

    open spec fn sub_req(self, rhs: LikeU32) -> bool {
        rhs.0 <= self.0
    }

    open spec fn sub_spec(self, rhs: LikeU32) -> LikeU32 {
        LikeU32((self.0 - rhs.0) as u32)
    }
}

impl TryFrom<&[bool]> for LikeU32 {
    type Error = ZwlError;

    /// The code whose number the bits stand for, least significant bit first.
    /// More than 32 bits are refused.
    fn try_from(value: &[bool]) -> (code: Result<Self, ZwlError>)
        ensures
            value@.len() <= 32 ==> code is Ok && code->Ok_0.number() == bits_value(value@),
            value@.len() > 32 ==> code == Err::<Self, ZwlError>(ZwlError::Format),
    {
        LikeU32::of_bits(value)
    }
}

impl TryFromSpecImpl<&[bool]> for LikeU32 {
    open spec fn obeys_try_from_spec() -> bool {
        true
    }

    open spec fn try_from_spec(value: &[bool]) -> Result<Self, ZwlError> {
        if value@.len() > 32 {
            Err(ZwlError::Format)
        } else {
            Ok(LikeU32(bits_value(value@) as u32))
        }
    }
}

impl Numeric for LikeU32 {
    open spec fn number(&self) -> nat {
        self.0 as nat
    }
}

impl CustomWriteSize for LikeU32 {
    open spec fn width() -> nat {
        32
    }

    fn custom_size() -> (size: usize) {
        32
    }
}

impl ToBits for LikeU32 {
    /// All 32 bits of the code.
    fn bits_vec(&self) -> (bits: Vec<bool>)
        ensures
            bits@.len() == 32,
    {
        proof {
            lemma2_to64();
            lemma_bit_length_bound(self.0 as nat, 32);
        }
        bits_of(self.0 as u64, 32)
    }
}

impl RequiredBits for LikeU32 {
    fn required_bits(&self) -> (n: usize) {
        length_of(self.0 as u64)
    }
}

impl LeadingZerosR for LikeU32 {
    fn leading_zeros(&self) -> (n: usize) {
        proof {
            lemma2_to64();
            lemma_bit_length_bound(self.0 as nat, 32);
        }
        32 - length_of(self.0 as u64)
    }
}

impl TrailingOnesR for LikeU32 {
    fn trailing_ones(&self) -> (n: usize) {
        trailing_ones_of(self.0 as u64)
    }
}

impl Code for LikeU32 {
    open spec fn initial_width() -> nat {
        32
    }

    proof fn lemma_widths() {
    }

    proof fn lemma_fits(&self) {
        lemma2_to64();
    }

    fn initial_size() -> (size: usize) {
        32
    }

    fn max_value() -> (max: Self) {
        proof {
            lemma2_to64();
        }
        LikeU32(0xffff_ffff)
    }

    fn from_byte(byte: u8) -> (code: Self) {
        LikeU32(byte as u32)
    }

    fn from_u64(value: u64) -> (code: Result<Self, ZwlError>) {
        proof {
            lemma2_to64();
        }
        LikeU32::of_number(value)
    }

    fn to_u64(&self) -> (value: u64) {
        self.0 as u64
    }

    fn from_bits(bits: &[bool]) -> (code: Result<Self, ZwlError>) {
        LikeU32::of_bits(bits)
    }
}

} // verus!
