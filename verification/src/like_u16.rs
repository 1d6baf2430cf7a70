//! Codes of 16 bits.

use crate::bits::{
    bits_of, bits_value, lemma_bit_length_bound, lemma_bits_value_bound, length_of,
    trailing_ones_of, value_of,
};
use crate::error::ZwlError;
use crate::traits::{
    Code, CustomWriteSize, LeadingZerosR, Numeric, RequiredBits, ToBits, TrailingOnesR,
};
use std::cmp::Ordering;
use std::ops::Sub;
use vstd::arithmetic::power2::{lemma2_to64, lemma_pow2_strictly_increases};
use vstd::prelude::*;
use vstd::std_specs::cmp::PartialOrdSpecImpl;
use vstd::std_specs::convert::{FromSpecImpl, TryFromSpecImpl};
use vstd::std_specs::ops::SubSpecImpl;

verus! {

/// A code of 16 bits, written at its full width throughout a stream.
#[derive(Clone, Copy, Debug, PartialEq, Eq, Structural)]
pub struct LikeU16(pub u16);

impl LikeU16 {
    /// The code with the number `value`, where 16 bits can hold it.
    fn of_number(value: u64) -> (code: Result<Self, ZwlError>)
        ensures
            code == (if value <= 0xffff {
                Ok::<Self, ZwlError>(LikeU16(value as u16))
            } else {
                Err::<Self, ZwlError>(ZwlError::BitWidthOverflow)
            }),
    {
        if value <= 0xffff {
            Ok(LikeU16(value as u16))
        } else {
            Err(ZwlError::BitWidthOverflow)
        }
    }

    /// The code whose number the bits stand for, least significant bit first,
    /// where there are no more than 16 bits.
    fn of_bits(bits: &[bool]) -> (code: Result<Self, ZwlError>)
        ensures
            code == (if bits@.len() > 16 {
                Err::<Self, ZwlError>(ZwlError::Format)
            } else {
                Ok::<Self, ZwlError>(LikeU16(bits_value(bits@) as u16))
            }),
            bits@.len() <= 16 ==> bits_value(bits@) <= 0xffff,
    {
        if bits.len() > 16 {
            return Err(ZwlError::Format);
        }
        proof {
            lemma2_to64();
            lemma_bits_value_bound(bits@);
            if bits@.len() < 16 {
                lemma_pow2_strictly_increases(bits@.len(), 16);
            }
        }
        Ok(LikeU16(value_of(bits) as u16))
    }
}

impl PartialOrd for LikeU16 {
    /// Codes are ordered as their numbers are.
    fn partial_cmp(&self, other: &Self) -> (order: Option<Ordering>) {
        if self.0 < other.0 {
            Some(Ordering::Less)
        } else if self.0 == other.0 {
            Some(Ordering::Equal)
        } else {
            Some(Ordering::Greater)
        }
    }
}

impl PartialOrdSpecImpl for LikeU16 {
    open spec fn obeys_partial_cmp_spec() -> bool {
        true
    }

    open spec fn partial_cmp_spec(&self, other: &Self) -> Option<Ordering> {
        if self.0 < other.0 {
            Some(Ordering::Less)
        } else if self.0 == other.0 {
            Some(Ordering::Equal)
        } else {
            Some(Ordering::Greater)
        }
    }
}

impl Default for LikeU16 {
    /// The code 0.
    fn default() -> (code: Self)
        ensures
            code.number() == 0,
    {
        LikeU16(0)
    }
}

impl TryFrom<usize> for LikeU16 {
    type Error = ZwlError;

    /// The code with the number `value`. A number that 16 bits cannot hold is
    /// refused.
    fn try_from(value: usize) -> (code: Result<Self, ZwlError>) {
        LikeU16::of_number(value as u64)
    }
}

impl TryFromSpecImpl<usize> for LikeU16 {
    open spec fn obeys_try_from_spec() -> bool {
        true
    }

    open spec fn try_from_spec(value: usize) -> Result<Self, ZwlError> {
        if value <= 0xffff {
            Ok(LikeU16(value as u16))
        } else {
            Err(ZwlError::BitWidthOverflow)
        }
    }
}

impl From<LikeU16> for usize {
    /// The number of the code.
    fn from(code: LikeU16) -> (value: usize) {
        code.0 as usize
    }
}

impl FromSpecImpl<LikeU16> for usize {
    open spec fn obeys_from_spec() -> bool {
        true
    }

    open spec fn from_spec(code: LikeU16) -> usize {
        code.0 as usize
    }
}

impl From<u8> for LikeU16 {
    /// The code of a byte.
    fn from(value: u8) -> (code: Self) {
        LikeU16(value as u16)
    }
}

impl FromSpecImpl<u8> for LikeU16 {
    open spec fn obeys_from_spec() -> bool {
        true
    }

    open spec fn from_spec(value: u8) -> Self {
        LikeU16(value as u16)
    }
}

impl Sub<LikeU16> for LikeU16 {
    type Output = LikeU16;

    /// The code that lies `rhs` below `self`, for an `rhs` that is no greater.
    fn sub(self, rhs: Self) -> (difference: Self) {
        LikeU16(self.0 - rhs.0)
    }
}

impl SubSpecImpl<LikeU16> for LikeU16 {
    open spec fn obeys_sub_spec() -> bool {
        true
    }

    open spec fn sub_req(self, rhs: LikeU16) -> bool {
        rhs.0 <= self.0
    }

    open spec fn sub_spec(self, rhs: LikeU16) -> LikeU16 {
        LikeU16((self.0 - rhs.0) as u16)
    }
}

impl TryFrom<&[bool]> for LikeU16 {
    type Error = ZwlError;

    /// The code whose number the bits stand for, least significant bit first.
    /// More than 16 bits are refused.
    fn try_from(value: &[bool]) -> (code: Result<Self, ZwlError>)
        ensures
            value@.len() <= 16 ==> code is Ok && code->Ok_0.number() == bits_value(value@),
            value@.len() > 16 ==> code == Err::<Self, ZwlError>(ZwlError::Format),
    {
        LikeU16::of_bits(value)
    }
}

impl TryFromSpecImpl<&[bool]> for LikeU16 {
    open spec fn obeys_try_from_spec() -> bool {
        true
    }

    open spec fn try_from_spec(value: &[bool]) -> Result<Self, ZwlError> {
        if value@.len() > 16 {
            Err(ZwlError::Format)
        } else {
            Ok(LikeU16(bits_value(value@) as u16))
        }
    }
}

impl Numeric for LikeU16 {
    open spec fn number(&self) -> nat {
        self.0 as nat
    }
}

impl CustomWriteSize for LikeU16 {
    open spec fn width() -> nat {
        16
    }

    fn custom_size() -> (size: usize) {
        16
    }
}

impl ToBits for LikeU16 {
    /// All 16 bits of the code.
    fn bits_vec(&self) -> (bits: Vec<bool>)
        ensures
            bits@.len() == 16,
    {
        proof {
            lemma2_to64();
            lemma_bit_length_bound(self.0 as nat, 16);
        }
        bits_of(self.0 as u64, 16)
    }
}

impl RequiredBits for LikeU16 {
    fn required_bits(&self) -> (n: usize) {
        length_of(self.0 as u64)
    }
}

impl LeadingZerosR for LikeU16 {
    fn leading_zeros(&self) -> (n: usize) {
        proof {
            lemma2_to64();
            lemma_bit_length_bound(self.0 as nat, 16);
        }
        16 - length_of(self.0 as u64)
    }
}

impl TrailingOnesR for LikeU16 {
    fn trailing_ones(&self) -> (n: usize) {
        trailing_ones_of(self.0 as u64)
    }
}

impl Code for LikeU16 {
    open spec fn initial_width() -> nat {
        16
    }

    proof fn lemma_widths() {
    }

    proof fn lemma_fits(&self) {
        lemma2_to64();
    }

    fn initial_size() -> (size: usize) {
        16
    }

    fn max_value() -> (max: Self) {
        proof {
            lemma2_to64();
        }
        LikeU16(0xffff)
    }

    fn from_byte(byte: u8) -> (code: Self) {
        LikeU16(byte as u16)
    }

    fn from_u64(value: u64) -> (code: Result<Self, ZwlError>) {
        proof {
            lemma2_to64();
        }
        LikeU16::of_number(value)
    }

    fn to_u64(&self) -> (value: u64) {
        self.0 as u64
    }

    fn from_bits(bits: &[bool]) -> (code: Result<Self, ZwlError>) {
        LikeU16::of_bits(bits)
    }
}

} // verus!
