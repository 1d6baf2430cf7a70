//! Codes of 12 bits.

use crate::bits::{
    bits_of, bits_value, lemma_bit_length_bound, lemma_bits_value_bound, length_of,
    trailing_ones_of, value_of,
};
use crate::error::ZwlError;
use crate::traits::{
    Code, CustomWriteSize, LeadingZerosR, Numeric, RequiredBits, ToBits, TrailingOnesR,
};
use std::cmp::Ordering;
use std::ops::Sub;
use vstd::arithmetic::power2::{lemma2_to64, lemma_pow2_strictly_increases};
use vstd::prelude::*;
use vstd::std_specs::cmp::{PartialEqSpecImpl, PartialOrdSpecImpl};
use vstd::std_specs::convert::{FromSpecImpl, TryFromSpecImpl};
use vstd::std_specs::ops::SubSpecImpl;

verus! {

/// A code of 12 bits. A stream of such codes starts at 9 bits for each code
/// and widens as its dictionary grows.
#[derive(Clone, Copy, Debug, Eq)]
pub struct LikeU12(u16);

impl LikeU12 {
    /// The number of the code.
    fn low(&self) -> (value: u16)
        ensures
            value as nat == self.number(),
            value < 0x1000,
    {
        self.0 % 0x1000
    }

    /// The code with the number `value`, where 12 bits can hold it.
    fn of_number(value: u64) -> (code: Result<Self, ZwlError>)
        ensures
            code == (if value < 0x1000 {
                Ok::<Self, ZwlError>(LikeU12(value as u16))
            } else {
                Err::<Self, ZwlError>(ZwlError::BitWidthOverflow)
            }),
            value < 0x1000 ==> code->Ok_0.number() == value,
    {
        if value < 0x1000 {
            Ok(LikeU12(value as u16))
        } else {
            Err(ZwlError::BitWidthOverflow)
        }
    }

    /// The code whose number the bits stand for, least significant bit first,
    /// where there are no more than 12 bits.
    fn of_bits(bits: &[bool]) -> (code: Result<Self, ZwlError>)
        ensures
            code == (if bits@.len() > 12 {
                Err::<Self, ZwlError>(ZwlError::Format)
            } else {
                Ok::<Self, ZwlError>(LikeU12(bits_value(bits@) as u16))
            }),
            bits@.len() <= 12 ==> code->Ok_0.number() == bits_value(bits@),
    {
        if bits.len() > 12 {
            return Err(ZwlError::Format);
        }
        proof {
            lemma2_to64();
            lemma_bits_value_bound(bits@);
            if bits@.len() < 12 {
                lemma_pow2_strictly_increases(bits@.len(), 12);
            }
        }
        Ok(LikeU12(value_of(bits) as u16))
    }
}

impl PartialEq for LikeU12 {
    /// Codes are equal where their numbers are.
    fn eq(&self, other: &Self) -> (equal: bool) {
        self.low() == other.low()
    }
}

impl PartialEqSpecImpl for LikeU12 {
    open spec fn obeys_eq_spec() -> bool {
        true
    }

    open spec fn eq_spec(&self, other: &Self) -> bool {
        self.number() == other.number()
    }
}

impl PartialOrd for LikeU12 {
    /// Codes are ordered as their numbers are.
    fn partial_cmp(&self, other: &Self) -> (order: Option<Ordering>) {
        if self.low() < other.low() {
            Some(Ordering::Less)
        } else if self.low() == other.low() {
            Some(Ordering::Equal)
        } else {
            Some(Ordering::Greater)
        }
    }
}

impl PartialOrdSpecImpl for LikeU12 {
    open spec fn obeys_partial_cmp_spec() -> bool {
        true
    }

    open spec fn partial_cmp_spec(&self, other: &Self) -> Option<Ordering> {
        if self.number() < other.number() {
            Some(Ordering::Less)
        } else if self.number() == other.number() {
            Some(Ordering::Equal)
        } else {
            Some(Ordering::Greater)
        }
    }
}

impl Default for LikeU12 {
    /// The code 0.
    fn default() -> (code: Self)
        ensures
            code.number() == 0,
    {
        LikeU12(0)
    }
}

impl TryFrom<usize> for LikeU12 {
    type Error = ZwlError;

    /// The code with the number `value`. A number that 12 bits cannot hold is
    /// refused.
    fn try_from(value: usize) -> (code: Result<Self, ZwlError>)
        ensures
            value < 0x1000 ==> code is Ok && code->Ok_0.number() == value,
            value >= 0x1000 ==> code == Err::<Self, ZwlError>(ZwlError::BitWidthOverflow),
    {
        LikeU12::of_number(value as u64)
    }
}

impl TryFromSpecImpl<usize> for LikeU12 {
    open spec fn obeys_try_from_spec() -> bool {
        true
    }

    closed spec fn try_from_spec(value: usize) -> Result<Self, ZwlError> {
        if value < 0x1000 {
            Ok(LikeU12(value as u16))
        } else {
            Err(ZwlError::BitWidthOverflow)
        }
    }
}

impl From<LikeU12> for usize {
    /// The number of the code.
    fn from(code: LikeU12) -> (value: usize) {
        code.low() as usize
    }
}

impl FromSpecImpl<LikeU12> for usize {
    open spec fn obeys_from_spec() -> bool {
        true
    }

    open spec fn from_spec(code: LikeU12) -> usize {
        code.number() as usize
    }
}

impl From<u8> for LikeU12 {
    /// The code of a byte.
    fn from(value: u8) -> (code: Self)
        ensures
            code.number() == value,
    {
        LikeU12(value as u16)
    }
}

impl FromSpecImpl<u8> for LikeU12 {
    open spec fn obeys_from_spec() -> bool {
        true
    }

    closed spec fn from_spec(value: u8) -> Self {
        LikeU12(value as u16)
    }
}

impl Sub<LikeU12> for LikeU12 {
    type Output = LikeU12;

    /// The code that lies `rhs` below `self`, for an `rhs` that is no greater.
    fn sub(self, rhs: Self) -> (difference: Self)
        ensures
            difference.number() == self.number() - rhs.number(),
    {
        LikeU12(self.low() - rhs.low())
    }
}

impl SubSpecImpl<LikeU12> for LikeU12 {
    open spec fn obeys_sub_spec() -> bool {
        true
    }

    open spec fn sub_req(self, rhs: LikeU12) -> bool {
        rhs.number() <= self.number()
    }

    closed spec fn sub_spec(self, rhs: LikeU12) -> LikeU12 {
        LikeU12((self.0 % 0x1000 - rhs.0 % 0x1000) as u16)
    }
}

impl TryFrom<&[bool]> for LikeU12 {
    type Error = ZwlError;

    /// The code whose number the bits stand for, least significant bit first.
    /// More than 12 bits are refused.
    fn try_from(value: &[bool]) -> (code: Result<Self, ZwlError>)
        ensures
            value@.len() <= 12 ==> code is Ok && code->Ok_0.number() == bits_value(value@),
            value@.len() > 12 ==> code == Err::<Self, ZwlError>(ZwlError::Format),
    {
        LikeU12::of_bits(value)
    }
}

impl TryFromSpecImpl<&[bool]> for LikeU12 {
    open spec fn obeys_try_from_spec() -> bool {
        true
    }

    closed spec fn try_from_spec(value: &[bool]) -> Result<Self, ZwlError> {
        if value@.len() > 12 {
            Err(ZwlError::Format)
        } else {
            Ok(LikeU12(bits_value(value@) as u16))
        }
    }
}

impl Numeric for LikeU12 {
    /// The 12 low bits of what is stored.
    closed spec fn number(&self) -> nat {
        (self.0 % 0x1000) as nat
    }
}

impl CustomWriteSize for LikeU12 {
    open spec fn width() -> nat {
        12
    }

    fn custom_size() -> (size: usize) {
        12
    }
}

impl ToBits for LikeU12 {
    /// All 12 bits of the code.
    fn bits_vec(&self) -> (bits: Vec<bool>)
        ensures
            bits@.len() == 12,
    {
        let value = self.low();
        proof {
            lemma2_to64();
            lemma_bit_length_bound(value as nat, 12);
        }
        bits_of(value as u64, 12)
    }
}

impl RequiredBits for LikeU12 {
    fn required_bits(&self) -> (n: usize) {
        length_of(self.low() as u64)
    }
}

impl LeadingZerosR for LikeU12 {
    fn leading_zeros(&self) -> (n: usize) {
        let value = self.low();
        proof {
            lemma2_to64();
            lemma_bit_length_bound(value as nat, 12);
        }
        12 - length_of(value as u64)
    }
}

impl TrailingOnesR for LikeU12 {
    fn trailing_ones(&self) -> (n: usize) {
        trailing_ones_of(self.low() as u64)
    }
}

impl Code for LikeU12 {
    open spec fn initial_width() -> nat {
        9
    }

    proof fn lemma_widths() {
    }

    proof fn lemma_fits(&self) {
        lemma2_to64();
    }

    fn initial_size() -> (size: usize) {
        9
    }

    fn max_value() -> (max: Self) {
        proof {
            lemma2_to64();
        }
        LikeU12(0xfff)
    }

    fn from_byte(byte: u8) -> (code: Self) {
        LikeU12(byte as u16)
    }

    fn from_u64(value: u64) -> (code: Result<Self, ZwlError>) {
        proof {
            lemma2_to64();
        }
        LikeU12::of_number(value)
    }

    fn to_u64(&self) -> (value: u64) {
        self.low() as u64
    }

    fn from_bits(bits: &[bool]) -> (code: Result<Self, ZwlError>) {
        proof {
            lemma2_to64();
        }
        LikeU12::of_bits(bits)
    }
}

} // verus!
