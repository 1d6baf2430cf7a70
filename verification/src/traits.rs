//! What the codec asks of a code type.

use crate::bits::{bit_length, bits_value, low_bits, trailing_ones};
use crate::error::ZwlError;
use vstd::arithmetic::power2::pow2;
use vstd::prelude::*;

verus! {

/// A value that stands for a natural number: a code for the entry it
/// denotes, a dictionary for the number of its entries.
pub trait Numeric {
    /// The number that `self` stands for.
    spec fn number(&self) -> nat;
}

/// Values that can be written as bits, least significant bit first.
pub trait ToBits: Numeric {
    /// The bits of the number, least significant first. All set bits are among
    /// them; how many clear bits follow the highest set bit is up to the type.
    fn bits_vec(&self) -> (bits: Vec<bool>)
        ensures
            bits@ == low_bits(self.number(), bits@.len()),
            bit_length(self.number()) <= bits@.len() <= 64,
    ;
}

/// Types with a declared width in bits.
pub trait CustomWriteSize {
    /// The declared width of the type, in bits.
    spec fn width() -> nat;

    /// The declared width of the type, in bits.
    fn custom_size() -> (size: usize)
        ensures
            size as nat == Self::width(),
    ;
}

/// Values that know how many bits their number needs.
pub trait RequiredBits: Numeric {
    /// The number of bits that the number needs: the declared width less the
    /// leading clear bits.
    fn required_bits(&self) -> (n: usize)
        ensures
            n as nat == bit_length(self.number()),
    ;
}

/// Values that know how many clear bits lead their number at the declared
/// width.
pub trait LeadingZerosR: Numeric + CustomWriteSize {
    /// The number of clear bits above the highest set bit.
    fn leading_zeros(&self) -> (n: usize)
        ensures
            n as nat + bit_length(self.number()) == Self::width(),
    ;
}

/// Values that know how many set bits end their number.
pub trait TrailingOnesR: Numeric {
    /// The number of set bits below the lowest clear bit.
    fn trailing_ones(&self) -> (n: usize)
        ensures
            n as nat == trailing_ones(self.number()),
    ;
}

/// A code: an index into a dictionary, of a declared width in bits.
///
/// A stream of codes starts at `initial_width` bits for each code. A type
/// whose initial width is its declared width is written at that width
/// throughout; one that starts lower grows as the dictionary does.
pub trait Code: Copy + Numeric + CustomWriteSize + ToBits + RequiredBits + LeadingZerosR + TrailingOnesR {
    /// The number of bits at which the first code of a stream is written.
    spec fn initial_width() -> nat;

    /// Every byte has a code at the initial width, which lies within the
    /// declared width.
    proof fn lemma_widths()
        ensures
            9 <= Self::initial_width() <= Self::width() <= 64,
    ;

    /// The number of a code fits in the declared width.
    proof fn lemma_fits(&self)
        ensures
            self.number() < pow2(Self::width()),
    ;

    /// The number of bits at which the first code of a stream is written.
    fn initial_size() -> (size: usize)
        ensures
            size as nat == Self::initial_width(),
    ;

    /// The greatest code of the type: all bits of the declared width set.
    fn max_value() -> (max: Self)
        ensures
            max.number() + 1 == pow2(Self::width()),
    ;

    /// The code of a byte.
    fn from_byte(byte: u8) -> (code: Self)
        ensures
            code.number() == byte as nat,
    ;

    /// The code with the number `value`, where the declared width can hold it.
    fn from_u64(value: u64) -> (code: Result<Self, ZwlError>)
        ensures
            (value as nat) < pow2(Self::width()) ==> code is Ok && code->Ok_0.number()
                == value as nat,
            (value as nat) >= pow2(Self::width()) ==> code == Err::<Self, ZwlError>(
                ZwlError::BitWidthOverflow,
            ),
    ;

    /// The number of the code.
    fn to_u64(&self) -> (value: u64)
        ensures
            value as nat == self.number(),
    ;

    /// The code whose number the bits stand for, least significant bit first,
    /// where there are no more bits than the declared width.
    fn from_bits(bits: &[bool]) -> (code: Result<Self, ZwlError>)
        ensures
            bits@.len() <= Self::width() ==> code is Ok && code->Ok_0.number() == bits_value(
                bits@,
            ),
            bits@.len() > Self::width() ==> code == Err::<Self, ZwlError>(ZwlError::Format),
    ;
}

} // verus!
