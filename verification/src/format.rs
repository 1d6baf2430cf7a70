//! The parameters of a stream and its two-byte header.

use crate::dictionary::{capacity, FilledBehaviour};
use crate::error::ZwlError;
use crate::traits::Code;
use vstd::arithmetic::power2::{
    lemma2_to64, lemma_pow2_pos, lemma_pow2_strictly_increases, pow2,
};
use vstd::prelude::*;

verus! {

/// What encoder and decoder of one stream agree on.
pub struct Format {
    /// The declared width of a code, in bits.
    pub width: nat,
    /// The number of bits at which the first code is written.
    pub initial: nat,
    /// The number of codes that the dictionary holds at most.
    pub limit: nat,
    /// What the dictionary does with a new phrase once it is full.
    pub filled: FilledBehaviour,
}

/// The format of the streams of codes of type `T`.
pub open spec fn format_of<T: Code>(filled: FilledBehaviour) -> Format {
    Format { width: T::width(), initial: T::initial_width(), limit: capacity(T::width()), filled }
}

/// A format in which every byte has a code at the initial width, no code is
/// wider than declared, and the greatest code of the declared width is never
/// given to a phrase.
pub open spec fn valid_format(format: Format) -> bool {
    &&& 9 <= format.initial <= format.width
    &&& format.limit < pow2(format.width)
}

/// The formats of the code types are valid.
pub proof fn lemma_format_of_valid<T: Code>(filled: FilledBehaviour)
    ensures
        valid_format(format_of::<T>(filled)),
{
    T::lemma_widths();
    lemma_pow2_pos(T::width());
}

/// The powers of two that bound the codes of a valid format.
pub proof fn lemma_small_widths(format: Format)
    requires
        valid_format(format),
    ensures
        256 < pow2(9),
        pow2(9) <= pow2(format.initial) <= pow2(format.width),
{
    lemma2_to64();
    if 9 < format.initial {
        lemma_pow2_strictly_increases(9, format.initial);
    }
    if format.initial < format.width {
        lemma_pow2_strictly_increases(format.initial, format.width);
    }
}

/// The header's byte for an overflow policy.
pub open spec fn filled_tag(filled: FilledBehaviour) -> u8 {
    match filled {
        FilledBehaviour::Clear => 0,
        FilledBehaviour::Freeze => 1,
    }
}

/// The header of a stream: the declared width of its codes, then the
/// overflow policy of its dictionary.
pub open spec fn header(width: nat, filled: FilledBehaviour) -> Seq<u8> {
    seq![width as u8, filled_tag(filled)]
}

/// The code types that a header can name.
#[derive(Clone, Copy, Debug, PartialEq, Eq, Structural)]
pub enum IndexWidth {
    /// Codes of 12 bits.
    U12,
    /// Codes of 16 bits.
    U16,
    /// Codes of 32 bits.
    U32,
    /// Codes of 64 bits.
    U64,
}

/// The declared width of the codes of a type, in bits.
pub open spec fn width_bits(width: IndexWidth) -> nat {
    match width {
        IndexWidth::U12 => 12,
        IndexWidth::U16 => 16,
        IndexWidth::U32 => 32,
        IndexWidth::U64 => 64,
    }
}

/// The code type with the declared width `byte`, if there is one.
pub open spec fn width_of_byte(byte: u8) -> Option<IndexWidth> {
    if byte == 12 {
        Some(IndexWidth::U12)
    } else if byte == 16 {
        Some(IndexWidth::U16)
    } else if byte == 32 {
        Some(IndexWidth::U32)
    } else if byte == 64 {
        Some(IndexWidth::U64)
    } else {
        None
    }
}

/// The overflow policy with the tag `byte`, if there is one.
pub open spec fn filled_of_byte(byte: u8) -> Option<FilledBehaviour> {
    if byte == 0 {
        Some(FilledBehaviour::Clear)
    } else if byte == 1 {
        Some(FilledBehaviour::Freeze)
    } else {
        None
    }
}

/// What the first two bytes of `bytes` say, where they are a header.
pub open spec fn parsed_header(bytes: Seq<u8>) -> Result<(IndexWidth, FilledBehaviour), ZwlError> {
    if bytes.len() < 2 {
        Err(ZwlError::Format)
    } else {
        match (width_of_byte(bytes[0]), filled_of_byte(bytes[1])) {
            (Some(width), Some(filled)) => Ok((width, filled)),
            _ => Err(ZwlError::Format),
        }
    }
}

/// A header is read as what it was written for, and the stream of codes
/// starts right after it.
pub proof fn lemma_header_parses(width: IndexWidth, filled: FilledBehaviour, payload: Seq<u8>)
    ensures
        parsed_header(header(width_bits(width), filled) + payload) == Ok::<
            (IndexWidth, FilledBehaviour),
            ZwlError,
        >((width, filled)),
        (header(width_bits(width), filled) + payload).skip(2) == payload,
{
    let stream = header(width_bits(width), filled) + payload;
    assert(stream[0] == width_bits(width) as u8);
    assert(stream[1] == filled_tag(filled));
    assert(stream.skip(2) =~= payload);
}

/// The overflow policy that the second byte of a header names: 0 for a
/// dictionary that clears itself, 1 for one that freezes.
pub fn filled_of(byte: u8) -> (filled: Option<FilledBehaviour>)
    ensures
        filled == filled_of_byte(byte),
{
    match byte {
        0 => Some(FilledBehaviour::Clear),
        1 => Some(FilledBehaviour::Freeze),
        _ => None,
    }
}

/// The code type that the first byte of a header names: the one with that
/// declared width.
pub fn width_of(byte: u8) -> (width: Option<IndexWidth>)
    ensures
        width == width_of_byte(byte),
{
    match byte {
        12 => Some(IndexWidth::U12),
        16 => Some(IndexWidth::U16),
        32 => Some(IndexWidth::U32),
        64 => Some(IndexWidth::U64),
        _ => None,
    }
}

/// Reads the header of a stream: the code type and the overflow policy. A
/// stream of fewer than two bytes, an unknown policy and an unknown width are
/// refused.
pub fn parse_header(bytes: &[u8]) -> (parsed: Result<(IndexWidth, FilledBehaviour), ZwlError>)
    ensures
        parsed == parsed_header(bytes@),
{
    if bytes.len() < 2 {
        return Err(ZwlError::Format);
    }
    let filled_behaviour = match filled_of(bytes[1]) {
        Some(filled_behaviour) => filled_behaviour,
        None => {
            return Err(ZwlError::Format);
        },
    };
    match width_of(bytes[0]) {
        Some(index_bit_size) => Ok((index_bit_size, filled_behaviour)),
        None => Err(ZwlError::Format),
    }
}

} // verus!
