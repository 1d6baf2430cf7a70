//! Encoder and decoder by code type: the encoder for a type that the caller
//! names, the decoder for the type that the header of a stream names.

use crate::bit_decoder::{awaiting, decoded, ZwlBitDecoder};
use crate::bit_encoder::{code_stream, ZwlBitEncoder};
use crate::bit_stream::{packed, unpacked};
use crate::dictionary::FilledBehaviour;
use crate::error::ZwlError;
use crate::format::{
    format_of, header, parse_header, parsed_header, width_bits, Format, IndexWidth,
};
use crate::like_u12::LikeU12;
use crate::like_u16::LikeU16;
use crate::like_u32::LikeU32;
use crate::like_u64::LikeU64;
use vstd::prelude::*;
use vstd::std_specs::convert::FromSpecImpl;

verus! {

/// The format of the streams of codes of the type that `width` names.
pub open spec fn format_for(width: IndexWidth, filled: FilledBehaviour) -> Format {
    match width {
        IndexWidth::U12 => format_of::<LikeU12>(filled),
        IndexWidth::U16 => format_of::<LikeU16>(filled),
        IndexWidth::U32 => format_of::<LikeU32>(filled),
        IndexWidth::U64 => format_of::<LikeU64>(filled),
    }
}

/// The stream with header that stands for `input` in codes of the type that
/// `width` names.
pub open spec fn stream_for(width: IndexWidth, filled: FilledBehaviour, input: Seq<u8>) -> Seq<u8> {
    header(width_bits(width), filled) + packed(code_stream(format_for(width, filled), input))
}

/// Encodes `input` into a stream with header, in codes of the type that
/// `width` names.
pub fn encode_as(width: IndexWidth, input: Vec<u8>, filled: FilledBehaviour) -> (output: Vec<u8>)
    ensures
        output@ == stream_for(width, filled, input@),
{
    match width {
        IndexWidth::U12 => ZwlBitEncoder::<LikeU12>::new(input, filled).encode(),
        IndexWidth::U16 => ZwlBitEncoder::<LikeU16>::new(input, filled).encode(),
        IndexWidth::U32 => ZwlBitEncoder::<LikeU32>::new(input, filled).encode(),
        IndexWidth::U64 => ZwlBitEncoder::<LikeU64>::new(input, filled).encode(),
    }
}

/// A decoder for one of the code types that a header can name.
pub enum ZwlDecoderE {
    /// A decoder for codes of 12 bits.
    DU12(ZwlBitDecoder<LikeU12>),
    /// A decoder for codes of 16 bits.
    DU16(ZwlBitDecoder<LikeU16>),
    /// A decoder for codes of 32 bits.
    DU32(ZwlBitDecoder<LikeU32>),
    /// A decoder for codes of 64 bits.
    DU64(ZwlBitDecoder<LikeU64>),
}

impl From<ZwlBitDecoder<LikeU12>> for ZwlDecoderE {
    fn from(value: ZwlBitDecoder<LikeU12>) -> (decoder: Self) {
        Self::DU12(value)
    }
}

impl FromSpecImpl<ZwlBitDecoder<LikeU12>> for ZwlDecoderE {
    open spec fn obeys_from_spec() -> bool {
        true
    }

    open spec fn from_spec(value: ZwlBitDecoder<LikeU12>) -> Self {
        Self::DU12(value)
    }
}

impl From<ZwlBitDecoder<LikeU16>> for ZwlDecoderE {
    fn from(value: ZwlBitDecoder<LikeU16>) -> (decoder: Self) {
        Self::DU16(value)
    }
}

impl FromSpecImpl<ZwlBitDecoder<LikeU16>> for ZwlDecoderE {
    open spec fn obeys_from_spec() -> bool {
        true
    }

    open spec fn from_spec(value: ZwlBitDecoder<LikeU16>) -> Self {
        Self::DU16(value)
    }
}

impl From<ZwlBitDecoder<LikeU32>> for ZwlDecoderE {
    fn from(value: ZwlBitDecoder<LikeU32>) -> (decoder: Self) {
        Self::DU32(value)
    }
}

impl FromSpecImpl<ZwlBitDecoder<LikeU32>> for ZwlDecoderE {
    open spec fn obeys_from_spec() -> bool {
        true
    }

    open spec fn from_spec(value: ZwlBitDecoder<LikeU32>) -> Self {
        Self::DU32(value)
    }
}

impl From<ZwlBitDecoder<LikeU64>> for ZwlDecoderE {
    fn from(value: ZwlBitDecoder<LikeU64>) -> (decoder: Self) {
        Self::DU64(value)
    }
}

impl FromSpecImpl<ZwlBitDecoder<LikeU64>> for ZwlDecoderE {
    open spec fn obeys_from_spec() -> bool {
        true
    }

    open spec fn from_spec(value: ZwlBitDecoder<LikeU64>) -> Self {
        Self::DU64(value)
    }
}

impl ZwlDecoderE {
    /// The code type of the decoder.
    pub open spec fn index_width(&self) -> IndexWidth {
        match self {
            ZwlDecoderE::DU12(_) => IndexWidth::U12,
            ZwlDecoderE::DU16(_) => IndexWidth::U16,
            ZwlDecoderE::DU32(_) => IndexWidth::U32,
            ZwlDecoderE::DU64(_) => IndexWidth::U64,
        }
    }

    /// The bytes of the stream, without header.
    pub open spec fn input(&self) -> Seq<u8> {
        match self {
            ZwlDecoderE::DU12(decoder) => decoder.input(),
            ZwlDecoderE::DU16(decoder) => decoder.input(),
            ZwlDecoderE::DU32(decoder) => decoder.input(),
            ZwlDecoderE::DU64(decoder) => decoder.input(),
        }
    }

    /// What the decoder's dictionary does once it is full.
    pub open spec fn filled(&self) -> FilledBehaviour {
        match self {
            ZwlDecoderE::DU12(decoder) => decoder.filled(),
            ZwlDecoderE::DU16(decoder) => decoder.filled(),
            ZwlDecoderE::DU32(decoder) => decoder.filled(),
            ZwlDecoderE::DU64(decoder) => decoder.filled(),
        }
    }

    /// The phrases that the last run of the decoder learned.
    pub open spec fn words(&self) -> Seq<(u8, nat)> {
        match self {
            ZwlDecoderE::DU12(decoder) => decoder.words(),
            ZwlDecoderE::DU16(decoder) => decoder.words(),
            ZwlDecoderE::DU32(decoder) => decoder.words(),
            ZwlDecoderE::DU64(decoder) => decoder.words(),
        }
    }

    /// The decoder's dictionary is well formed.
    pub open spec fn wf(&self) -> bool {
        match self {
            ZwlDecoderE::DU12(decoder) => decoder.wf(),
            ZwlDecoderE::DU16(decoder) => decoder.wf(),
            ZwlDecoderE::DU32(decoder) => decoder.wf(),
            ZwlDecoderE::DU64(decoder) => decoder.wf(),
        }
    }

    /// The format of the streams that the decoder reads.
    pub open spec fn format(&self) -> Format {
        format_for(self.index_width(), self.filled())
    }

    /// Decodes the stream with the decoder of its code type, starting from a
    /// fresh dictionary: the bytes that its codes stand for, or the reason for
    /// which it is refused.
    pub fn decode(&mut self) -> (output: Result<Vec<u8>, ZwlError>)
        ensures
            final(self).index_width() == old(self).index_width(),
            final(self).input() == old(self).input(),
            final(self).filled() == old(self).filled(),
            match (output, decoded(
                old(self).format(),
                awaiting(old(self).format()),
                unpacked(old(self).input()),
            )) {
                (Ok(bytes), Ok(end)) => bytes@ == end.output && final(self).words() == end.words,
                (Err(error), Err(reason)) => error == reason,
                _ => false,
            },
            final(self).wf(),
    {
        match self {
            ZwlDecoderE::DU12(zwl_decoder) => zwl_decoder.decode(),
            ZwlDecoderE::DU16(zwl_decoder) => zwl_decoder.decode(),
            ZwlDecoderE::DU32(zwl_decoder) => zwl_decoder.decode(),
            ZwlDecoderE::DU64(zwl_decoder) => zwl_decoder.decode(),
        }
    }
}

/// The decoder for a stream with header: a fresh one for the code type that
/// the first byte names, with the overflow policy that the second byte names,
/// over the bytes after the two. A stream without a header of this form is
/// refused.
pub fn get_decoder(file: Vec<u8>) -> (decoder: Result<ZwlDecoderE, ZwlError>)
    ensures
        match parsed_header(file@) {
            Ok((width, filled)) => decoder matches Ok(chosen) && chosen.index_width() == width
                && chosen.filled() == filled && chosen.input() == file@.skip(2)
                && chosen.words() == Seq::<(u8, nat)>::empty() && chosen.wf(),
            Err(reason) => decoder matches Err(error) && error == reason,
        },
{
    let ghost whole = file@;
    let mut file = file;
    let (index_bit_size, filled_behaviour) = match parse_header(file.as_slice()) {
        Ok(parsed) => parsed,
        Err(error) => {
            return Err(error);
        },
    };
    let rest = file.split_off(2);
    assert(rest@ =~= whole.skip(2));
    match index_bit_size {
        IndexWidth::U12 => Ok(
            ZwlDecoderE::from(ZwlBitDecoder::<LikeU12>::new(rest, filled_behaviour)),
        ),
        IndexWidth::U16 => Ok(
            ZwlDecoderE::from(ZwlBitDecoder::<LikeU16>::new(rest, filled_behaviour)),
        ),
        IndexWidth::U32 => Ok(
            ZwlDecoderE::from(ZwlBitDecoder::<LikeU32>::new(rest, filled_behaviour)),
        ),
        IndexWidth::U64 => Ok(
            ZwlDecoderE::from(ZwlBitDecoder::<LikeU64>::new(rest, filled_behaviour)),
        ),
    }
}

} // verus!
