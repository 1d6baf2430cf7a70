//! What holds of every stream: a decoder gets back what an encoder was
//! given, codes never get narrower, and wider codes are announced.

use crate::bit_decoder::{awaiting, decoded, receive, widened, DecoderState};
use crate::bit_encoder::{
    code_stream, coherent, emitted, encoded, lemma_byte_known, lemma_start_coherent,
    lemma_step_coherent, run, start, step, EncoderState,
};
use crate::bit_stream::{lemma_unpacked_packed, packed, padding, unpacked};
use crate::bits::{
    bits_value, lemma_bits_value_low_bits, lemma_ones_value, lemma_trailing_ones_full, low_bits,
    ones, trailing_ones, zeros,
};
use crate::dictionary::{
    lemma_phrase_len, lemma_phrase_new, lemma_phrase_stable, linked, lookup, phrase, pushed,
    table_len, FilledBehaviour,
};
use crate::error::ZwlError;
use crate::dispatch::{format_for, stream_for};
use crate::format::{
    format_of, lemma_format_of_valid, lemma_header_parses, lemma_small_widths, parsed_header,
    valid_format, Format, IndexWidth,
};
use crate::like_u12::LikeU12;
use crate::like_u16::LikeU16;
use crate::like_u32::LikeU32;
use crate::like_u64::LikeU64;
use crate::traits::Code;
use vstd::arithmetic::power2::{lemma_pow2_pos, pow2};
use vstd::prelude::*;

verus! {

/// The decoder has read every code that the encoder wrote: it is one phrase
/// behind, which it learns from the next code.
spec fn in_step(format: Format, encoder: EncoderState, decoder: DecoderState) -> bool {
    &&& decoder.size_req == encoder.size_req
    &&& match decoder.old_index {
        None => encoder.words.len() == 0 && decoder.words.len() == 0,
        Some(old_index) => {
            &&& linked(decoder.words)
            &&& old_index < table_len(decoder.words)
            &&& decoder.old_sequence == phrase(decoder.words, old_index)
            &&& encoder.index is Some
            &&& encoder.words == pushed(
                decoder.words,
                (encoder.sequence[0], old_index),
                format.limit,
                format.filled,
            )
        },
    }
}

/// What the decoder makes of the code in hand of an encoder that it is in
/// step with: the bytes in hand, and the encoder's dictionary.
proof fn lemma_receive_in_step(format: Format, encoder: EncoderState, decoder: DecoderState)
    requires
        valid_format(format),
        coherent(format, encoder),
        in_step(format, encoder, decoder),
        encoder.index is Some,
    ensures
        receive(format, decoder, encoder.index->Some_0) matches Ok(next) && next.words
            == encoder.words && next.old_index == encoder.index && next.old_sequence
            == encoder.sequence && next.output == decoder.output + encoder.sequence
            && next.size_req == decoder.size_req,
{
    let code = encoder.index->Some_0;
    match decoder.old_index {
        None => {
            lemma_phrase_len(encoder.words, code);
        },
        Some(old_index) => {
            lemma_phrase_len(encoder.words, code);
            lemma_phrase_len(decoder.words, old_index);
            let first = encoder.sequence[0];
            if table_len(decoder.words) >= format.limit {
                match format.filled {
                    FilledBehaviour::Clear => {
                        lemma_phrase_len(decoder.words, code);
                    },
                    FilledBehaviour::Freeze => {},
                }
            } else {
                lemma_phrase_new(decoder.words, (first, old_index));
                if code < table_len(decoder.words) {
                    lemma_phrase_stable(decoder.words, (first, old_index), code);
                } else {
                    assert(encoder.sequence == decoder.old_sequence.push(first));
                    assert(decoder.old_sequence.push(first)[0] == decoder.old_sequence[0]);
                }
            }
        },
    }
}

/// The decoder reads a code as the number that the encoder wrote, and takes
/// no code for an escape.
proof fn lemma_read_code(code: nat, size: nat, tail: Seq<bool>)
    requires
        code + 1 < pow2(size),
    ensures
        (low_bits(code, size) + tail).take(size as int) == low_bits(code, size),
        (low_bits(code, size) + tail).skip(size as int) == tail,
        bits_value(low_bits(code, size)) == code,
        trailing_ones(code) != size,
{
    assert((low_bits(code, size) + tail).take(size as int) =~= low_bits(code, size));
    assert((low_bits(code, size) + tail).skip(size as int) =~= tail);
    lemma_bits_value_low_bits(code, size);
    lemma_trailing_ones_full(code, size);
}

/// The decoder reads an escape as one.
proof fn lemma_read_escape(size: nat, tail: Seq<bool>)
    ensures
        (ones(size) + tail).take(size as int) == ones(size),
        (ones(size) + tail).skip(size as int) == tail,
        trailing_ones(bits_value(ones(size))) == size,
{
    assert((ones(size) + tail).take(size as int) =~= ones(size));
    assert((ones(size) + tail).skip(size as int) =~= tail);
    lemma_ones_value(size);
    lemma_pow2_pos(size);
    lemma_trailing_ones_full(bits_value(ones(size)), size);
}

/// From any point of a stream on, a decoder in step with the encoder writes
/// the bytes that the encoder has in hand and then those that it still gets,
/// and ends with the encoder's dictionary.
proof fn lemma_round_trip_from(
    format: Format,
    encoder: EncoderState,
    decoder: DecoderState,
    rest: Seq<u8>,
    pad: Seq<bool>,
)
    requires
        valid_format(format),
        coherent(format, encoder),
        in_step(format, encoder, decoder),
        pad.len() < format.initial,
    ensures
        decoded(format, decoder, encoded(format, encoder, rest) + pad) matches Ok(end)
            && end.output == decoder.output + encoder.sequence + rest && end.words == run(
            format,
            encoder,
            rest,
        ).words,
    decreases rest.len(),
{
    let size = encoder.size_req;
    if rest.len() == 0 {
        match encoder.index {
            Some(code) => {
                lemma_read_code(code, size, pad);
                lemma_receive_in_step(format, encoder, decoder);
                let next = receive(format, decoder, code)->Ok_0;
                assert(decoded(format, next, pad) == Ok::<DecoderState, ZwlError>(next));
                assert(decoder.output + encoder.sequence + rest =~= decoder.output
                    + encoder.sequence);
            },
            None => {
                assert(encoded(format, encoder, rest) + pad =~= pad);
                assert(decoder.output + encoder.sequence + rest =~= decoder.output);
            },
        }
    } else {
        let byte = rest[0];
        let tail = rest.skip(1);
        let next = step(format, encoder, byte);
        let extended = encoder.sequence.push(byte);
        lemma_step_coherent(format, encoder, byte);
        match (lookup(encoder.words, extended), encoder.index) {
            (Some(code), _) => {
                assert(emitted(format, encoder, byte) + encoded(format, next, tail) + pad
                    =~= encoded(format, next, tail) + pad);
                if encoder.index is Some {
                    lemma_phrase_len(encoder.words, encoder.index->Some_0);
                }
                assert(extended[0] == if encoder.sequence.len() > 0 {
                    encoder.sequence[0]
                } else {
                    byte
                });
                lemma_round_trip_from(format, next, decoder, tail, pad);
                assert(decoder.output + extended + tail =~= decoder.output + encoder.sequence
                    + rest);
            },
            (None, Some(code)) => {
                let escape = if next.size_req > size {
                    ones(size)
                } else {
                    Seq::<bool>::empty()
                };
                let after = escape + (encoded(format, next, tail) + pad);
                assert(encoded(format, encoder, rest) + pad =~= low_bits(code, size) + after);
                lemma_read_code(code, size, after);
                lemma_receive_in_step(format, encoder, decoder);
                let received = receive(format, decoder, code)->Ok_0;
                let widened_decoder = DecoderState { size_req: next.size_req, ..received };
                let whole = low_bits(code, size) + after;
                assert(whole.len() >= size);
                assert(decoded(format, decoder, whole) == decoded(format, received, after));
                if next.size_req > size {
                    lemma_read_escape(size, encoded(format, next, tail) + pad);
                    assert(after.len() >= size);
                    assert(widened(format, size) == next.size_req);
                    assert(decoded(format, received, after) == decoded(
                        format,
                        widened_decoder,
                        encoded(format, next, tail) + pad,
                    ));
                } else {
                    assert(after =~= encoded(format, next, tail) + pad);
                    assert(widened_decoder == received);
                }
                lemma_round_trip_from(format, next, widened_decoder, tail, pad);
                assert(widened_decoder.output + next.sequence + tail =~= decoder.output
                    + encoder.sequence + rest);
            },
            (None, None) => {
                lemma_byte_known(encoder.words, byte);
                assert(extended =~= seq![byte]);
            },
        }
    }
}

/// Decoding gives back what was encoded: for every sequence of bytes, the
/// decoder of a format reads the packed stream that the encoder of that
/// format writes for it, writes exactly those bytes, and ends with the
/// dictionary that the encoder ended with.
pub proof fn lemma_round_trip(format: Format, input: Seq<u8>)
    requires
        valid_format(format),
    ensures
        decoded(format, awaiting(format), unpacked(packed(code_stream(format, input)))) matches Ok(
            end,
        ) && end.output == input && end.words == run(format, start(format), input).words,
{
    let bits = code_stream(format, input);
    lemma_unpacked_packed(bits);
    lemma_start_coherent(format);
    lemma_small_widths(format);
    lemma_round_trip_from(format, start(format), awaiting(format), input, zeros(padding(bits.len())));
    assert(Seq::<u8>::empty() + Seq::<u8>::empty() + input =~= input);
}

/// Decoding gives back what was encoded, for every code type and both
/// overflow policies.
pub proof fn lemma_round_trip_of<T: Code>(filled: FilledBehaviour, input: Seq<u8>)
    ensures
        decoded(
            format_of::<T>(filled),
            awaiting(format_of::<T>(filled)),
            unpacked(packed(code_stream(format_of::<T>(filled), input))),
        ) matches Ok(end) && end.output == input,
{
    lemma_format_of_valid::<T>(filled);
    lemma_round_trip(format_of::<T>(filled), input);
}

/// A stream with header is read back as what it was written for: its header
/// names the code type and the overflow policy that it was written with, and
/// the decoder for them writes the bytes that were encoded.
pub proof fn lemma_stream_round_trip(width: IndexWidth, filled: FilledBehaviour, input: Seq<u8>)
    ensures
        parsed_header(stream_for(width, filled, input)) == Ok::<
            (IndexWidth, FilledBehaviour),
            ZwlError,
        >((width, filled)),
        decoded(
            format_for(width, filled),
            awaiting(format_for(width, filled)),
            unpacked(stream_for(width, filled, input).skip(2)),
        ) matches Ok(end) && end.output == input,
{
    let format = format_for(width, filled);
    lemma_header_parses(width, filled, packed(code_stream(format, input)));
    match width {
        IndexWidth::U12 => lemma_round_trip_of::<LikeU12>(filled, input),
        IndexWidth::U16 => lemma_round_trip_of::<LikeU16>(filled, input),
        IndexWidth::U32 => lemma_round_trip_of::<LikeU32>(filled, input),
        IndexWidth::U64 => lemma_round_trip_of::<LikeU64>(filled, input),
    }
}

} // verus!
