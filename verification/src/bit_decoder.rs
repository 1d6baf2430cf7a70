//! The decoder: a stream of codes in, the bytes that it stands for out.

use crate::bit_stream::{unpacked, BitReader};
use crate::bits::{bits_value, trailing_ones};
use crate::dictionary::{
    lemma_phrase_len, phrase, pushed, table_len, Dictionary, FilledBehaviour,
};
use crate::error::ZwlError;
use crate::format::{format_of, Format};
use crate::traits::Code;
use vstd::arithmetic::power2::lemma_pow2_pos;
use vstd::prelude::*;

verus! {

/// What a decoder has in hand between two codes of its stream.
pub struct DecoderState {
    /// The learned phrases.
    pub words: Seq<(u8, nat)>,
    /// The code of the phrase written last; none before the first code.
    pub old_index: Option<nat>,
    /// The phrase written last.
    pub old_sequence: Seq<u8>,
    /// The number of bits of the next code.
    pub size_req: nat,
    /// The bytes written so far.
    pub output: Seq<u8>,
}

/// The state before the first code.
pub open spec fn awaiting(format: Format) -> DecoderState {
    DecoderState {
        words: Seq::empty(),
        old_index: None,
        old_sequence: Seq::empty(),
        size_req: format.initial,
        output: Seq::empty(),
    }
}

/// The state after the code `code`.
///
/// The first code of a stream is a byte. Each later code adds a phrase to
/// the dictionary: the phrase written last, followed by the first byte of the
/// phrase written now. A code that the dictionary does not have stands for
/// that new phrase itself. A stream whose first code is no byte, or in which
/// the code written last has left the dictionary, is refused.
pub open spec fn receive(format: Format, state: DecoderState, code: nat) -> Result<
    DecoderState,
    ZwlError,
> {
    match state.old_index {
        None => if code < 256 {
            Ok(
                DecoderState {
                    old_index: Some(code),
                    old_sequence: seq![code as u8],
                    output: state.output + seq![code as u8],
                    ..state
                },
            )
        } else {
            Err(ZwlError::DictionaryInvariantViolation)
        },
        Some(old_index) => if old_index >= table_len(state.words) {
            Err(ZwlError::DictionaryInvariantViolation)
        } else if code < table_len(state.words) {
            let sequence = phrase(state.words, code);
            Ok(
                DecoderState {
                    words: pushed(
                        state.words,
                        (sequence[0], old_index),
                        format.limit,
                        format.filled,
                    ),
                    old_index: Some(code),
                    old_sequence: sequence,
                    output: state.output + sequence,
                    ..state
                },
            )
        } else {
            let sequence = state.old_sequence.push(state.old_sequence[0]);
            let words = pushed(
                state.words,
                (state.old_sequence[0], old_index),
                format.limit,
                format.filled,
            );
            Ok(
                DecoderState {
                    words,
                    old_index: Some((table_len(words) - 1) as nat),
                    old_sequence: sequence,
                    output: state.output + sequence,
                    ..state
                },
            )
        },
    }
}

/// The number of bits of a code after an escape: one more, or 9 again where
/// codes had their declared width already.
pub open spec fn widened(format: Format, size_req: nat) -> nat {
    if size_req == format.width {
        9
    } else {
        size_req + 1
    }
}

/// The state after all codes of `bits`, or the reason for which the stream
/// is refused.
///
/// The stream is read in groups of `size_req` bits, lowest bit of a code
/// first, until fewer bits than that are left. After the first code, a group
/// of set bits alone is an escape: it stands for no code, and the groups
/// after it are wider.
pub open spec fn decoded(format: Format, state: DecoderState, bits: Seq<bool>) -> Result<
    DecoderState,
    ZwlError,
>
    decreases bits.len(),
{
    if state.size_req == 0 || bits.len() < state.size_req {
        Ok(state)
    } else {
        let code = bits_value(bits.take(state.size_req as int));
        let rest = bits.skip(state.size_req as int);
        if state.old_index is Some && trailing_ones(code) == state.size_req {
            decoded(
                format,
                DecoderState { size_req: widened(format, state.size_req), ..state },
                rest,
            )
        } else {
            match receive(format, state, code) {
                Ok(next) => decoded(format, next, rest),
                Err(error) => Err(error),
            }
        }
    }
}

/// A decoder for codes of type `T`, with the stream that it is to decode.
pub struct ZwlBitDecoder<T> {
    input: Vec<u8>,
    dictionary: Dictionary<T>,
    old_sequence: Vec<u8>,
    old_index: Option<T>,
}

impl<T: Code> ZwlBitDecoder<T> {
    /// The bytes of the stream, without header.
    pub closed spec fn input(&self) -> Seq<u8> {
        self.input@
    }

    /// What the decoder's dictionary does once it is full.
    pub closed spec fn filled(&self) -> FilledBehaviour {
        self.dictionary.filled
    }

    /// The phrases that the last run of the decoder learned.
    pub closed spec fn words(&self) -> Seq<(u8, nat)> {
        self.dictionary@
    }

    /// The format of the streams that the decoder reads.
    pub open spec fn format(&self) -> Format {
        format_of::<T>(self.filled())
    }

    /// The decoder's dictionary is well formed.
    pub closed spec fn wf(&self) -> bool {
        self.dictionary.wf()
    }

    /// The dictionary as the last run of the decoder left it.
    pub fn dictionary(&self) -> (dictionary: &Dictionary<T>)
        ensures
            dictionary@ == self.words(),
            dictionary.filled == self.filled(),
            self.wf() ==> dictionary.wf(),
    {
        &self.dictionary
    }

    /// A decoder for the stream `input`, which has no header, whose dictionary
    /// follows `dictionary_filled` once it is full.
    pub fn new(input: Vec<u8>, dictionary_filled: FilledBehaviour) -> (decoder: Self)
        ensures
            decoder.input() == input@,
            decoder.filled() == dictionary_filled,
            decoder.words() == Seq::<(u8, nat)>::empty(),
            decoder.wf(),
    {
        let mut dictionary = Dictionary::default();
        dictionary.filled = dictionary_filled;
        ZwlBitDecoder { input, dictionary, old_sequence: Vec::new(), old_index: None }
    }

    /// Decodes the stream, starting from a fresh dictionary: the bytes that
    /// its codes stand for, or the reason for which it is refused. Bits at the
    /// end that are fewer than a code are passed over.
    pub fn decode(&mut self) -> (output: Result<Vec<u8>, ZwlError>)
        ensures
            final(self).input() == old(self).input(),
            final(self).filled() == old(self).filled(),
            match (output, decoded(
                old(self).format(),
                awaiting(old(self).format()),
                unpacked(old(self).input()),
            )) {
                (Ok(bytes), Ok(end)) => bytes@ == end.output && final(self).words() == end.words,
                (Err(error), Err(reason)) => error == reason,
                _ => false,
            },
            final(self).wf(),
    {
        let ghost format = self.format();
        let ghost all = unpacked(self.input@);
        self.dictionary = Dictionary::new(self.dictionary.filled);
        self.old_sequence = Vec::new();
        self.old_index = None;
        let mut readable = BitReader::new(self.input.as_slice());
        let mut size_req: usize = T::initial_size();
        let mut output: Vec<u8> = Vec::new();
        let ghost mut state = awaiting(format);
        proof {
            T::lemma_widths();
        }
        loop
            invariant
                format == format_of::<T>(self.dictionary.filled),
                self.dictionary.filled == old(self).dictionary.filled,
                self.input@ == old(self).input@,
                all == unpacked(old(self).input@),
                self.dictionary.wf(),
                readable.wf(),
                1 <= size_req <= T::width() <= 64,
                9 <= T::initial_width() <= T::width(),
                state.words == self.dictionary@,
                state.old_sequence == self.old_sequence@,
                state.size_req == size_req as nat,
                state.output == output@,
                match self.old_index {
                    Some(code) => state.old_index == Some(code.number()) && state.old_sequence.len()
                        >= 1,
                    None => state.old_index is None,
                },
                decoded(format, awaiting(format), all) == decoded(
                    format,
                    state,
                    readable.remaining(),
                ),
            decreases readable.remaining().len(),
        {
            let ghost bits = readable.remaining();
            let index_v = match readable.read_bits(size_req) {
                Some(index_v) => index_v,
                None => {
                    return Ok(output);
                },
            };
            let index = match T::from_bits(index_v.as_slice()) {
                Ok(index) => index,
                Err(error) => {
                    return Err(error);
                },
            };
            assert(index.number() == bits_value(bits.take(size_req as int)));
            match self.old_index {
                None => {
                    let code = index.to_u64();
                    if code >= 256 {
                        return Err(ZwlError::DictionaryInvariantViolation);
                    }
                    let sequence: Vec<u8> = vec![code as u8];
                    output.push(code as u8);
                    self.old_index = Some(index);
                    self.old_sequence = sequence;
                    proof {
                        state = receive(format, state, index.number())->Ok_0;
                        assert(self.old_sequence@ =~= state.old_sequence);
                        assert(output@ =~= state.output);
                    }
                },
                Some(old_index) => {
                    if index.trailing_ones() == size_req {
                        if T::custom_size() == size_req {
                            size_req = 9;
                        } else {
                            size_req = size_req + 1;
                        }
                        proof {
                            state = DecoderState { size_req: widened(format, state.size_req), ..state };
                        }
                        continue ;
                    }
                    if old_index.to_u64() >= self.dictionary.len() as u64 {
                        return Err(ZwlError::DictionaryInvariantViolation);
                    }
                    let found = self.dictionary.get_phrase(index);
                    match found {
                        Some(sequence) => {
                            proof {
                                lemma_phrase_len(self.dictionary@, index.number());
                            }
                            append(&mut output, &sequence);
                            self.dictionary.push(&(sequence[0], old_index));
                            self.old_index = Some(index);
                            self.old_sequence = sequence;
                        },
                        None => {
                            let mut sequence = self.old_sequence.clone();
                            sequence.push(self.old_sequence[0]);
                            append(&mut output, &sequence);
                            self.dictionary.push(&(self.old_sequence[0], old_index));
                            let last = (self.dictionary.len() - 1) as u64;
                            proof {
                                lemma_pow2_pos(T::width());
                            }
                            match T::from_u64(last) {
                                Ok(code) => {
                                    self.old_index = Some(code);
                                },
                                Err(error) => {
                                    return Err(error);
                                },
                            }
                            self.old_sequence = sequence;
                        },
                    }
                    proof {
                        state = receive(format, state, index.number())->Ok_0;
                    }
                },
            }
        }
    }
}

/// Appends the bytes of `tail` to `output`.
fn append(output: &mut Vec<u8>, tail: &Vec<u8>)
    ensures
        final(output)@ == old(output)@ + tail@,
{
    let mut i: usize = 0;
    while i < tail.len()
        invariant
            i <= tail@.len(),
            output@ == old(output)@ + tail@.take(i as int),
        decreases tail@.len() - i,
    {
        output.push(tail[i]);
        i = i + 1;
        assert(output@ =~= old(output)@ + tail@.take(i as int));
    }
    assert(tail@.take(i as int) =~= tail@);
}

} // verus!
