//! The encoder: bytes in, a stream of codes out.

use crate::bit_stream::{lemma_packed_after_bytes, packed, unpacked, BitWriter};
use crate::bits::{bit_length, lemma_bit_at_high, lemma_bit_length_bound, low_bits, ones};
use crate::dictionary::{
    known, lemma_phrase_len, lemma_phrase_new, lemma_unique_empty, lemma_unique_push, linked,
    lookup, phrase, pushed, table_len, unique, Dictionary, FilledBehaviour,
};
use crate::format::{
    filled_tag, format_of, header, lemma_small_widths, valid_format, Format,
};
use crate::traits::{Code, RequiredBits};
use vstd::arithmetic::power2::{lemma_pow2_unfold, pow2};
use vstd::prelude::*;

verus! {

/// What an encoder has in hand between two bytes of its input.
pub struct EncoderState {
    /// The learned phrases.
    pub words: Seq<(u8, nat)>,
    /// The bytes read since the last code was written: the longest phrase of
    /// the dictionary found at this place so far.
    pub sequence: Seq<u8>,
    /// The code of `sequence`; none before the first byte.
    pub index: Option<nat>,
    /// The number of bits at which the next code is written.
    pub size_req: nat,
}

/// The state before the first byte.
pub open spec fn start(format: Format) -> EncoderState {
    EncoderState {
        words: Seq::empty(),
        sequence: Seq::empty(),
        index: None,
        size_req: format.initial,
    }
}

/// The state after `byte`.
///
/// Where the dictionary knows the bytes in hand followed by `byte`, the
/// encoder goes on with that longer phrase. Otherwise the phrase in hand is
/// complete: the longer one gets the next code, and the encoder goes on with
/// `byte` alone. When the dictionary has grown so that its size needs more
/// bits than codes are written with, codes are written with that many bits
/// from then on.
pub open spec fn step(format: Format, state: EncoderState, byte: u8) -> EncoderState {
    let extended = state.sequence.push(byte);
    match (lookup(state.words, extended), state.index) {
        (Some(code), _) => EncoderState { sequence: extended, index: Some(code), ..state },
        (None, Some(index)) => {
            let words = pushed(state.words, (byte, index), format.limit, format.filled);
            let required = bit_length(table_len(words));
            EncoderState {
                words,
                sequence: seq![byte],
                index: Some(byte as nat),
                size_req: if required > state.size_req {
                    required
                } else {
                    state.size_req
                },
            }
        },
        (None, None) => state,
    }
}

/// The bits written on `byte`.
///
/// Nothing is written while the phrase in hand grows. When it is complete, its
/// code is written with `size_req` bits, lowest bit first. When codes are to
/// be written with more bits from then on, an escape follows at once:
/// `size_req` set bits.
pub open spec fn emitted(format: Format, state: EncoderState, byte: u8) -> Seq<bool> {
    match (lookup(state.words, state.sequence.push(byte)), state.index) {
        (None, Some(index)) => {
            let next = step(format, state, byte);
            low_bits(index, state.size_req) + if next.size_req > state.size_req {
                ones(state.size_req)
            } else {
                Seq::empty()
            }
        },
        _ => Seq::empty(),
    }
}

/// The state after all of `input`.
pub open spec fn run(format: Format, state: EncoderState, input: Seq<u8>) -> EncoderState
    decreases input.len(),
{
    if input.len() == 0 {
        state
    } else {
        run(format, step(format, state, input[0]), input.skip(1))
    }
}

/// The bits written for `input`: those written on each byte, and at the end
/// the code of the phrase in hand.
pub open spec fn encoded(format: Format, state: EncoderState, input: Seq<u8>) -> Seq<bool>
    decreases input.len(),
{
    if input.len() == 0 {
        match state.index {
            Some(index) => low_bits(index, state.size_req),
            None => Seq::empty(),
        }
    } else {
        emitted(format, state, input[0]) + encoded(
            format,
            step(format, state, input[0]),
            input.skip(1),
        )
    }
}

/// The bits of a stream without header for `input`.
pub open spec fn code_stream(format: Format, input: Seq<u8>) -> Seq<bool> {
    encoded(format, start(format), input)
}

/// Nothing is written for an empty input.
pub proof fn lemma_empty_input(format: Format)
    ensures
        code_stream(format, Seq::empty()) == Seq::<bool>::empty(),
        packed(code_stream(format, Seq::empty())) == Seq::<u8>::empty(),
{
    assert(packed(Seq::<bool>::empty()) =~= Seq::<u8>::empty());
}

/// What holds of an encoder between two bytes: its dictionary is sound, the
/// code in hand denotes the bytes in hand, and every code fits in the bits
/// that codes are written with, the escape excepted.
pub open spec fn coherent(format: Format, state: EncoderState) -> bool {
    &&& linked(state.words)
    &&& unique(state.words)
    &&& format.initial <= state.size_req <= format.width
    &&& table_len(state.words) < pow2(state.size_req)
    &&& (table_len(state.words) <= format.limit || state.words.len() == 0)
    &&& match state.index {
        Some(code) => code < table_len(state.words) && phrase(state.words, code)
            == state.sequence,
        None => state.sequence.len() == 0,
    }
}

/// The start is coherent.
pub proof fn lemma_start_coherent(format: Format)
    requires
        valid_format(format),
    ensures
        coherent(format, start(format)),
{
    lemma_unique_empty();
    lemma_small_widths(format);
}

/// A byte alone is always known.
pub proof fn lemma_byte_known(words: Seq<(u8, nat)>, byte: u8)
    ensures
        known(words, seq![byte]),
        phrase(words, byte as nat) == seq![byte],
{
    assert(phrase(words, byte as nat) =~= seq![byte]);
}

/// One byte keeps the encoder coherent, and the codes get wider by one bit at
/// most, within the declared width.
pub proof fn lemma_step_coherent(format: Format, state: EncoderState, byte: u8)
    requires
        valid_format(format),
        coherent(format, state),
    ensures
        coherent(format, step(format, state, byte)),
        step(format, state, byte).size_req == state.size_req || (step(
            format,
            state,
            byte,
        ).size_req == state.size_req + 1 && state.size_req < format.width),
        step(format, state, byte).index is Some,
{
    let extended = state.sequence.push(byte);
    let next = step(format, state, byte);
    lemma_small_widths(format);
    match (lookup(state.words, extended), state.index) {
        (Some(code), _) => {},
        (None, Some(index)) => {
            let words = next.words;
            lemma_byte_known(words, byte);
            lemma_unique_empty();
            if table_len(state.words) < format.limit {
                lemma_phrase_new(state.words, (byte, index));
                lemma_unique_push(state.words, (byte, index));
                lemma_pow2_unfold(state.size_req + 1);
                lemma_bit_length_bound(table_len(words), state.size_req + 1);
            } else {
                lemma_bit_length_bound(table_len(words), state.size_req);
            }
            lemma_bit_length_bound(table_len(words), bit_length(table_len(words)));
            lemma_bit_length_bound(table_len(words), format.width);
            lemma_bit_length_bound(table_len(words), state.size_req);
        },
        (None, None) => {
            lemma_byte_known(state.words, byte);
            assert(extended =~= seq![byte]);
        },
    }
}

/// Every state that an encoder reaches from a coherent one is coherent. In
/// particular, at no point of a stream do two codes of the encoder's
/// dictionary denote the same phrase.
pub proof fn lemma_run_coherent(format: Format, state: EncoderState, input: Seq<u8>)
    requires
        valid_format(format),
        coherent(format, state),
    ensures
        coherent(format, run(format, state, input)),
        unique(run(format, state, input).words),
    decreases input.len(),
{
    if input.len() > 0 {
        lemma_step_coherent(format, state, input[0]);
        lemma_run_coherent(format, step(format, state, input[0]), input.skip(1));
    }
}

/// At no point of a stream do two codes of the encoder's dictionary denote
/// the same phrase: a search finds one code for a phrase, or none.
pub proof fn lemma_encoder_unique(format: Format, input: Seq<u8>)
    requires
        valid_format(format),
    ensures
        unique(run(format, start(format), input).words),
        linked(run(format, start(format), input).words),
{
    lemma_start_coherent(format);
    lemma_run_coherent(format, start(format), input);
}

/// Encoding a sequence of bytes is encoding its first part and going on
/// from there with the rest.
pub proof fn lemma_run_split(format: Format, state: EncoderState, first: Seq<u8>, rest: Seq<u8>)
    ensures
        run(format, state, first + rest) == run(format, run(format, state, first), rest),
    decreases first.len(),
{
    if first.len() == 0 {
        assert(first + rest =~= rest);
    } else {
        assert((first + rest).skip(1) =~= first.skip(1) + rest);
        lemma_run_split(format, step(format, state, first[0]), first.skip(1), rest);
    }
}

/// A byte makes codes wider or leaves their width as it is. When it makes
/// them wider, the last bits written on it are an escape of the width before:
/// that many set bits. When it does not, no more bits are written on it than
/// one code has.
pub proof fn lemma_growth_is_announced(format: Format, state: EncoderState, byte: u8)
    ensures
        step(format, state, byte).size_req >= state.size_req,
        step(format, state, byte).size_req > state.size_req ==> {
            let bits = emitted(format, state, byte);
            bits.len() == 2 * state.size_req && bits.skip(state.size_req as int) == ones(
                state.size_req,
            )
        },
        step(format, state, byte).size_req == state.size_req ==> emitted(
            format,
            state,
            byte,
        ).len() <= state.size_req,
{
    let bits = emitted(format, state, byte);
    if step(format, state, byte).size_req > state.size_req {
        assert(bits.skip(state.size_req as int) =~= ones(state.size_req));
    }
}

/// Over the course of one stream the width of the codes never goes down: after
/// more bytes of the input it is at least what it was after fewer.
pub proof fn lemma_size_req_monotonic(format: Format, input: Seq<u8>, fewer: int, more: int)
    requires
        0 <= fewer <= more <= input.len(),
    ensures
        run(format, start(format), input.take(fewer)).size_req <= run(
            format,
            start(format),
            input.take(more),
        ).size_req,
{
    let first = input.take(fewer);
    let rest = input.subrange(fewer, more);
    assert(input.take(more) =~= first + rest);
    lemma_run_split(format, start(format), first, rest);
    lemma_run_grows(format, run(format, start(format), first), rest);
}

/// The width of the codes after any bytes is at least what it was before.
pub proof fn lemma_run_grows(format: Format, state: EncoderState, input: Seq<u8>)
    ensures
        run(format, state, input).size_req >= state.size_req,
    decreases input.len(),
{
    if input.len() > 0 {
        lemma_growth_is_announced(format, state, input[0]);
        lemma_run_grows(format, step(format, state, input[0]), input.skip(1));
    }
}

/// The code `code` as `size` bits, lowest bit first: clear bits are added to
/// its own bits, or its highest bits are left out.
pub fn code_bits<T: Code>(code: &T, size: usize) -> (target: Vec<bool>)
    ensures
        target@ == low_bits(code.number(), size as nat),
{
    let mut target = code.bits_vec();
    let ghost own = target@.len();
    proof {
        lemma_bit_length_bound(code.number(), own);
    }
    if target.len() < size {
        while target.len() < size
            invariant
                own <= target@.len() <= size,
                code.number() < pow2(own),
                target@ == low_bits(code.number(), target@.len()),
            decreases size - target@.len(),
        {
            proof {
                lemma_bit_at_high(code.number(), own, target@.len());
            }
            target.push(false);
            assert(target@ =~= low_bits(code.number(), target@.len()));
        }
    } else {
        target.truncate(size);
        assert(target@ =~= low_bits(code.number(), size as nat));
    }
    target
}

/// `size` set bits: the escape that announces wider codes.
pub fn escape_bits(size: usize) -> (target: Vec<bool>)
    ensures
        target@ == ones(size as nat),
{
    let mut target: Vec<bool> = Vec::new();
    while target.len() < size
        invariant
            target@.len() <= size,
            target@ == ones(target@.len()),
        decreases size - target@.len(),
    {
        target.push(true);
        assert(target@ =~= ones(target@.len()));
    }
    target
}

/// An encoder for codes of type `T`, with the bytes that it is to encode.
pub struct ZwlBitEncoder<T> {
    input: Vec<u8>,
    dictionary: Dictionary<T>,
    sequence: Vec<u8>,
    current_symbol: Option<u8>,
    index: Option<T>,
}

impl<T: Code> ZwlBitEncoder<T> {
    /// The bytes that the encoder encodes.
    pub closed spec fn input(&self) -> Seq<u8> {
        self.input@
    }

    /// What the encoder's dictionary does once it is full.
    pub closed spec fn filled(&self) -> FilledBehaviour {
        self.dictionary.filled
    }

    /// The phrases that the last run of the encoder learned.
    pub closed spec fn words(&self) -> Seq<(u8, nat)> {
        self.dictionary@
    }

    /// The format of the streams that the encoder writes.
    pub open spec fn format(&self) -> Format {
        format_of::<T>(self.filled())
    }

    /// The encoder's dictionary is well formed.
    pub closed spec fn wf(&self) -> bool {
        self.dictionary.wf()
    }

    /// The dictionary as the last run of the encoder left it.
    pub fn dictionary(&self) -> (dictionary: &Dictionary<T>)
        ensures
            dictionary@ == self.words(),
            dictionary.filled == self.filled(),
            self.wf() ==> dictionary.wf(),
    {
        &self.dictionary
    }

    /// An encoder for `input` whose dictionary follows `dictionary_filled`
    /// once it is full.
    pub fn new(input: Vec<u8>, dictionary_filled: FilledBehaviour) -> (encoder: Self)
        ensures
            encoder.input() == input@,
            encoder.filled() == dictionary_filled,
            encoder.words() == Seq::<(u8, nat)>::empty(),
            encoder.wf(),
    {
        let mut dictionary = Dictionary::default();
        dictionary.filled = dictionary_filled;
        ZwlBitEncoder { input, dictionary, sequence: Vec::new(), current_symbol: None, index: None }
    }

    /// The first byte of a header: the declared width of the codes.
    pub fn header_bit_size() -> (bit_size: u8)
        ensures
            bit_size as nat == T::width(),
    {
        proof {
            T::lemma_widths();
        }
        T::custom_size() as u8
    }

    /// Appends the header of a stream to `output`: the declared width of the
    /// codes, then 0 for a dictionary that clears itself and 1 for one that
    /// freezes.
    pub fn write_header(output: &mut Vec<u8>, dictionary_filled: &FilledBehaviour)
        ensures
            final(output)@ == old(output)@ + header(T::width(), *dictionary_filled),
    {
        let bit_size = Self::header_bit_size();
        output.push(bit_size);
        match dictionary_filled {
            FilledBehaviour::Clear => output.push(0),
            FilledBehaviour::Freeze => output.push(1),
        }
        assert(output@ =~= old(output)@ + header(T::width(), *dictionary_filled));
    }

    /// Encodes the input into a stream with its header: the declared width of
    /// the codes, the overflow policy, then the codes.
    pub fn encode(&mut self) -> (output: Vec<u8>)
        ensures
            output@ == header(T::width(), old(self).filled()) + packed(
                code_stream(old(self).format(), old(self).input()),
            ),
            output@.len() >= 2,
            output@[0] as nat == T::width(),
            output@[1] == filled_tag(old(self).filled()),
            final(self).input() == old(self).input(),
            final(self).filled() == old(self).filled(),
            final(self).words() == run(
                old(self).format(),
                start(old(self).format()),
                old(self).input(),
            ).words,
            final(self).wf(),
            unique(final(self).words()),
    {
        let mut output: Vec<u8> = Vec::new();
        Self::write_header(&mut output, &self.dictionary.filled);
        assert(output@ =~= header(T::width(), self.dictionary.filled));
        proof {
            T::lemma_widths();
        }
        self.encode_after(output)
    }

    /// Encodes the input into a stream without header.
    pub fn encode_headerless(&mut self) -> (output: Vec<u8>)
        ensures
            output@ == packed(code_stream(old(self).format(), old(self).input())),
            final(self).input() == old(self).input(),
            final(self).filled() == old(self).filled(),
            final(self).words() == run(
                old(self).format(),
                start(old(self).format()),
                old(self).input(),
            ).words,
            final(self).wf(),
            unique(final(self).words()),
    {
        let output = self.encode_after(Vec::new());
        assert(Seq::<u8>::empty() + packed(code_stream(old(self).format(), old(self).input()))
            =~= packed(code_stream(old(self).format(), old(self).input())));
        output
    }

    /// Encodes the input, starting from a fresh dictionary, and appends the
    /// stream to `head`.
    fn encode_after(&mut self, head: Vec<u8>) -> (output: Vec<u8>)
        ensures
            output@ == head@ + packed(code_stream(old(self).format(), old(self).input())),
            final(self).input() == old(self).input(),
            final(self).filled() == old(self).filled(),
            final(self).words() == run(
                old(self).format(),
                start(old(self).format()),
                old(self).input(),
            ).words,
            final(self).wf(),
            unique(final(self).words()),
    {
        let ghost format = self.format();
        let ghost input = self.input@;
        self.dictionary = Dictionary::new(self.dictionary.filled);
        self.sequence = Vec::new();
        self.current_symbol = None;
        self.index = None;
        let mut writtable = BitWriter::new(head);
        let mut size_req: usize = T::initial_size();
        let ghost mut state = start(format);
        let ghost mut written: Seq<bool> = Seq::empty();
        let mut i: usize = 0;
        proof {
            lemma_unique_empty();
            T::lemma_widths();
            assert(input.skip(0) =~= input);
            assert(writtable@ =~= unpacked(head@) + written);
        }
        while i < self.input.len()
            invariant
                i <= input.len(),
                self.input@ == input,
                format == format_of::<T>(self.dictionary.filled),
                self.dictionary.filled == old(self).dictionary.filled,
                self.dictionary.wf(),
                unique(self.dictionary@),
                writtable.wf(),
                writtable@ == unpacked(head@) + written,
                state.words == self.dictionary@,
                state.sequence == self.sequence@,
                state.size_req == size_req as nat,
                match self.index {
                    Some(code) => state.index == Some(code.number()) && code.number() < table_len(
                        state.words,
                    ) && phrase(state.words, code.number()) == state.sequence,
                    None => state.index is None && state.sequence.len() == 0,
                },
                code_stream(format, input) == written + encoded(format, state, input.skip(i as int)),
                run(format, start(format), input) == run(format, state, input.skip(i as int)),
            decreases input.len() - i,
        {
            let byte = self.input[i];
            let ghost rest = input.skip(i as int);
            assert(rest[0] == byte);
            assert(rest.skip(1) =~= input.skip(i + 1));
            self.current_symbol = Some(byte);
            self.sequence.push(byte);
            let found = self.dictionary.find(self.sequence.as_slice());
            match found {
                Some(found) => {
                    self.index = Some(found);
                    proof {
                        written = written + emitted(format, state, byte);
                        state = step(format, state, byte);
                    }
                },
                None => {
                    match self.index {
                        Some(t) => {
                            let target = code_bits(&t, size_req);
                            writtable.write_bits(target.as_slice());
                            proof {
                                lemma_unique_empty();
                                if table_len(self.dictionary@) < format.limit {
                                    lemma_unique_push(self.dictionary@, (byte, t.number()));
                                }
                            }
                            self.dictionary.push(&(byte, t));
                            let new_required_bits = self.dictionary.required_bits();
                            if new_required_bits > size_req {
                                let output = escape_bits(size_req);
                                writtable.write_bits(output.as_slice());
                                size_req = new_required_bits;
                            }
                            proof {
                                written = written + emitted(format, state, byte);
                                state = step(format, state, byte);
                                assert(writtable@ =~= unpacked(head@) + written);
                            }
                        },
                        None => {
                            proof {
                                lemma_phrase_len(self.dictionary@, byte as nat);
                                assert(phrase(self.dictionary@, byte as nat) =~= self.sequence@);
                                assert(known(self.dictionary@, self.sequence@));
                            }
                        },
                    }
                    self.sequence = Vec::new();
                    self.sequence.push(byte);
                    self.index = Some(T::from_byte(byte));
                    proof {
                        lemma_phrase_len(self.dictionary@, byte as nat);
                    }
                },
            }
            i = i + 1;
        }
        proof {
            assert(input.skip(i as int) =~= Seq::<u8>::empty());
        }
        if let Some(t) = self.index {
            let target = code_bits(&t, size_req);
            writtable.write_bits(target.as_slice());
        }
        proof {
            lemma_packed_after_bytes(head@, code_stream(format, input));
            assert(writtable@ =~= unpacked(head@) + code_stream(format, input));
        }
        writtable.finish()
    }
}

} // verus!
