//! Bits in bytes: how a sequence of bits is laid out in a sequence of bytes,
//! a writer that packs bits, and a reader that takes them out again.
//!
//! Bit `i` of a stream is bit `i % 8` of its byte `i / 8`, where bit 0 of a
//! byte is its least significant bit. A stream that does not end on a byte
//! boundary is filled up with clear bits.

use crate::bits::{
    bit_at, bits_value, lemma_bit_at_halves, lemma_bit_at_high, lemma_bits_value_bound,
    lemma_bits_value_low_bits, lemma_low_bits_bits_value, low_bits, value_of, zeros,
};
use vstd::arithmetic::power2::{lemma2_to64, lemma_pow2_strictly_increases};
use vstd::prelude::*;

verus! {

/// The bits of a sequence of bytes, eight for each byte, lowest bit first.
pub open spec fn unpacked(bytes: Seq<u8>) -> Seq<bool> {
    Seq::new(8 * bytes.len(), |i: int| bit_at(bytes[i / 8] as nat, (i % 8) as nat))
}

/// The part of `bits` that goes into byte `j`: eight bits, or fewer at the
/// end of the sequence.
pub open spec fn chunk(bits: Seq<bool>, j: int) -> Seq<bool> {
    bits.subrange(8 * j, if 8 * j + 8 <= bits.len() { 8 * j + 8 } else { bits.len() as int })
}

/// The bytes that hold `bits`, the last one filled up with clear bits.
pub open spec fn packed(bits: Seq<bool>) -> Seq<u8> {
    Seq::new(((bits.len() + 7) / 8) as nat, |j: int| bits_value(chunk(bits, j)) as u8)
}

/// The number of clear bits that fill up a stream of `len` bits.
pub open spec fn padding(len: nat) -> nat {
    ((8 - len % 8) % 8) as nat
}

/// Packed bits unpack to themselves, followed by the clear bits that fill the
/// last byte.
pub proof fn lemma_unpacked_packed(bits: Seq<bool>)
    ensures
        unpacked(packed(bits)) == bits + zeros(padding(bits.len())),
        padding(bits.len()) < 8,
{
    let bytes = packed(bits);
    let whole = bits + zeros(padding(bits.len()));
    assert(8 * bytes.len() == whole.len());
    assert forall|i: int| 0 <= i < whole.len() implies unpacked(bytes)[i] == whole[i] by {
        let j = i / 8;
        let part = chunk(bits, j);
        lemma2_to64();
        lemma_bits_value_bound(part);
        if part.len() < 8 {
            lemma_pow2_strictly_increases(part.len(), 8);
        }
        assert(bytes[j] as nat == bits_value(part));
        if i % 8 < part.len() {
            lemma_low_bits_bits_value(part);
            assert(low_bits(bits_value(part), part.len())[i % 8] == part[i % 8]);
        } else {
            lemma_bit_at_high(bits_value(part), part.len(), (i % 8) as nat);
        }
    }
    assert(unpacked(bytes) =~= whole);
}

/// Bits that follow whole bytes are packed after those bytes.
pub proof fn lemma_packed_after_bytes(bytes: Seq<u8>, tail: Seq<bool>)
    ensures
        packed(unpacked(bytes) + tail) == bytes + packed(tail),
{
    let bits = unpacked(bytes) + tail;
    let joined = bytes + packed(tail);
    assert(packed(bits).len() == joined.len());
    assert forall|j: int| 0 <= j < joined.len() implies packed(bits)[j] == joined[j] by {
        if j < bytes.len() {
            lemma2_to64();
            assert(chunk(bits, j) =~= low_bits(bytes[j] as nat, 8)) by {
                assert forall|k: int| 0 <= k < 8 implies chunk(bits, j)[k] == low_bits(
                    bytes[j] as nat,
                    8,
                )[k] by {
                    assert(chunk(bits, j)[k] == unpacked(bytes)[8 * j + k]);
                    assert((8 * j + k) / 8 == j);
                    assert((8 * j + k) % 8 == k);
                }
            }
            lemma_bits_value_low_bits(bytes[j] as nat, 8);
        } else {
            assert(chunk(bits, j) =~= chunk(tail, j - bytes.len()));
        }
    }
    assert(packed(bits) =~= joined);
}

/// The bits of a byte sequence with one more byte.
pub proof fn lemma_unpacked_push(bytes: Seq<u8>, byte: u8)
    ensures
        unpacked(bytes.push(byte)) == unpacked(bytes) + low_bits(byte as nat, 8),
{
    let grown = bytes.push(byte);
    let joined = unpacked(bytes) + low_bits(byte as nat, 8);
    assert forall|i: int| 0 <= i < joined.len() implies unpacked(grown)[i] == joined[i] by {
        if i >= 8 * bytes.len() {
            assert(i / 8 == bytes.len());
            assert(i % 8 == i - 8 * bytes.len());
        }
    }
    assert(unpacked(grown) =~= joined);
}

/// Collects bits and packs them into bytes.
pub struct BitWriter {
    /// The bytes that are complete.
    output: Vec<u8>,
    /// The bits of the byte that is not complete yet: fewer than eight.
    pending: Vec<bool>,
}

impl View for BitWriter {
    type V = Seq<bool>;

    /// All bits written so far, those of the bytes that the writer started
    /// with included.
    closed spec fn view(&self) -> Seq<bool> {
        unpacked(self.output@) + self.pending@
    }
}

impl BitWriter {
    /// Fewer than eight bits wait for their byte.
    pub closed spec fn wf(&self) -> bool {
        self.pending@.len() < 8
    }

    /// A writer that goes on after the bytes of `output`.
    pub fn new(output: Vec<u8>) -> (writer: Self)
        ensures
            writer.wf(),
            writer@ == unpacked(output@),
    {
        BitWriter { output, pending: Vec::new() }
    }

    /// Appends one bit.
    fn write_bit(&mut self, bit: bool)
        requires
            old(self).wf(),
        ensures
            final(self).wf(),
            final(self)@ == old(self)@.push(bit),
    {
        self.pending.push(bit);
        if self.pending.len() == 8 {
            proof {
                lemma2_to64();
                lemma_bits_value_bound(self.pending@);
                lemma_low_bits_bits_value(self.pending@);
                lemma_unpacked_push(self.output@, bits_value(self.pending@) as u8);
            }
            let byte = value_of(self.pending.as_slice()) as u8;
            self.output.push(byte);
            self.pending = Vec::new();
        }
        assert(self@ =~= old(self)@.push(bit));
    }

    /// Appends `bits` in their order.
    pub fn write_bits(&mut self, bits: &[bool])
        requires
            old(self).wf(),
        ensures
            final(self).wf(),
            final(self)@ == old(self)@ + bits@,
    {
        let mut i: usize = 0;
        while i < bits.len()
            invariant
                i <= bits@.len(),
                self.wf(),
                self@ == old(self)@ + bits@.take(i as int),
            decreases bits@.len() - i,
        {
            self.write_bit(bits[i]);
            i = i + 1;
            assert(bits@.take(i as int) =~= bits@.take(i - 1).push(bits@[i - 1]));
            assert(self@ =~= old(self)@ + bits@.take(i as int));
        }
        assert(bits@.take(i as int) =~= bits@);
    }

    /// The bytes that hold everything written, the last byte filled up with
    /// clear bits.
    pub fn finish(self) -> (bytes: Vec<u8>)
        requires
            self.wf(),
        ensures
            bytes@ == packed(self@),
    {
        let mut writer = self;
        proof {
            lemma_packed_after_bytes(writer.output@, writer.pending@);
            lemma2_to64();
            lemma_bits_value_bound(writer.pending@);
            if writer.pending@.len() > 0 {
                lemma_pow2_strictly_increases(writer.pending@.len(), 8);
                assert(chunk(writer.pending@, 0) =~= writer.pending@);
                assert(packed(writer.pending@) =~= seq![bits_value(writer.pending@) as u8]);
            } else {
                assert(packed(writer.pending@) =~= Seq::<u8>::empty());
            }
        }
        if writer.pending.len() > 0 {
            let byte = value_of(writer.pending.as_slice()) as u8;
            writer.output.push(byte);
            assert(writer.output@ =~= self.output@ + seq![byte]);
        } else {
            assert(writer.output@ =~= self.output@ + Seq::<u8>::empty());
        }
        writer.output
    }
}

/// Bit `i` of `byte`.
fn bit_of(byte: u8, i: usize) -> (bit: bool)
    requires
        i < 8,
    ensures
        bit == bit_at(byte as nat, i as nat),
{
    let mut rest: u8 = byte;
    let mut k: usize = 0;
    while k < i
        invariant
            k <= i < 8,
            bit_at(byte as nat, i as nat) == bit_at(rest as nat, (i - k) as nat),
        decreases i - k,
    {
        proof {
            lemma_bit_at_halves(rest as nat, (i - k - 1) as nat);
        }
        rest = rest / 2;
        k = k + 1;
    }
    proof {
        lemma_bit_at_halves(rest as nat, 0);
    }
    rest % 2 == 1
}

/// Takes the bits of a sequence of bytes out in their order.
pub struct BitReader<'a> {
    data: &'a [u8],
    /// The byte that holds the next bit.
    byte_index: usize,
    /// The place of the next bit in that byte.
    bit_index: usize,
}

impl<'a> BitReader<'a> {
    /// The place of the next bit is within the bytes, or right after them.
    pub closed spec fn wf(&self) -> bool {
        &&& self.bit_index < 8
        &&& self.byte_index <= self.data@.len()
        &&& self.byte_index == self.data@.len() ==> self.bit_index == 0
    }

    /// The number of bits that were taken out.
    pub closed spec fn position(&self) -> nat {
        (8 * self.byte_index + self.bit_index) as nat
    }

    /// The bytes that are read.
    pub closed spec fn bytes(&self) -> Seq<u8> {
        self.data@
    }

    /// The bits that are still to come.
    pub open spec fn remaining(&self) -> Seq<bool> {
        unpacked(self.bytes()).skip(self.position() as int)
    }

    /// A reader at the first bit of `data`.
    pub fn new(data: &'a [u8]) -> (reader: Self)
        ensures
            reader.wf(),
            reader.bytes() == data@,
            reader.position() == 0,
            reader.remaining() == unpacked(data@),
    {
        let reader = BitReader { data, byte_index: 0, bit_index: 0 };
        assert(unpacked(data@).skip(0) =~= unpacked(data@));
        reader
    }

    /// Whether at least `n` bits are still to come.
    fn has(&self, n: usize) -> (enough: bool)
        requires
            self.wf(),
        ensures
            enough == (n <= self.remaining().len()),
    {
        let bytes_left = (self.data.len() - self.byte_index) as u128;
        8 * bytes_left - self.bit_index as u128 >= n as u128
    }

    /// The next `n` bits, where that many are still to come. Otherwise nothing
    /// is taken out.
    pub fn read_bits(&mut self, n: usize) -> (bits: Option<Vec<bool>>)
        requires
            old(self).wf(),
        ensures
            final(self).wf(),
            final(self).bytes() == old(self).bytes(),
            n <= old(self).remaining().len() ==> bits is Some && bits->Some_0@ == old(
                self,
            ).remaining().take(n as int) && final(self).remaining() == old(self).remaining().skip(
                n as int,
            ),
            n > old(self).remaining().len() ==> bits is None && final(self).remaining() == old(
                self,
            ).remaining(),
    {
        if !self.has(n) {
            return None;
        }
        let mut bits: Vec<bool> = Vec::new();
        let mut i: usize = 0;
        while i < n
            invariant
                i <= n,
                self.wf(),
                self.bytes() == old(self).bytes(),
                n <= old(self).remaining().len(),
                self.position() == old(self).position() + i,
                bits@ == old(self).remaining().take(i as int),
            decreases n - i,
        {
            let bit = bit_of(self.data[self.byte_index], self.bit_index);
            proof {
                let at = self.position() as int;
                assert(at / 8 == self.byte_index);
                assert(at % 8 == self.bit_index);
                assert(old(self).remaining()[i as int] == unpacked(self.bytes())[at]);
            }
            bits.push(bit);
            if self.bit_index == 7 {
                self.bit_index = 0;
                self.byte_index = self.byte_index + 1;
            } else {
                self.bit_index = self.bit_index + 1;
            }
            i = i + 1;
            assert(bits@ =~= old(self).remaining().take(i as int));
        }
        assert(self.remaining() =~= old(self).remaining().skip(n as int));
        Some(bits)
    }
}

} // verus!
