//! The dictionary of phrases that encoder and decoder build in step.
//!
//! The codes below 256 are the alphabet: code `b` denotes the byte `b`. Each
//! code from 256 on denotes a learned phrase, stored as its last byte and the
//! code of the phrase without that byte.

use crate::bits::{lemma_bit_length_bound, length_of};
use crate::traits::{Code, Numeric, RequiredBits};
use std::collections::VecDeque;
use vstd::arithmetic::power2::{
    lemma2_to64, lemma2_to64_rest, lemma_pow2_pos, lemma_pow2_strictly_increases,
    lemma_pow2_unfold, pow2,
};
use vstd::prelude::*;

verus! {

/// What a dictionary does with a new phrase once it is full.
#[derive(Clone, Copy, Debug, PartialEq, Eq, Structural)]
pub enum FilledBehaviour {
    /// Forget every learned phrase and start learning again.
    Clear,
    /// Keep the learned phrases and learn no more.
    Freeze,
}

/// The number of codes of a dictionary with the learned phrases `words`.
pub open spec fn table_len(words: Seq<(u8, nat)>) -> nat {
    256 + words.len()
}

/// Each learned phrase extends a phrase with a lower code.
pub open spec fn linked(words: Seq<(u8, nat)>) -> bool {
    forall|i: int| 0 <= i < words.len() ==> (#[trigger] words[i]).1 < 256 + i
}

/// The bytes that `code` denotes: the byte itself for a code of the alphabet,
/// otherwise the phrase of the entry's prefix followed by the entry's byte. A
/// code that the dictionary does not have denotes nothing.
pub open spec fn phrase(words: Seq<(u8, nat)>, code: nat) -> Seq<u8>
    decreases code,
{
    if code < 256 {
        seq![code as u8]
    } else if code < table_len(words) && words[code - 256].1 < code {
        phrase(words, words[code - 256].1).push(words[code - 256].0)
    } else {
        Seq::empty()
    }
}

/// No two codes denote the same phrase.
pub open spec fn unique(words: Seq<(u8, nat)>) -> bool {
    forall|a: nat, b: nat|
        a < table_len(words) && b < table_len(words) && #[trigger] phrase(words, a)
            == #[trigger] phrase(words, b) ==> a == b
}

/// Whether a code denotes `bytes`.
pub open spec fn known(words: Seq<(u8, nat)>, bytes: Seq<u8>) -> bool {
    exists|code: nat| code < table_len(words) && #[trigger] phrase(words, code) == bytes
}

/// A code that denotes `bytes`, if there is one.
pub open spec fn lookup(words: Seq<(u8, nat)>, bytes: Seq<u8>) -> Option<nat> {
    if known(words, bytes) {
        Some(choose|code: nat| code < table_len(words) && #[trigger] phrase(words, code) == bytes)
    } else {
        None
    }
}

/// The learned phrases after an attempt to add `entry` to a dictionary that
/// holds at most `capacity` codes: a full dictionary forgets what it learned
/// or stays as it is, and in both cases the entry is dropped.
pub open spec fn pushed(
    words: Seq<(u8, nat)>,
    entry: (u8, nat),
    capacity: nat,
    filled: FilledBehaviour,
) -> Seq<(u8, nat)> {
    if table_len(words) >= capacity {
        match filled {
            FilledBehaviour::Clear => Seq::empty(),
            FilledBehaviour::Freeze => words,
        }
    } else {
        words.push(entry)
    }
}

/// What a full dictionary does with a new phrase: one that clears itself is
/// left without learned phrases, and takes the phrase after that one as its
/// first; one that freezes is left as it was.
pub proof fn lemma_full_dictionary(words: Seq<(u8, nat)>, entry: (u8, nat), capacity: nat)
    requires
        table_len(words) >= capacity,
    ensures
        pushed(words, entry, capacity, FilledBehaviour::Clear) == Seq::<(u8, nat)>::empty(),
        pushed(words, entry, capacity, FilledBehaviour::Freeze) == words,
        256 < capacity ==> pushed(
            pushed(words, entry, capacity, FilledBehaviour::Clear),
            entry,
            capacity,
            FilledBehaviour::Clear,
        ) == seq![entry],
{
    assert(Seq::<(u8, nat)>::empty().push(entry) =~= seq![entry]);
}

/// The number of codes that a dictionary for codes of `width` bits holds at
/// most: the greatest code is never given to a phrase, and the machine's
/// address space bounds the number as well.
pub open spec fn capacity(width: nat) -> nat {
    if 1 <= pow2(width) <= usize::MAX {
        (pow2(width) - 1) as nat
    } else {
        usize::MAX as nat
    }
}

/// A phrase is never empty, and a learned phrase has at least two bytes.
pub proof fn lemma_phrase_len(words: Seq<(u8, nat)>, code: nat)
    requires
        linked(words),
        code < table_len(words),
    ensures
        phrase(words, code).len() >= 1,
        code >= 256 ==> phrase(words, code).len() >= 2,
        code < 256 ==> phrase(words, code) == seq![code as u8],
    decreases code,
{
    if code >= 256 {
        lemma_phrase_len(words, words[code - 256].1);
    }
}

/// A new entry changes no phrase of the codes that were there.
pub proof fn lemma_phrase_stable(words: Seq<(u8, nat)>, entry: (u8, nat), code: nat)
    requires
        linked(words),
        code < table_len(words),
    ensures
        phrase(words.push(entry), code) == phrase(words, code),
    decreases code,
{
    if code >= 256 {
        lemma_phrase_stable(words, entry, words[code - 256].1);
    }
}

/// The code of a new entry denotes the phrase of its prefix followed by its
/// byte.
pub proof fn lemma_phrase_new(words: Seq<(u8, nat)>, entry: (u8, nat))
    requires
        linked(words),
        entry.1 < table_len(words),
    ensures
        linked(words.push(entry)),
        phrase(words.push(entry), table_len(words)) == phrase(words, entry.1).push(entry.0),
{
    lemma_phrase_stable(words, entry, entry.1);
}

/// In a dictionary without learned phrases no two codes denote the same
/// phrase.
pub proof fn lemma_unique_empty()
    ensures
        unique(Seq::<(u8, nat)>::empty()),
        linked(Seq::<(u8, nat)>::empty()),
{
    let words = Seq::<(u8, nat)>::empty();
    assert forall|a: nat, b: nat|
        a < table_len(words) && b < table_len(words) && #[trigger] phrase(words, a)
            == #[trigger] phrase(words, b) implies a == b by {
        assert(phrase(words, a)[0] == a as u8);
        assert(phrase(words, b)[0] == b as u8);
    }
}

/// A phrase that no code denotes yet can be added without that two codes
/// come to denote the same phrase.
pub proof fn lemma_unique_push(words: Seq<(u8, nat)>, entry: (u8, nat))
    requires
        linked(words),
        unique(words),
        entry.1 < table_len(words),
        !known(words, phrase(words, entry.1).push(entry.0)),
    ensures
        unique(words.push(entry)),
{
    let grown = words.push(entry);
    lemma_phrase_new(words, entry);
    assert forall|a: nat, b: nat|
        a < table_len(grown) && b < table_len(grown) && #[trigger] phrase(grown, a)
            == #[trigger] phrase(grown, b) implies a == b by {
        if a < table_len(words) {
            lemma_phrase_stable(words, entry, a);
        }
        if b < table_len(words) {
            lemma_phrase_stable(words, entry, b);
        }
        if a < table_len(words) && b < table_len(words) {
            assert(phrase(words, a) == phrase(words, b));
        }
    }
}

/// Where no two codes denote the same phrase, `lookup` finds the one code of
/// a phrase.
pub proof fn lemma_lookup_unique(words: Seq<(u8, nat)>, code: nat)
    requires
        unique(words),
        code < table_len(words),
    ensures
        lookup(words, phrase(words, code)) == Some(code),
{
    assert(known(words, phrase(words, code)));
}

/// The alphabet and the phrases learned so far.
pub struct Dictionary<T> {
    /// The learned phrases in the order in which they were added, each as its
    /// last byte and the code of the phrase before that byte. The entry at
    /// index `i` has the code `256 + i`.
    pub words: Vec<(u8, T)>,
    /// What happens to a new phrase once the dictionary is full.
    pub filled: FilledBehaviour,
}

impl<T: Code> View for Dictionary<T> {
    type V = Seq<(u8, nat)>;

    /// The learned phrases, each with the number of its prefix code.
    open spec fn view(&self) -> Seq<(u8, nat)> {
        self.words@.map_values(|word: (u8, T)| (word.0, word.1.number()))
    }
}

impl<T: Code> Numeric for Dictionary<T> {
    /// The number of codes: the alphabet and the learned phrases.
    open spec fn number(&self) -> nat {
        table_len(self@)
    }
}

impl<T: Code> RequiredBits for Dictionary<T> {
    /// The number of bits that the number of codes needs.
    fn required_bits(&self) -> (n: usize) {
        let learned = self.words.len() as u64;
        if learned <= u64::MAX - 256 {
            length_of(256 + learned)
        } else {
            proof {
                lemma2_to64_rest();
                lemma_pow2_unfold(65);
                lemma_bit_length_bound(table_len(self@), 64);
                lemma_bit_length_bound(table_len(self@), 65);
            }
            65
        }
    }
}

impl<T: Code> Default for Dictionary<T> {
    /// A dictionary without learned phrases that clears itself when full.
    fn default() -> (dictionary: Self)
        ensures
            dictionary@ == Seq::<(u8, nat)>::empty(),
            dictionary.filled == FilledBehaviour::Clear,
            dictionary.wf(),
    {
        Self::new(FilledBehaviour::Clear)
    }
}

impl<T: Code> Dictionary<T> {
    /// The learned phrases are linked to lower codes, and the codes are no
    /// more than the dictionary may hold.
    pub open spec fn wf(&self) -> bool {
        &&& linked(self@)
        &&& table_len(self@) <= capacity(T::width())
    }

    /// The number of codes that the dictionary holds at most.
    pub open spec fn spec_limit() -> nat {
        capacity(T::width())
    }

    /// A dictionary without learned phrases.
    pub fn new(filled: FilledBehaviour) -> (dictionary: Self)
        ensures
            dictionary@ == Seq::<(u8, nat)>::empty(),
            dictionary.filled == filled,
            dictionary.wf(),
    {
        let dictionary = Dictionary { words: Vec::new(), filled };
        proof {
            assert(dictionary@ =~= Seq::<(u8, nat)>::empty());
            T::lemma_widths();
            lemma2_to64();
            if 9 < T::width() {
                lemma_pow2_strictly_increases(9, T::width());
            }
        }
        dictionary
    }

    /// The number of codes that the dictionary holds at most.
    pub fn limit() -> (limit: usize)
        ensures
            limit as nat == Self::spec_limit(),
    {
        let max = T::max_value().to_u64();
        if max > usize::MAX as u64 {
            usize::MAX
        } else {
            max as usize
        }
    }

    /// The number of codes: 256 for the alphabet and one for each learned
    /// phrase.
    pub fn len(&self) -> (len: usize)
        requires
            table_len(self@) <= usize::MAX,
        ensures
            len as nat == table_len(self@),
    {
        256 + self.words.len()
    }

    /// Adds the phrase that `word.1` denotes, followed by the byte `word.0`,
    /// under the next free code. A full dictionary takes no new phrase,
    /// whatever the word is: it forgets the learned ones or stays as it is, as
    /// `filled` says. The policy itself never changes.
    pub fn push(&mut self, word: &(u8, T))
        requires
            old(self).wf(),
            table_len(old(self)@) < Self::spec_limit() ==> word.1.number() < table_len(
                old(self)@,
            ),
        ensures
            final(self)@ == pushed(
                old(self)@,
                (word.0, word.1.number()),
                Self::spec_limit(),
                old(self).filled,
            ),
            final(self).words@ == (if table_len(old(self)@) < Self::spec_limit() {
                old(self).words@.push((word.0, word.1))
            } else if old(self).filled == FilledBehaviour::Clear {
                Seq::empty()
            } else {
                old(self).words@
            }),
            final(self).filled == old(self).filled,
            final(self).wf(),
    {
        if self.len() >= Self::limit() {
            match self.filled {
                FilledBehaviour::Freeze => {},
                FilledBehaviour::Clear => {
                    self.words = Vec::new();
                    assert(self@ =~= Seq::<(u8, nat)>::empty());
                },
            }
            return ;
        }
        self.words.push((word.0, word.1));
        assert(self@ =~= old(self)@.push((word.0, word.1.number())));
    }

    /// The entry of `index`: the byte alone for a code of the alphabet, the
    /// last byte and the code of the prefix for a learned phrase, nothing for a
    /// code that the dictionary does not have.
    pub open spec fn get_spec(&self, index: T) -> Option<(u8, Option<T>)> {
        if index.number() < 256 {
            Some((index.number() as u8, None::<T>))
        } else if index.number() < table_len(self@) {
            Some(
                (
                    self.words@[index.number() - 256].0,
                    Some(self.words@[index.number() - 256].1),
                ),
            )
        } else {
            None
        }
    }

    /// The entry of `index`, where the dictionary has that code.
    pub fn get(&self, index: T) -> (entry: Option<(u8, Option<T>)>)
        ensures
            entry == self.get_spec(index),
    {
        let code = index.to_u64();
        assert(self@.len() == self.words.len());
        if code <= 255 {
            return Some((code as u8, None));
        }
        let offset = code - 255 - 1;
        if offset < self.words.len() as u64 {
            let word = &self.words[offset as usize];
            Some((word.0, Some(word.1)))
        } else {
            None
        }
    }

    /// The entry of a code that the dictionary has.
    pub fn index(&self, index: T) -> (entry: (u8, Option<T>))
        requires
            index.number() < table_len(self@),
        ensures
            Some(entry) == self.get_spec(index),
    {
        let code = index.to_u64();
        assert(self@.len() == self.words.len());
        if code <= 255 {
            (code as u8, None)
        } else {
            let word = &self.words[(code - 255 - 1) as usize];
            (word.0, Some(word.1))
        }
    }

    /// The bytes that `index` denotes, where the dictionary has that code.
    pub fn get_phrase(&self, index: T) -> (bytes: Option<Vec<u8>>)
        requires
            self.wf(),
        ensures
            index.number() < table_len(self@) ==> bytes is Some && bytes->Some_0@ == phrase(
                self@,
                index.number(),
            ),
            index.number() >= table_len(self@) ==> bytes is None,
    {
        let code = index.to_u64();
        if code >= 256 && code - 256 >= self.words.len() as u64 {
            return None;
        }
        let mut output: VecDeque<u8> = VecDeque::new();
        let mut current: u64 = code;
        while current >= 256
            invariant
                self.wf(),
                current < table_len(self@),
                phrase(self@, code as nat) == phrase(self@, current as nat) + output@,
            decreases current,
        {
            let word = &self.words[(current - 256) as usize];
            let ghost before = output@;
            output.push_front(word.0);
            proof {
                let prefix = self@[current - 256].1;
                assert(phrase(self@, current as nat) == phrase(self@, prefix).push(word.0));
                assert(phrase(self@, prefix).push(word.0) + before =~= phrase(self@, prefix)
                    + output@);
            }
            current = word.1.to_u64();
        }
        output.push_front(current as u8);
        let mut bytes: Vec<u8> = Vec::new();
        let mut i: usize = 0;
        while i < output.len()
            invariant
                i <= output@.len(),
                bytes@ == output@.take(i as int),
            decreases output@.len() - i,
        {
            bytes.push(output[i]);
            i = i + 1;
            assert(bytes@ =~= output@.take(i as int));
        }
        assert(output@.take(i as int) =~= output@);
        Some(bytes)
    }

    /// Whether `code` denotes `searched`.
    fn spells(&self, code: u64, searched: &[u8]) -> (same: bool)
        requires
            self.wf(),
            (code as nat) < table_len(self@),
        ensures
            same == (phrase(self@, code as nat) == searched@),
    {
        let mut current: u64 = code;
        let mut k: usize = searched.len();
        assert(searched@.take(k as int) =~= searched@);
        loop
            invariant
                self.wf(),
                (current as nat) < table_len(self@),
                k <= searched@.len(),
                (phrase(self@, code as nat) == searched@) <==> (phrase(self@, current as nat)
                    == searched@.take(k as int)),
            decreases current,
        {
            if current < 256 {
                let same = k == 1 && searched[0] == current as u8;
                proof {
                    if same {
                        assert(searched@.take(1) =~= seq![current as u8]);
                    } else if k == 1 {
                        assert(searched@.take(1)[0] != seq![current as u8][0]);
                    }
                }
                return same;
            }
            let word = &self.words[(current - 256) as usize];
            proof {
                lemma_phrase_len(self@, current as nat);
            }
            if k < 2 || searched[k - 1] != word.0 {
                proof {
                    let stored = phrase(self@, current as nat);
                    if k >= 2 {
                        assert(stored[stored.len() - 1] == word.0);
                        assert(searched@.take(k as int)[k - 1] == searched@[k - 1]);
                    }
                }
                return false;
            }
            proof {
                let prefix = self@[current - 256].1;
                let head = searched@.take(k - 1);
                assert(searched@.take(k as int) =~= head.push(word.0));
                assert(phrase(self@, current as nat) == phrase(self@, prefix).push(word.0));
                if phrase(self@, prefix).push(word.0) == head.push(word.0) {
                    assert(phrase(self@, prefix) =~= phrase(self@, prefix).push(word.0).drop_last());
                    assert(head =~= head.push(word.0).drop_last());
                }
            }
            k = k - 1;
            current = word.1.to_u64();
        }
    }

    /// The code that denotes `searched`, if there is one. The dictionary is
    /// one in which no two codes denote the same phrase.
    pub fn find(&self, searched: &[u8]) -> (found: Option<T>)
        requires
            self.wf(),
            unique(self@),
        ensures
            match found {
                Some(code) => lookup(self@, searched@) == Some(code.number()),
                None => lookup(self@, searched@) is None,
            },
            found matches Some(code) ==> code.number() < table_len(self@) && phrase(
                self@,
                code.number(),
            ) == searched@,
            found is None ==> !known(self@, searched@),
    {
        let sequence_len = searched.len();
        if sequence_len == 0 {
            proof {
                assert forall|code: nat| code < table_len(self@) implies phrase(self@, code)
                    != searched@ by {
                    lemma_phrase_len(self@, code);
                }
            }
            return None;
        }
        if sequence_len == 1 {
            let code = T::from_byte(searched[0]);
            proof {
                assert(phrase(self@, code.number()) =~= searched@);
                lemma_lookup_unique(self@, code.number());
            }
            return Some(code);
        }
        let mut j: usize = 0;
        proof {
            assert forall|code: nat| code < 256 implies phrase(self@, code) != searched@ by {
                lemma_phrase_len(self@, code);
            }
        }
        while j < self.words.len()
            invariant
                self.wf(),
                unique(self@),
                j <= self.words@.len(),
                sequence_len == searched@.len(),
                sequence_len >= 2,
                forall|code: nat| code < 256 + j ==> phrase(self@, code) != searched@,
            decreases self.words@.len() - j,
        {
            if self.words[j].0 == searched[sequence_len - 1] && self.spells(
                (256 + j) as u64,
                searched,
            ) {
                proof {
                    lemma_pow2_pos(T::width());
                    lemma_lookup_unique(self@, (256 + j) as nat);
                }
                match T::from_u64((256 + j) as u64) {
                    Ok(code) => {
                        return Some(code);
                    },
                    Err(_) => {
                        return None;
                    },
                }
            }
            j = j + 1;
        }
        None
    }
}

} // verus!
