use std::collections::HashSet;
use zwl_gs::bit_encoder::ZwlBitEncoder;
use zwl_gs::dictionary::{Dictionary, FilledBehaviour};
use zwl_gs::like_u12::LikeU12;
use zwl_gs::like_u16::LikeU16;
use zwl_gs::like_u64::LikeU64;
use zwl_gs::traits::{Code, RequiredBits};

fn code12(value: u64) -> LikeU12 {
    LikeU12::from_u64(value).unwrap()
}

fn sample() -> Dictionary<LikeU16> {
    let mut dictionary = Dictionary::new(FilledBehaviour::Clear);
    dictionary.push(&(b'b', LikeU16(97)));
    dictionary.push(&(b'a', LikeU16(98)));
    dictionary.push(&(b'c', LikeU16(256)));
    dictionary.push(&(b'd', LikeU16(258)));
    dictionary
}

#[test]
fn fresh_dictionary_is_the_alphabet() {
    let dictionary: Dictionary<LikeU16> = Dictionary::new(FilledBehaviour::Freeze);
    assert_eq!(dictionary.len(), 256);
    assert!(dictionary.words.is_empty());
    assert_eq!(dictionary.filled, FilledBehaviour::Freeze);
    assert_eq!(dictionary.required_bits(), 9);
    let dictionary: Dictionary<LikeU16> = Dictionary::default();
    assert_eq!(dictionary.len(), 256);
    assert_eq!(dictionary.filled, FilledBehaviour::Clear);
    for byte in 0..=255u8 {
        assert_eq!(dictionary.get_phrase(LikeU16(byte as u16)), Some(vec![byte]));
        assert_eq!(dictionary.get(LikeU16(byte as u16)), Some((byte, None)));
        assert_eq!(dictionary.find(&[byte]), Some(LikeU16(byte as u16)));
    }
    assert_eq!(dictionary.get_phrase(LikeU16(256)), None);
    assert_eq!(dictionary.get(LikeU16(256)), None);
}

#[test]
fn push_appends_in_order() {
    let dictionary = sample();
    assert_eq!(dictionary.len(), 260);
    assert_eq!(
        dictionary.words,
        vec![
            (b'b', LikeU16(97)),
            (b'a', LikeU16(98)),
            (b'c', LikeU16(256)),
            (b'd', LikeU16(258)),
        ]
    );
}

#[test]
fn phrases_follow_the_back_references() {
    let dictionary = sample();
    assert_eq!(dictionary.get_phrase(LikeU16(97)), Some(b"a".to_vec()));
    assert_eq!(dictionary.get_phrase(LikeU16(255)), Some(vec![255]));
    assert_eq!(dictionary.get_phrase(LikeU16(256)), Some(b"ab".to_vec()));
    assert_eq!(dictionary.get_phrase(LikeU16(257)), Some(b"ba".to_vec()));
    assert_eq!(dictionary.get_phrase(LikeU16(258)), Some(b"abc".to_vec()));
    assert_eq!(dictionary.get_phrase(LikeU16(259)), Some(b"abcd".to_vec()));
    assert_eq!(dictionary.get_phrase(LikeU16(260)), None);
    assert_eq!(dictionary.get_phrase(LikeU16(u16::MAX)), None);
}

#[test]
fn entries_by_code() {
    let dictionary = sample();
    assert_eq!(dictionary.get(LikeU16(0)), Some((0, None)));
    assert_eq!(dictionary.get(LikeU16(255)), Some((255, None)));
    assert_eq!(dictionary.get(LikeU16(256)), Some((b'b', Some(LikeU16(97)))));
    assert_eq!(dictionary.get(LikeU16(259)), Some((b'd', Some(LikeU16(258)))));
    assert_eq!(dictionary.get(LikeU16(260)), None);
    assert_eq!(dictionary.index(LikeU16(98)), (b'b', None));
    assert_eq!(dictionary.index(LikeU16(258)), (b'c', Some(LikeU16(256))));
}

#[test]
fn find_is_the_inverse_of_get_phrase() {
    let dictionary = sample();
    assert_eq!(dictionary.find(b"a"), Some(LikeU16(97)));
    assert_eq!(dictionary.find(b"ab"), Some(LikeU16(256)));
    assert_eq!(dictionary.find(b"ba"), Some(LikeU16(257)));
    assert_eq!(dictionary.find(b"abc"), Some(LikeU16(258)));
    assert_eq!(dictionary.find(b"abcd"), Some(LikeU16(259)));
    assert_eq!(dictionary.find(b"abcde"), None);
    assert_eq!(dictionary.find(b"bcd"), None);
    assert_eq!(dictionary.find(b"cd"), None);
    assert_eq!(dictionary.find(b"bb"), None);
    assert_eq!(dictionary.find(b"xabcd"), None);
    assert_eq!(dictionary.find(b""), None);
    for code in 0..dictionary.len() as u16 {
        let phrase = dictionary.get_phrase(LikeU16(code)).unwrap();
        assert_eq!(dictionary.find(&phrase), Some(LikeU16(code)));
    }
}

#[test]
fn required_bits_follow_the_size() {
    let mut dictionary: Dictionary<LikeU16> = Dictionary::new(FilledBehaviour::Clear);
    for i in 0..255 {
        assert_eq!(dictionary.required_bits(), 9);
        dictionary.push(&(0, LikeU16(255 + i)));
    }
    assert_eq!(dictionary.len(), 511);
    assert_eq!(dictionary.required_bits(), 9);
    dictionary.push(&(0, LikeU16(510)));
    assert_eq!(dictionary.len(), 512);
    assert_eq!(dictionary.required_bits(), 10);
}

#[test]
fn limits_of_the_code_types() {
    assert_eq!(Dictionary::<LikeU12>::limit(), 4095);
    assert_eq!(Dictionary::<LikeU16>::limit(), 65535);
    assert_eq!(Dictionary::<LikeU64>::limit() as u64, u64::MAX);
}

#[test]
fn full_dictionary_clears() {
    let mut dictionary: Dictionary<LikeU12> = Dictionary::new(FilledBehaviour::Clear);
    for i in 0..(4095 - 256) {
        assert_eq!(dictionary.len(), 256 + i);
        dictionary.push(&(7, code12(255 + i as u64)));
    }
    assert_eq!(dictionary.len(), 4095);
    assert_eq!(dictionary.required_bits(), 12);
    dictionary.push(&(1, code12(4095)));
    assert_eq!(dictionary.len(), 256);
    assert!(dictionary.words.is_empty());
    assert_eq!(dictionary.filled, FilledBehaviour::Clear);
    dictionary.push(&(3, code12(4)));
    assert_eq!(dictionary.len(), 257);
    assert_eq!(dictionary.words, vec![(3, code12(4))]);
    assert_eq!(dictionary.get_phrase(code12(256)), Some(vec![4, 3]));
}

#[test]
fn full_dictionary_freezes() {
    let mut dictionary: Dictionary<LikeU12> = Dictionary::new(FilledBehaviour::Freeze);
    for i in 0..(4095 - 256) {
        dictionary.push(&(7, code12(255 + i as u64)));
    }
    assert_eq!(dictionary.len(), 4095);
    let before = dictionary.words.clone();
    dictionary.push(&(1, code12(2)));
    dictionary.push(&(3, code12(4095)));
    assert_eq!(dictionary.len(), 4095);
    assert_eq!(dictionary.words, before);
    assert_eq!(dictionary.filled, FilledBehaviour::Freeze);
    let mut longest = vec![255];
    longest.extend(vec![7; 4095 - 256]);
    assert_eq!(dictionary.get_phrase(code12(4094)), Some(longest.clone()));
    assert_eq!(dictionary.get_phrase(code12(4095)), None);
    assert_eq!(dictionary.find(&longest), Some(code12(4094)));
    assert_eq!(dictionary.find(&longest[0..3]), Some(code12(257)));
    assert_eq!(dictionary.find(&[2, 1]), None);
}

#[test]
fn no_two_codes_of_an_encoder_denote_the_same_phrase() {
    let mut input = Vec::new();
    let mut seed = 5u32;
    for _ in 0..4000 {
        seed = seed.wrapping_mul(1664525).wrapping_add(1013904223);
        input.push(b'a' + ((seed >> 16) % 3) as u8);
    }
    for filled in [FilledBehaviour::Clear, FilledBehaviour::Freeze] {
        let mut encoder = ZwlBitEncoder::<LikeU16>::new(input.clone(), filled);
        encoder.encode();
        let dictionary = encoder.dictionary();
        let mut seen = HashSet::new();
        for code in 0..dictionary.len() {
            let phrase = dictionary.get_phrase(LikeU16(code as u16)).unwrap();
            assert!(seen.insert(phrase.clone()));
            assert_eq!(dictionary.find(&phrase), Some(LikeU16(code as u16)));
        }
        assert_eq!(seen.len(), dictionary.len());
    }
}
