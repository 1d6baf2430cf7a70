use zwl_gs::bit_decoder::ZwlBitDecoder;
use zwl_gs::bit_encoder::{code_bits, escape_bits, ZwlBitEncoder};
use zwl_gs::bit_stream::{BitReader, BitWriter};
use zwl_gs::bits::{bits_of, length_of, trailing_ones_of, value_of};
use zwl_gs::dictionary::FilledBehaviour;
use zwl_gs::error::ZwlError;
use zwl_gs::like_u12::LikeU12;
use zwl_gs::like_u16::LikeU16;
use zwl_gs::traits::Code;

fn bits(pattern: &str) -> Vec<bool> {
    pattern.chars().map(|c| c == '1').collect()
}

#[test]
fn low_bits_of_a_number() {
    assert_eq!(bits_of(0b1101, 4), bits("1011"));
    assert_eq!(bits_of(0b1101, 6), bits("101100"));
    assert_eq!(bits_of(0b1101, 2), bits("10"));
    assert_eq!(bits_of(7, 0), Vec::<bool>::new());
    assert_eq!(bits_of(u64::MAX, 64), vec![true; 64]);
}

#[test]
fn value_of_bits() {
    assert_eq!(value_of(&bits("1011")), 13);
    assert_eq!(value_of(&bits("")), 0);
    assert_eq!(value_of(&bits("0001")), 8);
    assert_eq!(value_of(&vec![true; 64]), u64::MAX);
    assert_eq!(value_of(&bits_of(0xdead_beef, 40)), 0xdead_beef);
}

#[test]
fn lengths_and_trailing_ones() {
    assert_eq!(length_of(0), 0);
    assert_eq!(length_of(1), 1);
    assert_eq!(length_of(256), 9);
    assert_eq!(length_of(511), 9);
    assert_eq!(length_of(512), 10);
    assert_eq!(length_of(u64::MAX), 64);
    assert_eq!(trailing_ones_of(0), 0);
    assert_eq!(trailing_ones_of(0b0111), 3);
    assert_eq!(trailing_ones_of(0b1011), 2);
    assert_eq!(trailing_ones_of(u64::MAX), 64);
}

#[test]
fn codes_at_a_width() {
    assert_eq!(code_bits(&LikeU16(5), 16), bits("1010000000000000"));
    assert_eq!(code_bits(&LikeU16(5), 9), bits("101000000"));
    assert_eq!(code_bits(&LikeU12::from_u64(97).unwrap(), 9), bits("100001100"));
    assert_eq!(code_bits(&LikeU12::from_u64(97).unwrap(), 12), bits("100001100000"));
    assert_eq!(code_bits(&LikeU12::from_u64(97).unwrap(), 3), bits("100"));
    assert_eq!(escape_bits(9), vec![true; 9]);
    assert_eq!(escape_bits(0), Vec::<bool>::new());
}

#[test]
fn writer_packs_lowest_bit_first() {
    let mut writer = BitWriter::new(Vec::new());
    writer.write_bits(&bits("10000110"));
    assert_eq!(writer.finish(), vec![97]);

    let mut writer = BitWriter::new(vec![1, 2]);
    writer.write_bits(&bits("1"));
    writer.write_bits(&bits("01"));
    assert_eq!(writer.finish(), vec![1, 2, 0b101]);

    let mut writer = BitWriter::new(Vec::new());
    writer.write_bits(&bits("100001100"));
    writer.write_bits(&bits("010001100"));
    assert_eq!(writer.finish(), vec![97, 196, 0]);

    let writer = BitWriter::new(vec![9]);
    assert_eq!(writer.finish(), vec![9]);
}

#[test]
fn reader_takes_bits_in_order() {
    let data = [97u8, 196, 0];
    let mut reader = BitReader::new(&data);
    assert_eq!(reader.read_bits(9), Some(bits("100001100")));
    assert_eq!(reader.read_bits(9), Some(bits("010001100")));
    assert_eq!(reader.read_bits(9), None);
    assert_eq!(reader.read_bits(6), Some(bits("000000")));
    assert_eq!(reader.read_bits(1), None);
    assert_eq!(reader.read_bits(0), Some(Vec::new()));
    let mut reader = BitReader::new(&[]);
    assert_eq!(reader.read_bits(1), None);
    assert_eq!(reader.read_bits(0), Some(Vec::new()));
}

#[test]
fn written_bits_are_read_back() {
    let mut seed = 1u32;
    let mut all = Vec::new();
    for _ in 0..1003 {
        seed = seed.wrapping_mul(1664525).wrapping_add(1013904223);
        all.push((seed >> 20) & 1 == 1);
    }
    let mut writer = BitWriter::new(Vec::new());
    for part in all.chunks(13) {
        writer.write_bits(part);
    }
    let bytes = writer.finish();
    assert_eq!(bytes.len(), 126);
    let mut reader = BitReader::new(&bytes);
    assert_eq!(reader.read_bits(1003), Some(all));
    assert_eq!(reader.read_bits(5), Some(vec![false; 5]));
    assert_eq!(reader.read_bits(1), None);
}

/// The codes and escapes of a stream of 12-bit codes, each with the width
/// that it was read at.
fn walk(stream: &[u8]) -> Vec<(u64, usize, bool)> {
    let mut reader = BitReader::new(stream);
    let mut size = 9;
    let mut items = Vec::new();
    while let Some(group) = reader.read_bits(size) {
        let value = value_of(&group);
        let escape = !items.is_empty() && value == (1 << size) - 1;
        items.push((value, size, escape));
        if escape {
            size += 1;
        }
    }
    items
}

#[test]
fn wider_codes_are_announced_by_an_escape() {
    let mut input = Vec::new();
    let mut seed = 9u32;
    for _ in 0..1200 {
        seed = seed.wrapping_mul(1664525).wrapping_add(1013904223);
        input.push((seed >> 16) as u8);
    }
    let mut encoder = ZwlBitEncoder::<LikeU12>::new(input.clone(), FilledBehaviour::Clear);
    let stream = encoder.encode_headerless();
    let learned = encoder.dictionary().words.len();
    assert!(256 + learned >= 1024 && 256 + learned < 2048, "{learned}");
    let items = walk(&stream);
    let escapes: Vec<_> = items.iter().filter(|item| item.2).collect();
    assert_eq!(escapes.len(), 2);
    assert_eq!(*escapes[0], (511, 9, true));
    assert_eq!(*escapes[1], (1023, 10, true));
    let mut codes = 0;
    let mut width = 9;
    for (position, (value, size, escape)) in items.iter().enumerate() {
        assert!(*size >= width);
        if *size > width {
            assert_eq!(items[position - 1], ((1 << width) - 1, width, true));
            assert_eq!(*size, width + 1);
            assert_eq!(256 + codes, 1 << width);
        }
        width = *size;
        if !escape {
            assert!(*value < 256 + codes as u64 || codes == 0);
            codes += 1;
        }
    }
    assert_eq!(codes, learned + 1);
    assert_eq!(width, 11);
    let mut decoder = ZwlBitDecoder::<LikeU12>::new(stream, FilledBehaviour::Clear);
    assert_eq!(decoder.decode(), Ok(input));
}

#[test]
fn sixteen_bit_codes_are_never_announced() {
    let mut input = Vec::new();
    let mut seed = 9u32;
    for _ in 0..2500 {
        seed = seed.wrapping_mul(1664525).wrapping_add(1013904223);
        input.push((seed >> 16) as u8);
    }
    let mut encoder = ZwlBitEncoder::<LikeU16>::new(input, FilledBehaviour::Clear);
    let stream = encoder.encode_headerless();
    let learned = encoder.dictionary().words.len();
    assert_eq!(stream.len(), 2 * (learned + 1));
    for code in stream.chunks(2) {
        assert!(code != [0xff, 0xff]);
    }
}

/// Writes the codes from `first` to `last`, each at the width that a decoder
/// reads it with, after the escapes that widen the codes in time.
fn write_run(writer: &mut BitWriter, size: &mut usize, first: u64, last: u64) {
    for code in first..=last {
        if code == (1 << *size) - 1 {
            writer.write_bits(&escape_bits(*size));
            *size += 1;
        }
        writer.write_bits(&code_bits(&LikeU12::from_u64(code).unwrap(), *size));
    }
}

#[test]
fn code_lost_in_a_clear_is_refused() {
    let mut writer = BitWriter::new(Vec::new());
    let mut size = 9;
    writer.write_bits(&code_bits(&LikeU12::from_byte(97), size));
    write_run(&mut writer, &mut size, 256, 4094);
    assert_eq!(size, 12);
    writer.write_bits(&code_bits(&LikeU12::from_u64(300).unwrap(), size));
    let complete = writer.finish();
    let mut decoder = ZwlBitDecoder::<LikeU12>::new(complete.clone(), FilledBehaviour::Clear);
    let output = decoder.decode().unwrap();
    assert!(output.iter().all(|byte| *byte == 97));
    assert!(decoder.dictionary().words.is_empty());

    let mut writer = BitWriter::new(Vec::new());
    let mut size = 9;
    writer.write_bits(&code_bits(&LikeU12::from_byte(97), size));
    write_run(&mut writer, &mut size, 256, 4094);
    writer.write_bits(&code_bits(&LikeU12::from_u64(300).unwrap(), size));
    writer.write_bits(&code_bits(&LikeU12::from_byte(98), size));
    let broken = writer.finish();
    let mut decoder = ZwlBitDecoder::<LikeU12>::new(broken.clone(), FilledBehaviour::Clear);
    assert_eq!(decoder.decode(), Err(ZwlError::DictionaryInvariantViolation));

    let mut decoder = ZwlBitDecoder::<LikeU12>::new(broken, FilledBehaviour::Freeze);
    let output = decoder.decode().unwrap();
    assert_eq!(output.last(), Some(&98));
    assert_eq!(decoder.dictionary().words.len(), 4095 - 256);
}

#[test]
fn escape_at_the_declared_width_starts_over() {
    let mut writer = BitWriter::new(Vec::new());
    writer.write_bits(&code_bits(&LikeU12::from_byte(97), 9));
    writer.write_bits(&escape_bits(9));
    writer.write_bits(&escape_bits(10));
    writer.write_bits(&escape_bits(11));
    writer.write_bits(&code_bits(&LikeU12::from_byte(98), 12));
    writer.write_bits(&escape_bits(12));
    writer.write_bits(&code_bits(&LikeU12::from_byte(99), 9));
    let stream = writer.finish();
    let mut decoder = ZwlBitDecoder::<LikeU12>::new(stream, FilledBehaviour::Clear);
    assert_eq!(decoder.decode(), Ok(vec![97, 98, 99]));
}

#[test]
fn escape_at_sixteen_bits_goes_to_nine() {
    let mut writer = BitWriter::new(Vec::new());
    writer.write_bits(&code_bits(&LikeU16(97), 16));
    writer.write_bits(&escape_bits(16));
    writer.write_bits(&code_bits(&LikeU16(98), 9));
    writer.write_bits(&escape_bits(9));
    writer.write_bits(&code_bits(&LikeU16(256), 10));
    let stream = writer.finish();
    let mut decoder = ZwlBitDecoder::<LikeU16>::new(stream, FilledBehaviour::Clear);
    assert_eq!(decoder.decode(), Ok(vec![97, 98, 97, 98]));
}
