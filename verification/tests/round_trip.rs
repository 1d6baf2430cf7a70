use std::str;
use zwl_gs::bit_decoder::ZwlBitDecoder;
use zwl_gs::bit_encoder::ZwlBitEncoder;
use zwl_gs::dictionary::FilledBehaviour;
use zwl_gs::like_u12::LikeU12;
use zwl_gs::like_u16::LikeU16;
use zwl_gs::like_u32::LikeU32;
use zwl_gs::like_u64::LikeU64;

const PREAMBLE: &str = "The Project Gutenberg eBook of The Ethics of Aristotle
    
This ebook is for the use of anyone anywhere in the United States and
most other parts of the world at no cost and with almost no restrictions
whatsoever. You may copy it, give it away or re-use it under the terms
of the Project Gutenberg License included with this ebook or online
at www.gutenberg.org. If you are not located in the United States,
you will have to check the laws of the country where you are located
before using this eBook.";

#[test]
fn encoding_decoding_l_u12() {
    let mut encoder =
        ZwlBitEncoder::<LikeU12>::new(PREAMBLE.as_bytes().to_vec(), FilledBehaviour::Clear);

    let buffer = encoder.encode();
    assert!(buffer.len() > 2);
    println!("{:?}", buffer);
    let mut decoder = ZwlBitDecoder::<LikeU12>::new(buffer[2..].to_vec(), FilledBehaviour::Clear);
    let buffer_d = decoder.decode();
    assert!(buffer_d.is_ok());
    let buffer_d = buffer_d.unwrap();

    println!("-----");
    println!("encoder dict: {:?}", encoder.dictionary().words);
    println!("-----");

    println!("-----");
    println!(
        "decoder dict: {:?}",
        decoder.dictionary().words
    );
    println!("-----");
    println!(
        "lost: {:?}",
        &decoder.dictionary().words[..] == &encoder.dictionary().words[0..decoder.dictionary().words.len()]
    );

    assert_eq!(str::from_utf8(&buffer_d.to_vec()), Ok(PREAMBLE))
}

#[test]
fn encoding_decoding_l_u12_headless() {
    let mut encoder =
        ZwlBitEncoder::<LikeU12>::new(PREAMBLE.as_bytes().to_vec(), FilledBehaviour::Clear);

    let buffer = encoder.encode_headerless();
    assert!(!buffer.is_empty());
    println!("{:?}", buffer);
    let mut decoder = ZwlBitDecoder::<LikeU12>::new(buffer.clone(), FilledBehaviour::Clear);
    let buffer_d = decoder.decode();
    assert!(buffer_d.is_ok());
    let buffer_d = buffer_d.unwrap();

    println!("-----");
    println!("encoder dict: {:?}", encoder.dictionary().words);
    println!("-----");

    assert_eq!(PREAMBLE.as_bytes(), &buffer_d.to_vec());
    assert_eq!(Ok(PREAMBLE), str::from_utf8(&buffer_d.to_vec()));
}

#[test]
fn longer_text() {
    let mut encoder: ZwlBitEncoder<LikeU16> =
        ZwlBitEncoder::<LikeU16>::new(PREAMBLE.as_bytes().to_vec(), FilledBehaviour::Clear);
    let buffer = encoder.encode();
    assert!(buffer.len() > 2);
    println!("{:?}", buffer);
    let mut decoder = ZwlBitDecoder::<LikeU16>::new(buffer[2..].to_vec(), FilledBehaviour::Clear);
    let buffer_d = decoder.decode();
    assert!(buffer_d.is_ok());

    assert_eq!(Ok(PREAMBLE), str::from_utf8(&buffer_d.unwrap().to_vec()))
}

#[test]
fn encoding_decoding_l_u16() {
    let mut encoder =
        ZwlBitEncoder::<LikeU16>::new(PREAMBLE.as_bytes().to_vec(), FilledBehaviour::Clear);

    let buffer = encoder.encode();
    assert!(buffer.len() > 2);
    println!("{:?}", buffer);
    let mut decoder = ZwlBitDecoder::<LikeU16>::new(buffer[2..].to_vec(), FilledBehaviour::Clear);
    let buffer_d = decoder.decode();
    assert!(buffer_d.is_ok());

    println!("-----");
    println!("encoder dict: {:?}", encoder.dictionary().words);
    println!("-----");

    assert_eq!(str::from_utf8(&buffer_d.unwrap().to_vec()), Ok(PREAMBLE))
}

#[test]
fn encoding_decoding_l_u32() {
    let mut encoder =
        ZwlBitEncoder::<LikeU32>::new(PREAMBLE.as_bytes().to_vec(), FilledBehaviour::Clear);

    let buffer = encoder.encode();
    assert!(buffer.len() > 2);
    println!("{:?}", buffer);
    let mut decoder = ZwlBitDecoder::<LikeU32>::new(buffer[2..].to_vec(), FilledBehaviour::Clear);
    let buffer_d = decoder.decode();
    assert!(buffer_d.is_ok());

    println!("-----");
    println!("encoder dict: {:?}", encoder.dictionary().words);
    println!("-----");

    println!("-----");
    println!("decoder dict: {:?}", decoder.dictionary().words);
    println!("-----");
    println!(
        "lost: {:?}",
        &decoder.dictionary().words[..] == &encoder.dictionary().words[0..decoder.dictionary().words.len()]
    );

    assert_eq!(str::from_utf8(&buffer_d.unwrap().to_vec()), Ok(PREAMBLE))
}

#[test]
fn encoding_decoding_l_u64() {
    let mut encoder =
        ZwlBitEncoder::<LikeU64>::new(PREAMBLE.as_bytes().to_vec(), FilledBehaviour::Clear);

    let buffer = encoder.encode();
    assert!(buffer.len() > 2);
    println!("{:?}", buffer);
    let mut decoder = ZwlBitDecoder::<LikeU64>::new(buffer[2..].to_vec(), FilledBehaviour::Clear);
    let buffer_d = decoder.decode();
    assert!(buffer_d.is_ok());

    println!("-----");
    println!("encoder dict: {:?}", encoder.dictionary().words);
    println!("-----");

    println!("-----");
    println!("decoder dict: {:?}", decoder.dictionary().words);
    println!("-----");
    println!(
        "lost: {:?}",
        &decoder.dictionary().words[..] == &encoder.dictionary().words[0..decoder.dictionary().words.len()]
    );

    assert_eq!(str::from_utf8(&buffer_d.unwrap().to_vec()), Ok(PREAMBLE))
}

#[test]
fn stream_in_a_larger_zeroed_buffer() {
    let mut encoder =
        ZwlBitEncoder::<LikeU12>::new(PREAMBLE.as_bytes().to_vec(), FilledBehaviour::Clear);
    let stream = encoder.encode();
    let mut buffer = vec![0u8; PREAMBLE.len() * 4];
    buffer[..stream.len()].copy_from_slice(&stream);
    let mut decoder = ZwlBitDecoder::<LikeU12>::new(buffer[2..].to_vec(), FilledBehaviour::Clear);
    let buffer_d = decoder.decode().unwrap();
    assert!(buffer_d.len() > PREAMBLE.len());
    assert_eq!(str::from_utf8(&buffer_d[..PREAMBLE.len()]), Ok(PREAMBLE));
    assert!(buffer_d[PREAMBLE.len()..].iter().all(|byte| *byte == 0));

    let mut encoder =
        ZwlBitEncoder::<LikeU16>::new(PREAMBLE.as_bytes().to_vec(), FilledBehaviour::Clear);
    let stream = encoder.encode();
    let mut buffer = vec![0u8; PREAMBLE.len() * 4];
    buffer[..stream.len()].copy_from_slice(&stream);
    let mut decoder = ZwlBitDecoder::<LikeU16>::new(buffer[2..].to_vec(), FilledBehaviour::Clear);
    let buffer_d = decoder.decode().unwrap();
    assert_eq!(str::from_utf8(&buffer_d[..PREAMBLE.len()]), Ok(PREAMBLE));
}
