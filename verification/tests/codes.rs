use zwl_gs::error::ZwlError;
use zwl_gs::like_u12::LikeU12;
use zwl_gs::like_u16::LikeU16;
use zwl_gs::like_u32::LikeU32;
use zwl_gs::like_u64::LikeU64;
use zwl_gs::traits::{Code, CustomWriteSize, LeadingZerosR, RequiredBits, ToBits, TrailingOnesR};

fn bits(pattern: &str) -> Vec<bool> {
    pattern.chars().map(|c| c == '1').collect()
}

#[test]
fn declared_and_initial_widths() {
    assert_eq!(LikeU12::custom_size(), 12);
    assert_eq!(LikeU16::custom_size(), 16);
    assert_eq!(LikeU32::custom_size(), 32);
    assert_eq!(LikeU64::custom_size(), 64);
    assert_eq!(LikeU12::initial_size(), 9);
    assert_eq!(LikeU16::initial_size(), 16);
    assert_eq!(LikeU32::initial_size(), 32);
    assert_eq!(LikeU64::initial_size(), 64);
}

#[test]
fn greatest_codes() {
    assert_eq!(LikeU12::max_value().to_u64(), 4095);
    assert_eq!(LikeU16::max_value(), LikeU16(u16::MAX));
    assert_eq!(LikeU32::max_value(), LikeU32(u32::MAX));
    assert_eq!(LikeU64::max_value(), LikeU64(u64::MAX));
}

#[test]
fn codes_of_bytes() {
    assert_eq!(LikeU12::from_byte(200).to_u64(), 200);
    assert_eq!(LikeU16::from_byte(0), LikeU16(0));
    assert_eq!(LikeU32::from_byte(255), LikeU32(255));
    assert_eq!(LikeU64::from_byte(97).to_u64(), 97);
    assert_eq!(LikeU12::default().to_u64(), 0);
    assert_eq!(LikeU16::default(), LikeU16(0));
    assert_eq!(LikeU32::default(), LikeU32(0));
    assert_eq!(LikeU64::default(), LikeU64(0));
}

#[test]
fn numbers_that_fit_become_codes() {
    assert_eq!(LikeU12::from_u64(4095).map(|c| c.to_u64()), Ok(4095));
    assert_eq!(LikeU12::from_u64(0).map(|c| c.to_u64()), Ok(0));
    assert_eq!(LikeU16::from_u64(65535), Ok(LikeU16(65535)));
    assert_eq!(LikeU32::from_u64(u32::MAX as u64), Ok(LikeU32(u32::MAX)));
    assert_eq!(LikeU64::from_u64(u64::MAX), Ok(LikeU64(u64::MAX)));
}

#[test]
fn numbers_too_wide_are_refused() {
    assert_eq!(LikeU12::from_u64(4096), Err(ZwlError::BitWidthOverflow));
    assert_eq!(LikeU12::from_u64(u64::MAX), Err(ZwlError::BitWidthOverflow));
    assert_eq!(LikeU16::from_u64(65536), Err(ZwlError::BitWidthOverflow));
    assert_eq!(LikeU32::from_u64(1 << 32), Err(ZwlError::BitWidthOverflow));
}

#[test]
fn bits_least_significant_first() {
    assert_eq!(LikeU16(5).bits_vec(), bits("1010000000000000"));
    assert_eq!(LikeU16(0x8001).bits_vec(), bits("1000000000000001"));
    assert_eq!(LikeU16(0).bits_vec(), vec![false; 16]);
    assert_eq!(LikeU32(6).bits_vec().len(), 32);
    assert_eq!(&LikeU32(6).bits_vec()[0..4], &bits("0110")[..]);
    assert_eq!(LikeU64(u64::MAX).bits_vec(), vec![true; 64]);
    assert_eq!(LikeU12::from(5u8).bits_vec(), bits("101000000000"));
    assert_eq!(LikeU12::from_u64(97).unwrap().bits_vec(), bits("100001100000"));
    assert_eq!(LikeU12::from_u64(0).unwrap().bits_vec(), vec![false; 12]);
    assert_eq!(LikeU12::from_u64(4095).unwrap().bits_vec(), vec![true; 12]);
}

#[test]
fn codes_from_bits() {
    assert_eq!(LikeU16::from_bits(&bits("101")), Ok(LikeU16(5)));
    assert_eq!(LikeU16::from_bits(&bits("")), Ok(LikeU16(0)));
    assert_eq!(LikeU16::from_bits(&vec![true; 16]), Ok(LikeU16(u16::MAX)));
    assert_eq!(LikeU32::from_bits(&bits("0000000001")), Ok(LikeU32(512)));
    assert_eq!(LikeU64::from_bits(&vec![true; 64]), Ok(LikeU64(u64::MAX)));
    assert_eq!(LikeU12::from_bits(&bits("100001100")).map(|c| c.to_u64()), Ok(97));
    assert_eq!(LikeU12::from_bits(&vec![true; 12]).map(|c| c.to_u64()), Ok(4095));
}

#[test]
fn too_many_bits_are_refused() {
    assert_eq!(LikeU12::from_bits(&vec![false; 13]), Err(ZwlError::Format));
    assert_eq!(LikeU16::from_bits(&vec![false; 17]), Err(ZwlError::Format));
    assert_eq!(LikeU32::from_bits(&vec![true; 33]), Err(ZwlError::Format));
    assert_eq!(LikeU64::from_bits(&vec![true; 65]), Err(ZwlError::Format));
}

#[test]
fn bits_and_back() {
    for value in [0u16, 1, 2, 97, 255, 256, 511, 512, 4094, 4095, 65534, 65535] {
        assert_eq!(LikeU16::from_bits(&LikeU16(value).bits_vec()), Ok(LikeU16(value)));
        if value < 4096 {
            let code = LikeU12::from_u64(value as u64).unwrap();
            assert_eq!(LikeU12::from_bits(&code.bits_vec()), Ok(code));
        }
    }
}

#[test]
fn required_bits_and_leading_zeros() {
    assert_eq!(LikeU16(0).required_bits(), 0);
    assert_eq!(LikeU16(1).required_bits(), 1);
    assert_eq!(LikeU16(255).required_bits(), 8);
    assert_eq!(LikeU16(256).required_bits(), 9);
    assert_eq!(LikeU16(u16::MAX).required_bits(), 16);
    assert_eq!(LikeU32(1 << 31).required_bits(), 32);
    assert_eq!(LikeU64(1 << 40).required_bits(), 41);
    assert_eq!(LikeU12::from_u64(2048).unwrap().required_bits(), 12);
    for value in [0u16, 1, 5, 300, 40000, u16::MAX] {
        assert_eq!(LikeU16(value).leading_zeros(), value.leading_zeros() as usize);
        assert_eq!(
            LikeU16(value).required_bits() + LikeU16(value).leading_zeros(),
            16
        );
    }
    assert_eq!(LikeU32(1).leading_zeros(), 31);
    assert_eq!(LikeU64(0).leading_zeros(), 64);
    assert_eq!(LikeU12::from_u64(1).unwrap().leading_zeros(), 11);
    assert_eq!(LikeU12::from_u64(4095).unwrap().leading_zeros(), 0);
}

#[test]
fn trailing_ones_count_the_low_set_bits() {
    assert_eq!(LikeU16(0).trailing_ones(), 0);
    assert_eq!(LikeU16(1).trailing_ones(), 1);
    assert_eq!(LikeU16(0b1011).trailing_ones(), 2);
    assert_eq!(LikeU16(511).trailing_ones(), 9);
    assert_eq!(LikeU16(u16::MAX).trailing_ones(), 16);
    assert_eq!(LikeU32(u32::MAX).trailing_ones(), 32);
    assert_eq!(LikeU64(u64::MAX).trailing_ones(), 64);
    assert_eq!(LikeU64(u64::MAX - 1).trailing_ones(), 0);
    assert_eq!(LikeU12::from_u64(4095).unwrap().trailing_ones(), 12);
    assert_eq!(LikeU12::from_u64(1023).unwrap().trailing_ones(), 10);
}

#[test]
fn subtraction_of_codes() {
    assert_eq!(LikeU16(300) - LikeU16(255) - LikeU16(1), LikeU16(44));
    assert_eq!(LikeU32(7) - LikeU32(7), LikeU32(0));
    assert_eq!(LikeU64(u64::MAX) - LikeU64(1), LikeU64(u64::MAX - 1));
    let difference = LikeU12::from_u64(4095).unwrap() - LikeU12::from_u64(4000).unwrap();
    assert_eq!(difference.to_u64(), 95);
}

#[test]
fn conversions_of_the_standard_library() {
    assert_eq!(LikeU12::from(200u8).to_u64(), 200);
    assert_eq!(LikeU16::from(7u8), LikeU16(7));
    assert_eq!(LikeU32::from(255u8), LikeU32(255));
    assert_eq!(LikeU64::from(0u8), LikeU64(0));

    assert_eq!(LikeU12::try_from(4095usize).map(|code| code.to_u64()), Ok(4095));
    assert_eq!(LikeU12::try_from(4096usize), Err(ZwlError::BitWidthOverflow));
    assert_eq!(LikeU16::try_from(65535usize), Ok(LikeU16(65535)));
    assert_eq!(LikeU16::try_from(65536usize), Err(ZwlError::BitWidthOverflow));
    assert_eq!(LikeU32::try_from(70000usize), Ok(LikeU32(70000)));
    assert_eq!(LikeU64::try_from(usize::MAX), Ok(LikeU64(usize::MAX as u64)));

    assert_eq!(usize::from(LikeU12::from(9u8)), 9);
    assert_eq!(usize::from(LikeU16(65535)), 65535);
    assert_eq!(usize::try_from(LikeU32(70000)), Ok(70000));
    assert_eq!(usize::try_from(LikeU64(1 << 40)), Ok(1 << 40));
    let number: usize = LikeU16(300).into();
    assert_eq!(number, 300);

    assert_eq!(LikeU16::try_from(&bits("101")[..]), Ok(LikeU16(5)));
    assert_eq!(LikeU32::try_from(&bits("0000000001")[..]), Ok(LikeU32(512)));
    assert_eq!(LikeU64::try_from(&vec![true; 64][..]), Ok(LikeU64(u64::MAX)));
    assert_eq!(
        LikeU12::try_from(&bits("100001100")[..]).map(|code| code.to_u64()),
        Ok(97)
    );
    assert_eq!(LikeU12::try_from(&vec![false; 13][..]), Err(ZwlError::Format));
    assert_eq!(LikeU16::try_from(&vec![false; 17][..]), Err(ZwlError::Format));
    assert_eq!(LikeU32::try_from(&vec![false; 33][..]), Err(ZwlError::Format));
    assert_eq!(LikeU64::try_from(&vec![false; 65][..]), Err(ZwlError::Format));
}

#[test]
fn codes_are_ordered_as_their_numbers() {
    assert!(LikeU16(3) < LikeU16(5));
    assert!(LikeU16(5) >= LikeU16(5));
    assert!(LikeU16(65534) < LikeU16::max_value());
    assert!(LikeU32(1 << 20) > LikeU32(255));
    assert!(LikeU64(0) <= LikeU64(u64::MAX));
    assert!(LikeU12::from(255u8) < LikeU12::from_u64(256).unwrap());
    assert!(LikeU12::from_u64(4094).unwrap() < LikeU12::max_value());
    assert!(LikeU12::from_u64(4095).unwrap() == LikeU12::max_value());
    assert!(LikeU12::from(1u8) != LikeU12::from(2u8));
    assert_eq!(
        LikeU16(7).partial_cmp(&LikeU16(7)),
        Some(std::cmp::Ordering::Equal)
    );
    assert_eq!(
        LikeU12::from(9u8).partial_cmp(&LikeU12::from(4u8)),
        Some(std::cmp::Ordering::Greater)
    );
}
