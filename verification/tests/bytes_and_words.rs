//! Little-endian integers and class-dependent words.

use elf_reader::bytes::{as_u16_le, as_u32_le, as_u64_le};
use elf_reader::types::{Bits, FromBytes, VariableBits};

#[test]
fn sixteen_bits_are_read_low_byte_first() {
    assert_eq!(as_u16_le(&[0x34, 0x12]), 0x1234);
    assert_eq!(as_u16_le(&[0x00, 0x00]), 0);
    assert_eq!(as_u16_le(&[0xff, 0xff]), u16::MAX);
    assert_eq!(as_u16_le(&[0x3e, 0x00]), 62);
}

#[test]
fn thirty_two_bits_are_read_low_byte_first() {
    assert_eq!(as_u32_le(&[0x78, 0x56, 0x34, 0x12]), 0x1234_5678);
    assert_eq!(as_u32_le(&[0xff, 0xff, 0xff, 0xff]), u32::MAX);
    assert_eq!(as_u32_le(&[0x03, 0x4c, 0xff, 0x6f]), 1879002115);
    assert_eq!(as_u32_le(&[0x01, 0x00, 0x00, 0x70]), 1879048193);
}

#[test]
fn sixty_four_bits_are_read_low_byte_first() {
    assert_eq!(
        as_u64_le(&[0xef, 0xcd, 0xab, 0x89, 0x67, 0x45, 0x23, 0x01]),
        0x0123_4567_89ab_cdef
    );
    assert_eq!(as_u64_le(&[0xff; 8]), u64::MAX);
    assert_eq!(as_u64_le(&[0, 0, 0, 0, 0, 0, 0, 0x80]), 1u64 << 63);
    assert_eq!(as_u64_le(&[0x08, 0x02, 0, 0, 0, 0, 0, 0]), 520);
}

#[test]
fn bytes_behind_the_number_are_ignored() {
    assert_eq!(as_u16_le(&[0x01, 0x02, 0xaa, 0xbb]), 0x0201);
    assert_eq!(as_u32_le(&[0x01, 0x02, 0x03, 0x04, 0xaa]), 0x0403_0201);
    assert_eq!(as_u64_le(&[1, 0, 0, 0, 0, 0, 0, 0, 0xaa, 0xbb]), 1);
}

#[test]
fn readers_agree_with_the_standard_conversions() {
    let samples: [[u8; 8]; 4] = [
        [0, 0, 0, 0, 0, 0, 0, 0],
        [1, 2, 3, 4, 5, 6, 7, 8],
        [0xff, 0, 0xff, 0, 0xff, 0, 0xff, 0],
        [0x80, 0x7f, 0x01, 0xfe, 0x10, 0xef, 0xaa, 0x55],
    ];
    for s in samples {
        assert_eq!(as_u16_le(&s), u16::from_le_bytes([s[0], s[1]]));
        assert_eq!(as_u32_le(&s), u32::from_le_bytes([s[0], s[1], s[2], s[3]]));
        assert_eq!(as_u64_le(&s), u64::from_le_bytes(s));
        assert_eq!(<i64 as FromBytes>::from_bytes(&s), i64::from_le_bytes(s));
    }
}

#[test]
fn from_bytes_reads_each_width() {
    assert_eq!(<u16 as FromBytes>::from_bytes(&[0x01, 0x00]), 1);
    assert_eq!(<u16 as FromBytes>::from_bytes(&[0xf1, 0xff]), 0xfff1);
    assert_eq!(<u32 as FromBytes>::from_bytes(&[0x04, 0x00, 0x00, 0x00]), 4);
    assert_eq!(<u64 as FromBytes>::from_bytes(&[0x02, 0, 0, 0, 0x02, 0, 0, 0]), 0x0000_0002_0000_0002);
}

#[test]
fn signed_numbers_are_twos_complement() {
    assert_eq!(<i64 as FromBytes>::from_bytes(&[0xfc, 0xff, 0xff, 0xff, 0xff, 0xff, 0xff, 0xff]), -4);
    assert_eq!(<i64 as FromBytes>::from_bytes(&[0xff; 8]), -1);
    assert_eq!(<i64 as FromBytes>::from_bytes(&[0, 0, 0, 0, 0, 0, 0, 0x80]), i64::MIN);
    assert_eq!(
        <i64 as FromBytes>::from_bytes(&[0xff, 0xff, 0xff, 0xff, 0xff, 0xff, 0xff, 0x7f]),
        i64::MAX
    );
    assert_eq!(<i64 as FromBytes>::from_bytes(&[0x2a, 0, 0, 0, 0, 0, 0, 0]), 42);
}

#[test]
fn a_word_takes_its_width_from_the_slice() {
    assert_eq!(VariableBits::from(&[0x78, 0x56, 0x34, 0x12]), VariableBits::U32(0x1234_5678));
    assert_eq!(
        VariableBits::from(&[0x78, 0x56, 0x34, 0x12, 0, 0, 0, 0]),
        VariableBits::U64(0x1234_5678)
    );
    assert_eq!(VariableBits::from(&[0xff; 8]), VariableBits::U64(u64::MAX));
    assert_ne!(VariableBits::U32(7), VariableBits::U64(7));
}

#[test]
fn a_word_becomes_an_index() {
    assert_eq!(VariableBits::U32(0).usize(), 0);
    assert_eq!(VariableBits::U32(u32::MAX).usize(), u32::MAX as usize);
    assert_eq!(VariableBits::U64(520).usize(), 520);
    assert_eq!(VariableBits::U64(u64::MAX).usize(), u64::MAX as usize);
    assert_eq!(VariableBits::U32(9).as_u64(), 9);
    assert_eq!(VariableBits::U64(u64::MAX).as_u64(), u64::MAX);
}

#[test]
fn the_two_classes_differ() {
    assert_ne!(Bits::B32, Bits::B64);
    assert_eq!(Bits::B64, Bits::B64.clone());
}
