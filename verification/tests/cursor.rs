//! The forward-only cursor.

use elf_reader::byte_reader::ByteReader;
use elf_reader::bytes::{as_u16_le, as_u32_le};
use elf_reader::types::{Bits, FromBytes, VariableBits};

#[test]
fn a_new_cursor_has_everything_left() {
    let data = [1u8, 2, 3];
    let reader = ByteReader::new(&data, &Bits::B64);
    assert_eq!(reader.remaining(), 3);
    let empty: [u8; 0] = [];
    assert_eq!(ByteReader::new(&empty, &Bits::B32).remaining(), 0);
}

#[test]
fn bytes_come_out_in_order() {
    let data = [10u8, 20, 30];
    let mut reader = ByteReader::new(&data, &Bits::B64);
    assert_eq!(reader.byte(), 10);
    assert_eq!(reader.remaining(), 2);
    assert_eq!(reader.byte(), 20);
    assert_eq!(reader.byte(), 30);
    assert_eq!(reader.remaining(), 0);
}

#[test]
fn a_word_is_eight_bytes_in_64_bit_mode() {
    let data = [0x08u8, 0x02, 0, 0, 0, 0, 0, 0, 0xaa, 0xbb];
    let mut reader = ByteReader::new(&data, &Bits::B64);
    assert_eq!(reader.word(), VariableBits::U64(520));
    assert_eq!(reader.remaining(), 2);
    assert_eq!(reader.byte(), 0xaa);
}

#[test]
fn a_word_is_four_bytes_in_32_bit_mode() {
    let data = [0x08u8, 0x02, 0, 0, 0x01, 0, 0, 0, 0xaa];
    let mut reader = ByteReader::new(&data, &Bits::B32);
    assert_eq!(reader.word(), VariableBits::U32(520));
    assert_eq!(reader.remaining(), 5);
    assert_eq!(reader.word(), VariableBits::U32(1));
    assert_eq!(reader.byte(), 0xaa);
}

#[test]
fn read_hands_the_next_bytes_to_the_conversion() {
    let data = [0x34u8, 0x12, 0x78, 0x56, 0x34, 0x12, 0xff];
    let mut reader = ByteReader::new(&data, &Bits::B64);
    assert_eq!(reader.read(2, u16::from_bytes), 0x1234);
    assert_eq!(reader.read(4, u32::from_bytes), 0x1234_5678);
    assert_eq!(reader.remaining(), 1);
    let mut again = ByteReader::new(&data, &Bits::B64);
    assert_eq!(again.read(2, as_u16_le), 0x1234);
    assert_eq!(again.read(4, as_u32_le), 0x1234_5678);
    let seen = again.read(1, |s: &[u8]| s.to_vec());
    assert_eq!(seen, vec![0xff]);
}

#[test]
fn read_of_nothing_moves_nothing() {
    let data = [7u8, 8];
    let mut reader = ByteReader::new(&data, &Bits::B64);
    let len = reader.read(0, |s: &[u8]| s.len());
    assert_eq!(len, 0);
    assert_eq!(reader.read_raw(0), &[] as &[u8]);
    assert_eq!(reader.remaining(), 2);
    assert_eq!(reader.byte(), 7);
}

#[test]
fn raw_reads_borrow_from_the_buffer() {
    let data = [1u8, 2, 3, 4, 5];
    let mut reader = ByteReader::new(&data, &Bits::B64);
    let first = reader.read_raw(2);
    let second = reader.read_raw(3);
    assert_eq!(first, &[1, 2]);
    assert_eq!(second, &[3, 4, 5]);
    assert_eq!(first.as_ptr(), data.as_ptr());
    assert_eq!(reader.remaining(), 0);
}

#[test]
fn mixed_reads_follow_one_another() {
    let data = [0xaau8, 0x01, 0x00, 0x02, 0, 0, 0, 0, 0, 0, 0, 0xbb, 0xcc];
    let mut reader = ByteReader::new(&data, &Bits::B64);
    assert_eq!(reader.byte(), 0xaa);
    assert_eq!(reader.read(2, u16::from_bytes), 1);
    assert_eq!(reader.word(), VariableBits::U64(2));
    assert_eq!(reader.read_raw(2), &[0xbb, 0xcc]);
    assert_eq!(reader.remaining(), 0);
}
