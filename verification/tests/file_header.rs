//! The file header and the decode of a whole file.

use elf_reader::elf::{
    read_elf, read_file_header, ElfType, Endian, FileHeader, FileIdent, InstructionSet,
};
use elf_reader::error::ElfError;
use elf_reader::section::SectionType;
use elf_reader::types::{Bits, VariableBits};

fn word(w: VariableBits) -> Vec<u8> {
    match w {
        VariableBits::U64(u) => u.to_le_bytes().to_vec(),
        VariableBits::U32(u) => u.to_le_bytes().to_vec(),
    }
}

/// The bytes of a header that holds the fields of `h`, written by hand.
fn encode(h: &FileHeader) -> Vec<u8> {
    let mut b = vec![0x7f, 0x45, 0x4c, 0x46];
    b.push(match h.e_ident.bits {
        Bits::B32 => 1,
        Bits::B64 => 2,
    });
    b.push(match h.e_ident.endian {
        Endian::Little => 1,
        Endian::Big => 2,
    });
    b.push(1);
    b.push(0);
    b.extend_from_slice(&[0; 8]);
    let ty: u16 = match h.e_type {
        ElfType::NoType => 0,
        ElfType::Rel => 1,
        ElfType::Exec => 2,
        ElfType::Dyn => 3,
        ElfType::Core => 4,
    };
    b.extend_from_slice(&ty.to_le_bytes());
    b.extend_from_slice(&0x3eu16.to_le_bytes());
    b.extend_from_slice(&1u32.to_le_bytes());
    b.extend(word(h.e_entry));
    b.extend(word(h.e_phoff));
    b.extend(word(h.e_shoff));
    b.extend_from_slice(&h.e_flags.to_le_bytes());
    b.extend_from_slice(&h.e_ehsize.to_le_bytes());
    b.extend_from_slice(&h.e_phentsize.to_le_bytes());
    b.extend_from_slice(&h.e_phnum.to_le_bytes());
    b.extend_from_slice(&h.e_shentsize.to_le_bytes());
    b.extend_from_slice(&h.e_shnum.to_le_bytes());
    b.extend_from_slice(&(h.e_shstrndx as u16).to_le_bytes());
    b
}

fn relocatable() -> FileHeader {
    FileHeader {
        e_ident: FileIdent { bits: Bits::B64, endian: Endian::Little },
        e_type: ElfType::Rel,
        e_machine: InstructionSet::AmdX86_64,
        e_entry: VariableBits::U64(0),
        e_phoff: VariableBits::U64(0),
        e_shoff: VariableBits::U64(0x208),
        e_flags: 0,
        e_ehsize: 64,
        e_phentsize: 0,
        e_phnum: 0,
        e_shentsize: 64,
        e_shnum: 11,
        e_shstrndx: 10,
    }
}

fn section_entry(name: u32, ty: u32, offset: u64, size: u64) -> Vec<u8> {
    let mut e = Vec::new();
    e.extend_from_slice(&name.to_le_bytes());
    e.extend_from_slice(&ty.to_le_bytes());
    e.extend_from_slice(&[0; 16]);
    e.extend_from_slice(&offset.to_le_bytes());
    e.extend_from_slice(&size.to_le_bytes());
    e.extend_from_slice(&[0; 24]);
    e
}

/// A whole file: header, a four-byte `.text`, the name table, and a table
/// of three section headers at byte 96.
fn whole_file() -> Vec<u8> {
    let mut h = relocatable();
    h.e_shoff = VariableBits::U64(96);
    h.e_shnum = 3;
    h.e_shstrndx = 2;
    let mut f = encode(&h);
    assert_eq!(f.len(), 64);
    f.extend_from_slice(&[0x90, 0x90, 0x90, 0xc3]);
    f.extend_from_slice(b"\0.text\0.shstrtab\0");
    f.resize(96, 0);
    f.extend(section_entry(0, 0, 0, 0));
    f.extend(section_entry(1, 1, 64, 4));
    f.extend(section_entry(7, 3, 68, 17));
    f
}

#[test]
fn a_relocatable_header_survives_the_round_trip() {
    let h = relocatable();
    let bytes = encode(&h);
    assert_eq!(bytes.len(), 64);
    assert_eq!(read_file_header(&bytes), Ok(h));
}

#[test]
fn every_scalar_field_survives_the_round_trip() {
    let h = FileHeader {
        e_ident: FileIdent { bits: Bits::B64, endian: Endian::Little },
        e_type: ElfType::Rel,
        e_machine: InstructionSet::AmdX86_64,
        e_entry: VariableBits::U64(0x0102_0304_0506_0708),
        e_phoff: VariableBits::U64(0x1112_1314_1516_1718),
        e_shoff: VariableBits::U64(0x2122_2324_2526_2728),
        e_flags: 0x3132_3334,
        e_ehsize: 0x4142,
        e_phentsize: 0x5152,
        e_phnum: 0x6162,
        e_shentsize: 0x7172,
        e_shnum: 0x8182,
        e_shstrndx: 0x9192,
    };
    let got = read_file_header(&encode(&h)).unwrap();
    assert_eq!(got.e_entry, h.e_entry);
    assert_eq!(got.e_phoff, h.e_phoff);
    assert_eq!(got.e_shoff, h.e_shoff);
    assert_eq!(got.e_flags, h.e_flags);
    assert_eq!(got.e_ehsize, h.e_ehsize);
    assert_eq!(got.e_phentsize, h.e_phentsize);
    assert_eq!(got.e_phnum, h.e_phnum);
    assert_eq!(got.e_shentsize, h.e_shentsize);
    assert_eq!(got.e_shnum, h.e_shnum);
    assert_eq!(got.e_shstrndx, h.e_shstrndx);
    assert_eq!(got, h);
}

#[test]
fn extreme_fields_survive_the_round_trip() {
    for (word, half, flags, index) in
        [(0u64, 0u16, 0u32, 0usize), (u64::MAX, u16::MAX, u32::MAX, 0xffff), (1 << 63, 0x8000, 1 << 31, 0x8000)]
    {
        let mut h = relocatable();
        h.e_entry = VariableBits::U64(word);
        h.e_phoff = VariableBits::U64(word ^ 1);
        h.e_shoff = VariableBits::U64(word ^ 2);
        h.e_flags = flags;
        h.e_ehsize = half;
        h.e_phentsize = half ^ 1;
        h.e_phnum = half ^ 2;
        h.e_shentsize = half ^ 3;
        h.e_shnum = half ^ 4;
        h.e_shstrndx = index;
        assert_eq!(read_file_header(&encode(&h)), Ok(h));
    }
}

#[test]
fn every_object_type_and_order_survives_the_round_trip() {
    for ty in [ElfType::NoType, ElfType::Rel, ElfType::Exec, ElfType::Dyn, ElfType::Core] {
        for endian in [Endian::Little, Endian::Big] {
            let mut h = relocatable();
            h.e_type = ty;
            h.e_ident.endian = endian;
            assert_eq!(read_file_header(&encode(&h)), Ok(h));
        }
    }
}

#[test]
fn a_32_bit_header_has_narrow_words() {
    let h = FileHeader {
        e_ident: FileIdent { bits: Bits::B32, endian: Endian::Little },
        e_type: ElfType::Rel,
        e_machine: InstructionSet::AmdX86_64,
        e_entry: VariableBits::U32(0x0102_0304),
        e_phoff: VariableBits::U32(0x34),
        e_shoff: VariableBits::U32(0xffff_fff0),
        e_flags: 7,
        e_ehsize: 52,
        e_phentsize: 32,
        e_phnum: 1,
        e_shentsize: 40,
        e_shnum: 9,
        e_shstrndx: 8,
    };
    let bytes = encode(&h);
    assert_eq!(bytes.len(), 52);
    assert_eq!(read_file_header(&bytes), Ok(h));
    assert_eq!(read_file_header(&bytes[..51]), Err(ElfError::OutOfBounds));
}

#[test]
fn what_follows_the_header_does_not_change_it() {
    let h = relocatable();
    let mut bytes = encode(&h);
    bytes.extend_from_slice(&[0xaa; 100]);
    assert_eq!(read_file_header(&bytes), Ok(h));
}

#[test]
fn a_declared_big_endian_file_is_still_read_little_endian() {
    let mut h = relocatable();
    h.e_ident.endian = Endian::Big;
    h.e_shnum = 0x0102;
    let bytes = encode(&h);
    assert_eq!(&bytes[60..62], &[0x02, 0x01]);
    let got = read_file_header(&bytes).unwrap();
    assert_eq!(got.e_ident.endian, Endian::Big);
    assert_eq!(got.e_shnum, 0x0102);
}

#[test]
fn both_accepted_platforms_decode_alike() {
    let h = relocatable();
    let mut bytes = encode(&h);
    bytes[7] = 3;
    assert_eq!(read_file_header(&bytes), Ok(h));
    bytes[7] = 0;
    assert_eq!(read_file_header(&bytes), Ok(h));
}

#[test]
fn padding_and_format_version_are_not_looked_at() {
    let h = relocatable();
    let mut bytes = encode(&h);
    for b in &mut bytes[8..16] {
        *b = 0xee;
    }
    for b in &mut bytes[20..24] {
        *b = 0xdd;
    }
    assert_eq!(read_file_header(&bytes), Ok(h));
}

#[test]
fn malformed_magic_is_refused() {
    let good = encode(&relocatable());
    for i in 0..4 {
        let mut bytes = good.clone();
        bytes[i] ^= 0x01;
        assert_eq!(read_file_header(&bytes), Err(ElfError::NotElf));
        assert_eq!(read_elf(bytes).err(), Some(ElfError::NotElf));
    }
    assert_eq!(read_elf(b"\x7fELG".to_vec()).err(), Some(ElfError::NotElf));
    assert_eq!(read_elf(vec![0; 64]).err(), Some(ElfError::NotElf));
}

#[test]
fn an_unsupported_class_is_refused() {
    for class in [0u8, 3, 0xff] {
        let mut bytes = encode(&relocatable());
        bytes[4] = class;
        assert_eq!(read_file_header(&bytes), Err(ElfError::BadClass(class)));
        assert_eq!(read_elf(bytes).err(), Some(ElfError::BadClass(class)));
    }
}

#[test]
fn an_unknown_byte_order_is_refused() {
    for order in [0u8, 3, 0x80] {
        let mut bytes = encode(&relocatable());
        bytes[5] = order;
        assert_eq!(read_file_header(&bytes), Err(ElfError::BadByteOrder(order)));
    }
}

#[test]
fn a_version_other_than_one_is_refused() {
    for version in [0u8, 2, 0xff] {
        let mut bytes = encode(&relocatable());
        bytes[6] = version;
        assert_eq!(read_file_header(&bytes), Err(ElfError::BadVersion(version)));
    }
}

#[test]
fn other_platforms_are_refused() {
    for platform in [1u8, 2, 4, 9, 0xff] {
        let mut bytes = encode(&relocatable());
        bytes[7] = platform;
        assert_eq!(read_file_header(&bytes), Err(ElfError::UnsupportedPlatform(platform)));
    }
}

#[test]
fn an_unknown_object_type_is_refused() {
    for ty in [5u16, 0x0100, 0xfe00, 0xffff] {
        let mut bytes = encode(&relocatable());
        bytes[16..18].copy_from_slice(&ty.to_le_bytes());
        assert_eq!(read_file_header(&bytes), Err(ElfError::BadObjectType(ty)));
    }
}

#[test]
fn other_instruction_sets_are_refused_with_their_identifier() {
    for machine in [0u16, 3, 0x28, 0xb7, 0xf3, 0x3e00, 0x013e] {
        let mut bytes = encode(&relocatable());
        bytes[18..20].copy_from_slice(&machine.to_le_bytes());
        assert_eq!(read_file_header(&bytes), Err(ElfError::UnsupportedMachine(machine)));
    }
}

#[test]
fn a_header_cut_short_is_out_of_bounds() {
    let bytes = encode(&relocatable());
    for len in [0usize, 1, 3, 4, 5, 6, 7, 8, 15, 16, 17, 18, 19, 20, 23, 24, 32, 48, 62, 63] {
        assert_eq!(read_file_header(&bytes[..len]), Err(ElfError::OutOfBounds), "{} bytes", len);
    }
    assert!(read_file_header(&bytes[..64]).is_ok());
}

#[test]
fn the_first_fault_in_file_order_decides_the_error() {
    let mut bytes = encode(&relocatable());
    bytes[4] = 9;
    bytes[5] = 9;
    bytes[6] = 9;
    bytes[7] = 9;
    bytes[16] = 9;
    bytes[18] = 9;
    assert_eq!(read_file_header(&bytes), Err(ElfError::BadClass(9)));
    bytes[4] = 2;
    assert_eq!(read_file_header(&bytes), Err(ElfError::BadByteOrder(9)));
    bytes[5] = 1;
    assert_eq!(read_file_header(&bytes), Err(ElfError::BadVersion(9)));
    bytes[6] = 1;
    assert_eq!(read_file_header(&bytes), Err(ElfError::UnsupportedPlatform(9)));
    bytes[7] = 0;
    assert_eq!(read_file_header(&bytes), Err(ElfError::BadObjectType(9)));
    bytes[16] = 1;
    assert_eq!(read_file_header(&bytes), Err(ElfError::UnsupportedMachine(9)));
    bytes[18] = 0x3e;
    assert!(read_file_header(&bytes).is_ok());
    // A fault is reported as soon as its field has been read, also where
    // the buffer ends right behind it.
    let mut bytes = encode(&relocatable());
    bytes[4] = 9;
    assert_eq!(read_file_header(&bytes[..5]), Err(ElfError::BadClass(9)));
    let mut bytes = encode(&relocatable());
    bytes[16] = 9;
    assert_eq!(read_file_header(&bytes[..18]), Err(ElfError::BadObjectType(9)));
    assert_eq!(read_file_header(&bytes[..17]), Err(ElfError::OutOfBounds));
}

#[test]
fn a_whole_file_decodes_to_header_and_sections() {
    let file = whole_file();
    let elf = read_elf(file.clone()).unwrap();
    assert_eq!(Ok(elf.header), read_file_header(&file));
    assert_eq!(elf.header.e_shnum, 3);
    assert_eq!(elf.sections.len(), 3);
    assert_eq!(elf.sections[0].header.sh_type, SectionType::Null);
    assert_eq!(elf.sections[0].name, "");
    assert_eq!(elf.sections[1].name, ".text");
    assert_eq!(elf.sections[1].data, vec![0x90, 0x90, 0x90, 0xc3]);
    assert_eq!(elf.sections[2].name, ".shstrtab");
    for s in &elf.sections {
        let start = s.header.sh_offset.usize();
        let len = s.header.sh_size.usize();
        assert_eq!(s.data.len(), len);
        assert_eq!(&s.data[..], &file[start..start + len]);
    }
}

#[test]
fn the_first_section_is_whatever_the_file_says() {
    let mut file = whole_file();
    file[96 + 4] = 1;
    let elf = read_elf(file).unwrap();
    assert_eq!(elf.sections[0].header.sh_type, SectionType::ProgBits);
}

#[test]
fn a_section_table_beyond_the_file_is_refused() {
    let mut file = whole_file();
    let len = file.len() as u64;
    file[40..48].copy_from_slice(&(len + 1).to_le_bytes());
    assert_eq!(read_elf(file).err(), Some(ElfError::OutOfBounds));
    let mut file = whole_file();
    file[40..48].copy_from_slice(&u64::MAX.to_le_bytes());
    assert_eq!(read_elf(file).err(), Some(ElfError::OutOfBounds));
    let mut file = whole_file();
    file[40..48].copy_from_slice(&0x1_0000_0060u64.to_le_bytes());
    assert_eq!(read_elf(file).err(), Some(ElfError::OutOfBounds));
    // The table starts inside the file but does not end in it.
    let mut file = whole_file();
    file[40..48].copy_from_slice(&97u64.to_le_bytes());
    assert_eq!(read_elf(file).err(), Some(ElfError::OutOfBounds));
}

#[test]
fn a_file_without_sections_is_refused() {
    let mut h = relocatable();
    h.e_shoff = VariableBits::U64(64);
    h.e_shnum = 0;
    h.e_shstrndx = 0;
    assert_eq!(read_elf(encode(&h)).err(), Some(ElfError::BadSectionIndex(0)));
}

#[test]
fn a_fault_in_a_section_fails_the_whole_file() {
    let mut file = whole_file();
    file[96 + 64 + 4] = 18;
    assert_eq!(read_elf(file).err(), Some(ElfError::UnknownSectionType(18)));
    let mut file = whole_file();
    file[60] = 4;
    assert_eq!(read_elf(file).err(), Some(ElfError::OutOfBounds));
    let mut file = whole_file();
    file[62] = 3;
    assert_eq!(read_elf(file).err(), Some(ElfError::BadSectionIndex(3)));
    let mut file = whole_file();
    file[69] = 0xff;
    assert_eq!(read_elf(file).err(), Some(ElfError::InvalidName));
}

#[test]
fn every_failure_has_a_message() {
    let all = [
        (ElfError::NotElf, "not an ELF file"),
        (ElfError::BadClass(0), "unrecognized file class"),
        (ElfError::BadByteOrder(0), "unrecognized byte order"),
        (ElfError::BadVersion(0), "ELF version is not 1"),
        (ElfError::UnsupportedPlatform(1), "only Linux supported"),
        (ElfError::BadObjectType(9), "unrecognized object type"),
        (ElfError::UnsupportedMachine(3), "unknown instruction set"),
        (ElfError::UnknownSectionType(18), "unknown section type"),
        (ElfError::UnknownBinding(3), "no binding info"),
        (ElfError::UnknownSymbolType(5), "no type info"),
        (ElfError::UnknownRelocationType(3), "unknown relocation type"),
        (ElfError::MissingSymtab, "no .symtab"),
        (ElfError::MissingStrtab, "no .strtab"),
        (ElfError::OutOfBounds, "read past the end of the buffer"),
        (ElfError::InvalidName, "name is not valid text"),
        (ElfError::ZeroEntrySize, "table entry size is zero"),
        (ElfError::BadSectionIndex(7), "section index out of range"),
        (ElfError::BadSymbolIndex(7), "symbol index out of range"),
    ];
    for (e, text) in all {
        assert_eq!(e.message(), text);
    }
}
