//! The file header, the symbol table and the relocation entries.

use vstd::prelude::*;
use vstd::string::StringExecFns;
use crate::byte_reader::ByteReader;
use crate::bytes::{le16_bytes, le32_bytes};
use crate::error::{
    decode_all,
    lemma_decode_all,
    lemma_decode_all_stops,
    view_of,
    views_of,
    ElfError,
};
use crate::section::{
    entry_start,
    lemma_entry_range,
    lemma_sections_of,
    read_sections,
    sections_have_class,
    sections_match_file,
    sections_of,
    Section,
    SectionType,
    SectionView,
};
use crate::types::{
    get_name,
    name_at,
    lemma_u16_field,
    lemma_u32_field,
    lemma_word_field,
    u16_at,
    u32_at,
    u64_at,
    i64_at,
    word_at,
    word_bytes,
    Bits,
    FromBytes,
    VariableBits,
};

verus! {

/// The byte order that a file declares.
#[derive(Debug, Clone, Copy, PartialEq, Eq, Structural)]
pub enum Endian {
    Big,
    Little,
}

/// What kind of object a file holds.
#[derive(Debug, Clone, Copy, PartialEq, Eq, Structural)]
pub enum ElfType {
    /// No object type is declared.
    NoType,
    Rel,
    Exec,
    Dyn,
    Core,
}

/// The instruction set that a file is made for.
#[derive(Debug, Clone, Copy, PartialEq, Eq, Structural)]
pub enum InstructionSet {
    AmdX86_64,
}

/// What the identification bytes of a file say of its layout.
#[derive(Debug, Clone, Copy, PartialEq, Eq, Structural)]
pub struct FileIdent {
    pub bits: Bits,
    pub endian: Endian,
}

/// The file header.
#[derive(Debug, Clone, Copy, PartialEq, Eq, Structural)]
pub struct FileHeader {
    pub e_ident: FileIdent,
    pub e_type: ElfType,
    pub e_machine: InstructionSet,
    pub e_entry: VariableBits,
    /// Where the program header table starts.
    pub e_phoff: VariableBits,
    /// Where the section header table starts.
    pub e_shoff: VariableBits,
    pub e_flags: u32,
    pub e_ehsize: u16,
    pub e_phentsize: u16,
    pub e_phnum: u16,
    pub e_shentsize: u16,
    pub e_shnum: u16,
    /// The index of the section that holds the section names.
    pub e_shstrndx: usize,
}

/// A decoded file: its header and its sections in the order of the file.
#[derive(Debug)]
pub struct Elf {
    pub header: FileHeader,
    pub sections: Vec<Section>,
}

/// A decoded file as contracts speak of it.
pub struct ElfView {
    pub header: FileHeader,
    pub sections: Seq<SectionView>,
}

impl View for Elf {
    type V = ElfView;

    open spec fn view(&self) -> ElfView {
        ElfView { header: self.header, sections: self.sections@.map_values(|s: Section| s@) }
    }
}

/// Whether `bytes` start with the four bytes `7F 45 4C 46` that every ELF
/// file starts with.
pub open spec fn has_magic(bytes: Seq<u8>) -> bool {
    &&& bytes.len() >= 4
    &&& bytes[0] == 0x7F
    &&& bytes[1] == 0x45
    &&& bytes[2] == 0x4c
    &&& bytes[3] == 0x46
}

/// The file class that the class byte selects.
pub open spec fn class_of(b: u8) -> Option<Bits> {
    if b == 1 {
        Some(Bits::B32)
    } else if b == 2 {
        Some(Bits::B64)
    } else {
        None
    }
}

/// The byte order that the byte-order byte selects.
pub open spec fn endian_of(b: u8) -> Option<Endian> {
    if b == 1 {
        Some(Endian::Little)
    } else if b == 2 {
        Some(Endian::Big)
    } else {
        None
    }
}

/// The object type that the type field selects.
pub open spec fn object_type_of(v: u16) -> Option<ElfType> {
    if v == 0 {
        Some(ElfType::NoType)
    } else if v == 1 {
        Some(ElfType::Rel)
    } else if v == 2 {
        Some(ElfType::Exec)
    } else if v == 3 {
        Some(ElfType::Dyn)
    } else if v == 4 {
        Some(ElfType::Core)
    } else {
        None
    }
}

/// The number of bytes that the file header takes in a file of class `bits`.
pub open spec fn file_header_len(bits: Bits) -> nat {
    40 + 3 * bits.width()
}

/// The file header at the front of `bytes`. The fields are checked in the
/// order of the file, and the first one that is missing or refused decides
/// the error: magic, class, byte order, version, platform, object type,
/// instruction set, then the presence of all that follows. Multi-byte
/// fields are read as little-endian whatever byte order is declared.
pub open spec fn file_header_of(bytes: Seq<u8>) -> Result<FileHeader, ElfError> {
    if bytes.len() < 4 {
        Err(ElfError::OutOfBounds)
    } else if !has_magic(bytes) {
        Err(ElfError::NotElf)
    } else if bytes.len() < 5 {
        Err(ElfError::OutOfBounds)
    } else if class_of(bytes[4]) is None {
        Err(ElfError::BadClass(bytes[4]))
    } else if bytes.len() < 6 {
        Err(ElfError::OutOfBounds)
    } else if endian_of(bytes[5]) is None {
        Err(ElfError::BadByteOrder(bytes[5]))
    } else if bytes.len() < 7 {
        Err(ElfError::OutOfBounds)
    } else if bytes[6] != 1 {
        Err(ElfError::BadVersion(bytes[6]))
    } else if bytes.len() < 8 {
        Err(ElfError::OutOfBounds)
    } else if bytes[7] != 0 && bytes[7] != 3 {
        Err(ElfError::UnsupportedPlatform(bytes[7]))
    } else if bytes.len() < 18 {
        Err(ElfError::OutOfBounds)
    } else if object_type_of(u16_at(bytes, 16)) is None {
        Err(ElfError::BadObjectType(u16_at(bytes, 16)))
    } else if bytes.len() < 20 {
        Err(ElfError::OutOfBounds)
    } else if u16_at(bytes, 18) != 0x3E {
        Err(ElfError::UnsupportedMachine(u16_at(bytes, 18)))
    } else if bytes.len() < file_header_len(class_of(bytes[4]).unwrap()) {
        Err(ElfError::OutOfBounds)
    } else {
        let bits = class_of(bytes[4]).unwrap();
        let w = bits.width() as int;
        Ok(
            FileHeader {
                e_ident: FileIdent { bits, endian: endian_of(bytes[5]).unwrap() },
                e_type: object_type_of(u16_at(bytes, 16)).unwrap(),
                e_machine: InstructionSet::AmdX86_64,
                e_entry: word_at(bytes, 24, bits),
                e_phoff: word_at(bytes, 24 + w, bits),
                e_shoff: word_at(bytes, 24 + 2 * w, bits),
                e_flags: u32_at(bytes, 24 + 3 * w),
                e_ehsize: u16_at(bytes, 28 + 3 * w),
                e_phentsize: u16_at(bytes, 30 + 3 * w),
                e_phnum: u16_at(bytes, 32 + 3 * w),
                e_shentsize: u16_at(bytes, 34 + 3 * w),
                e_shnum: u16_at(bytes, 36 + 3 * w),
                e_shstrndx: u16_at(bytes, 38 + 3 * w) as usize,
            },
        )
    }
}

impl FileHeader {
    /// The header holds what a file can hold: its three words have the
    /// width of its class, and the index of the name table fits in the two
    /// bytes that the file has for it.
    pub open spec fn wf(self) -> bool {
        &&& self.e_entry.bits() == self.e_ident.bits
        &&& self.e_phoff.bits() == self.e_ident.bits
        &&& self.e_shoff.bits() == self.e_ident.bits
        &&& self.e_shstrndx <= 0xffff
    }

    /// The byte that stands for the file class in the identification.
    pub open spec fn spec_class_code(self) -> u8 {
        match self.e_ident.bits {
            Bits::B32 => 1,
            Bits::B64 => 2,
        }
    }

    /// The byte that stands for the byte order in the identification.
    pub open spec fn spec_order_code(self) -> u8 {
        match self.e_ident.endian {
            Endian::Little => 1,
            Endian::Big => 2,
        }
    }

    /// The sixteen identification bytes of a file with this header, made
    /// for System V: the magic, class, byte order and version 1, then
    /// zeros.
    pub open spec fn spec_ident_bytes(self) -> Seq<u8> {
        Seq::new(
            16,
            |i: int|
                if i == 0 {
                    0x7Fu8
                } else if i == 1 {
                    0x45u8
                } else if i == 2 {
                    0x4cu8
                } else if i == 3 {
                    0x46u8
                } else if i == 4 {
                    self.spec_class_code()
                } else if i == 5 {
                    self.spec_order_code()
                } else if i == 6 {
                    1u8
                } else {
                    0u8
                },
        )
    }

    /// The number that stands for the object type in the file.
    pub open spec fn spec_type_code(self) -> u16 {
        match self.e_type {
            ElfType::NoType => 0,
            ElfType::Rel => 1,
            ElfType::Exec => 2,
            ElfType::Dyn => 3,
            ElfType::Core => 4,
        }
    }

    /// The bytes of a file that starts with this header and goes on with
    /// `rest`: the identification, then object type, instruction set and
    /// format version, then every field of the header in little-endian
    /// order at the width of the class.
    pub open spec fn spec_bytes(self, rest: Seq<u8>) -> Seq<u8> {
        let from_shstrndx = le16_bytes(self.e_shstrndx as u16) + rest;
        let from_shnum = le16_bytes(self.e_shnum) + from_shstrndx;
        let from_shentsize = le16_bytes(self.e_shentsize) + from_shnum;
        let from_phnum = le16_bytes(self.e_phnum) + from_shentsize;
        let from_phentsize = le16_bytes(self.e_phentsize) + from_phnum;
        let from_ehsize = le16_bytes(self.e_ehsize) + from_phentsize;
        let from_flags = le32_bytes(self.e_flags) + from_ehsize;
        let from_shoff = word_bytes(self.e_shoff) + from_flags;
        let from_phoff = word_bytes(self.e_phoff) + from_shoff;
        let from_entry = word_bytes(self.e_entry) + from_phoff;
        let from_version = le32_bytes(1) + from_entry;
        let from_machine = le16_bytes(0x3E) + from_version;
        let from_type = le16_bytes(self.spec_type_code()) + from_machine;
        self.spec_ident_bytes() + from_type
    }

    /// Whether `bytes` start with an identification of this header's class
    /// and byte order, made for an accepted platform.
    pub open spec fn ident_held_by(self, bytes: Seq<u8>) -> bool {
        &&& has_magic(bytes)
        &&& bytes.len() >= 8
        &&& class_of(bytes[4]) == Some(self.e_ident.bits)
        &&& endian_of(bytes[5]) == Some(self.e_ident.endian)
        &&& bytes[6] == 1
        &&& (bytes[7] == 0 || bytes[7] == 3)
    }

    /// Whether `bytes` hold the fields of this header at their places.
    pub open spec fn fields_held_by(self, bytes: Seq<u8>) -> bool {
        let w = self.e_ident.bits.width() as int;
        &&& bytes.len() >= file_header_len(self.e_ident.bits)
        &&& bytes.subrange(16, 18) == le16_bytes(self.spec_type_code())
        &&& bytes.subrange(18, 20) == le16_bytes(0x3E)
        &&& bytes.subrange(24, 24 + w) == word_bytes(self.e_entry)
        &&& bytes.subrange(24 + w, 24 + 2 * w) == word_bytes(self.e_phoff)
        &&& bytes.subrange(24 + 2 * w, 24 + 3 * w) == word_bytes(self.e_shoff)
        &&& bytes.subrange(24 + 3 * w, 28 + 3 * w) == le32_bytes(self.e_flags)
        &&& bytes.subrange(28 + 3 * w, 30 + 3 * w) == le16_bytes(self.e_ehsize)
        &&& bytes.subrange(30 + 3 * w, 32 + 3 * w) == le16_bytes(self.e_phentsize)
        &&& bytes.subrange(32 + 3 * w, 34 + 3 * w) == le16_bytes(self.e_phnum)
        &&& bytes.subrange(34 + 3 * w, 36 + 3 * w) == le16_bytes(self.e_shentsize)
        &&& bytes.subrange(36 + 3 * w, 38 + 3 * w) == le16_bytes(self.e_shnum)
        &&& bytes.subrange(38 + 3 * w, 40 + 3 * w) == le16_bytes(self.e_shstrndx as u16)
    }

    /// Whether `bytes` hold the fields of this header at their places,
    /// behind an identification that is made for an accepted platform.
    pub open spec fn held_by(self, bytes: Seq<u8>) -> bool {
        self.ident_held_by(bytes) && self.fields_held_by(bytes)
    }

    /// A buffer that holds the fields of a header at their places decodes
    /// to that header, field for field.
    pub proof fn lemma_decode_of_held(self, bytes: Seq<u8>)
        requires
            self.wf(),
            self.held_by(bytes),
        ensures
            file_header_of(bytes) == Ok::<FileHeader, ElfError>(self),
    {
        let bits = self.e_ident.bits;
        let w = bits.width() as int;
        lemma_u16_field(bytes, 16, self.spec_type_code());
        lemma_u16_field(bytes, 18, 0x3E);
        lemma_word_field(bytes, 24, self.e_entry);
        lemma_word_field(bytes, 24 + w, self.e_phoff);
        lemma_word_field(bytes, 24 + 2 * w, self.e_shoff);
        lemma_u32_field(bytes, 24 + 3 * w, self.e_flags);
        lemma_u16_field(bytes, 28 + 3 * w, self.e_ehsize);
        lemma_u16_field(bytes, 30 + 3 * w, self.e_phentsize);
        lemma_u16_field(bytes, 32 + 3 * w, self.e_phnum);
        lemma_u16_field(bytes, 34 + 3 * w, self.e_shentsize);
        lemma_u16_field(bytes, 36 + 3 * w, self.e_shnum);
        lemma_u16_field(bytes, 38 + 3 * w, self.e_shstrndx as u16);
        let got = file_header_of(bytes);
        assert(got is Ok);
        assert(got->Ok_0.e_ident == self.e_ident);
        assert(got->Ok_0.e_type == self.e_type);
        assert(got->Ok_0.e_shstrndx == self.e_shstrndx);
    }
}

/// Where the tail of a buffer from `at` on starts with `piece`, the buffer
/// holds `piece` at `at`, and its tail behind the piece is what follows
/// the piece.
proof fn lemma_peel(bytes: Seq<u8>, at: int, piece: Seq<u8>, rest: Seq<u8>)
    requires
        0 <= at <= bytes.len(),
        bytes.skip(at) == piece + rest,
    ensures
        at + piece.len() <= bytes.len(),
        bytes.subrange(at, at + piece.len()) == piece,
        bytes.skip(at + piece.len()) == rest,
{
    let tail = bytes.skip(at);
    assert(tail.len() == piece.len() + rest.len());
    assert forall|i: int| 0 <= i < piece.len() implies bytes[at + i] == piece[i] by {
        assert(tail[i] == bytes[at + i]);
    }
    assert(bytes.subrange(at, at + piece.len()) =~= piece);
    assert forall|i: int| 0 <= i < rest.len() implies bytes[at + piece.len() + i] == rest[i] by {
        assert(tail[piece.len() + i] == bytes[at + piece.len() + i]);
    }
    assert(bytes.skip(at + piece.len()) =~= rest);
}

/// The pieces of a file header, one behind the other, in front of `rest`.
spec fn chain(
    ident: Seq<u8>,
    kind: Seq<u8>,
    machine: Seq<u8>,
    version: Seq<u8>,
    entry: Seq<u8>,
    phoff: Seq<u8>,
    shoff: Seq<u8>,
    flags: Seq<u8>,
    ehsize: Seq<u8>,
    phentsize: Seq<u8>,
    phnum: Seq<u8>,
    shentsize: Seq<u8>,
    shnum: Seq<u8>,
    shstrndx: Seq<u8>,
    rest: Seq<u8>,
) -> Seq<u8> {
    let from_shstrndx = shstrndx + rest;
    let from_shnum = shnum + from_shstrndx;
    let from_shentsize = shentsize + from_shnum;
    let from_phnum = phnum + from_shentsize;
    let from_phentsize = phentsize + from_phnum;
    let from_ehsize = ehsize + from_phentsize;
    let from_flags = flags + from_ehsize;
    let from_shoff = shoff + from_flags;
    let from_phoff = phoff + from_shoff;
    let from_entry = entry + from_phoff;
    let from_version = version + from_entry;
    let from_machine = machine + from_version;
    let from_kind = kind + from_machine;
    ident + from_kind
}

/// Pieces of the lengths of a file header's fields, put one behind the
/// other in front of `rest`, are found again at the places of those
/// fields.
proof fn lemma_chain(
    ident: Seq<u8>,
    kind: Seq<u8>,
    machine: Seq<u8>,
    version: Seq<u8>,
    entry: Seq<u8>,
    phoff: Seq<u8>,
    shoff: Seq<u8>,
    flags: Seq<u8>,
    ehsize: Seq<u8>,
    phentsize: Seq<u8>,
    phnum: Seq<u8>,
    shentsize: Seq<u8>,
    shnum: Seq<u8>,
    shstrndx: Seq<u8>,
    rest: Seq<u8>,
    w: int,
) -> (bytes: Seq<u8>)
    requires
        ident.len() == 16,
        kind.len() == 2,
        machine.len() == 2,
        version.len() == 4,
        entry.len() == w,
        phoff.len() == w,
        shoff.len() == w,
        flags.len() == 4,
        ehsize.len() == 2,
        phentsize.len() == 2,
        phnum.len() == 2,
        shentsize.len() == 2,
        shnum.len() == 2,
        shstrndx.len() == 2,
        w >= 0,
    ensures
        bytes == chain(
            ident,
            kind,
            machine,
            version,
            entry,
            phoff,
            shoff,
            flags,
            ehsize,
            phentsize,
            phnum,
            shentsize,
            shnum,
            shstrndx,
            rest,
        ),
        bytes.len() == 40 + 3 * w + rest.len(),
        bytes.subrange(0, 16) == ident,
        bytes.subrange(16, 18) == kind,
        bytes.subrange(18, 20) == machine,
        bytes.subrange(20, 24) == version,
        bytes.subrange(24, 24 + w) == entry,
        bytes.subrange(24 + w, 24 + 2 * w) == phoff,
        bytes.subrange(24 + 2 * w, 24 + 3 * w) == shoff,
        bytes.subrange(24 + 3 * w, 28 + 3 * w) == flags,
        bytes.subrange(28 + 3 * w, 30 + 3 * w) == ehsize,
        bytes.subrange(30 + 3 * w, 32 + 3 * w) == phentsize,
        bytes.subrange(32 + 3 * w, 34 + 3 * w) == phnum,
        bytes.subrange(34 + 3 * w, 36 + 3 * w) == shentsize,
        bytes.subrange(36 + 3 * w, 38 + 3 * w) == shnum,
        bytes.subrange(38 + 3 * w, 40 + 3 * w) == shstrndx,
{
    let from_shstrndx = shstrndx + rest;
    let from_shnum = shnum + from_shstrndx;
    let from_shentsize = shentsize + from_shnum;
    let from_phnum = phnum + from_shentsize;
    let from_phentsize = phentsize + from_phnum;
    let from_ehsize = ehsize + from_phentsize;
    let from_flags = flags + from_ehsize;
    let from_shoff = shoff + from_flags;
    let from_phoff = phoff + from_shoff;
    let from_entry = entry + from_phoff;
    let from_version = version + from_entry;
    let from_machine = machine + from_version;
    let from_kind = kind + from_machine;
    let bytes = ident + from_kind;
    assert(bytes.skip(0) =~= bytes);
    lemma_peel(bytes, 0, ident, from_kind);
    lemma_peel(bytes, 16, kind, from_machine);
    lemma_peel(bytes, 18, machine, from_version);
    lemma_peel(bytes, 20, version, from_entry);
    lemma_peel(bytes, 24, entry, from_phoff);
    lemma_peel(bytes, 24 + w, phoff, from_shoff);
    lemma_peel(bytes, 24 + 2 * w, shoff, from_flags);
    lemma_peel(bytes, 24 + 3 * w, flags, from_ehsize);
    lemma_peel(bytes, 28 + 3 * w, ehsize, from_phentsize);
    lemma_peel(bytes, 30 + 3 * w, phentsize, from_phnum);
    lemma_peel(bytes, 32 + 3 * w, phnum, from_shentsize);
    lemma_peel(bytes, 34 + 3 * w, shentsize, from_shnum);
    lemma_peel(bytes, 36 + 3 * w, shnum, from_shstrndx);
    lemma_peel(bytes, 38 + 3 * w, shstrndx, rest);
    bytes
}

impl FileHeader {
    /// The bytes of a file that starts with a header hold the header's
    /// fields at their places.
    proof fn lemma_bytes_hold_fields(self, rest: Seq<u8>)
        requires
            self.wf(),
        ensures
            self.fields_held_by(self.spec_bytes(rest)),
            self.spec_bytes(rest).subrange(0, 16) == self.spec_ident_bytes(),
    {
        let bytes = lemma_chain(
            self.spec_ident_bytes(),
            le16_bytes(self.spec_type_code()),
            le16_bytes(0x3E),
            le32_bytes(1),
            word_bytes(self.e_entry),
            word_bytes(self.e_phoff),
            word_bytes(self.e_shoff),
            le32_bytes(self.e_flags),
            le16_bytes(self.e_ehsize),
            le16_bytes(self.e_phentsize),
            le16_bytes(self.e_phnum),
            le16_bytes(self.e_shentsize),
            le16_bytes(self.e_shnum),
            le16_bytes(self.e_shstrndx as u16),
            rest,
            self.e_ident.bits.width() as int,
        );
    }

    /// A buffer whose first sixteen bytes are the identification bytes of a
    /// header starts with that header's identification.
    proof fn lemma_ident_held(self, bytes: Seq<u8>)
        requires
            bytes.len() >= 16,
            bytes.subrange(0, 16) == self.spec_ident_bytes(),
        ensures
            self.ident_held_by(bytes),
    {
        let head = bytes.subrange(0, 16);
        assert(forall|i: int| 0 <= i < 8 ==> bytes[i] == #[trigger] head[i]);
        assert(bytes[0] == head[0] && bytes[1] == head[1] && bytes[2] == head[2] && bytes[3]
            == head[3]);
        assert(bytes[4] == head[4] && bytes[5] == head[5] && bytes[6] == head[6] && bytes[7]
            == head[7]);
    }

    /// The bytes of a file that starts with a header hold the header's
    /// identification and fields at their places.
    pub proof fn lemma_bytes_hold(self, rest: Seq<u8>)
        requires
            self.wf(),
        ensures
            self.held_by(self.spec_bytes(rest)),
    {
        self.lemma_bytes_hold_fields(rest);
        self.lemma_ident_held(self.spec_bytes(rest));
    }

    /// Decoding the bytes of a header gives the header back, field for
    /// field, whatever follows them in the file.
    pub proof fn lemma_round_trip(self, rest: Seq<u8>)
        requires
            self.wf(),
        ensures
            file_header_of(self.spec_bytes(rest)) == Ok::<FileHeader, ElfError>(self),
    {
        self.lemma_bytes_hold(rest);
        self.lemma_decode_of_held(self.spec_bytes(rest));
    }
}

/// A stretch of a buffer's tail is a stretch of the buffer, further back.
proof fn lemma_tail_stretch(bytes: Seq<u8>, k: int, a: int, b: int)
    requires
        0 <= k,
        0 <= a <= b,
        k + b <= bytes.len(),
    ensures
        bytes.skip(k).subrange(a, b) == bytes.subrange(k + a, k + b),
{
    assert(bytes.skip(k).subrange(a, b) =~= bytes.subrange(k + a, k + b));
}

/// Every decoded header holds what a file can hold: words of the width of
/// its class, and an index of the name table that fits in two bytes.
pub proof fn lemma_header_wf(bytes: Seq<u8>)
    ensures
        file_header_of(bytes) matches Ok(header) ==> header.wf(),
{
}

/// Decodes the file header at the front of `bytes`.
#[verifier::rlimit(40)]
pub fn read_file_header(bytes: &[u8]) -> (r: Result<FileHeader, ElfError>)
    ensures
        r == file_header_of(bytes@),
        r matches Ok(header) ==> header.wf(),
{
    if bytes.len() < 4 {
        return Err(ElfError::OutOfBounds);
    }
    // these four bytes are the ELF magic number
    if bytes[0] != 0x7F || bytes[1] != 0x45 || bytes[2] != 0x4c || bytes[3] != 0x46 {
        return Err(ElfError::NotElf);
    }
    if bytes.len() < 5 {
        return Err(ElfError::OutOfBounds);
    }
    let bits = match bytes[4] {
        1 => Bits::B32,
        2 => Bits::B64,
        b => {
            return Err(ElfError::BadClass(b));
        },
    };
    let ghost rest = bytes@.skip(5);
    let tail = &bytes[5..bytes.len()];
    assert(tail@ == rest);
    let mut reader = ByteReader::new(tail, &bits);

    if reader.remaining() < 1 {
        return Err(ElfError::OutOfBounds);
    }
    let endian = match reader.byte() {
        1 => Endian::Little,
        2 => Endian::Big,
        b => {
            return Err(ElfError::BadByteOrder(b));
        },
    };

    // the version is always 1
    if reader.remaining() < 1 {
        return Err(ElfError::OutOfBounds);
    }
    let version = reader.byte();
    if version != 1 {
        return Err(ElfError::BadVersion(version));
    }
    if reader.remaining() < 1 {
        return Err(ElfError::OutOfBounds);
    }
    let platform = reader.byte();
    if platform != 3 && platform != 0 {
        return Err(ElfError::UnsupportedPlatform(platform));
    }
    if reader.remaining() < 10 {
        return Err(ElfError::OutOfBounds);
    }
    let _abi_version_and_padding = reader.read_raw(8);
    proof {
        lemma_tail_stretch(bytes@, 5, 11, 13);
    }
    let ty_value = reader.read(2, u16::from_bytes);
    let ty = match ty_value {
        0 => ElfType::NoType,
        1 => ElfType::Rel,
        2 => ElfType::Exec,
        3 => ElfType::Dyn,
        4 => ElfType::Core,
        _ => {
            return Err(ElfError::BadObjectType(ty_value));
        },
    };
    if reader.remaining() < 2 {
        return Err(ElfError::OutOfBounds);
    }
    proof {
        lemma_tail_stretch(bytes@, 5, 13, 15);
    }
    let machine = reader.read(2, u16::from_bytes);
    let inst_set = match machine {
        0x3E => InstructionSet::AmdX86_64,
        _ => {
            return Err(ElfError::UnsupportedMachine(machine));
        },
    };
    let rest_len: usize = match bits {
        Bits::B64 => 44,
        Bits::B32 => 32,
    };
    if reader.remaining() < rest_len {
        return Err(ElfError::OutOfBounds);
    }
    let ghost w = bits.width() as int;
    proof {
        lemma_tail_stretch(bytes@, 5, 19, 19 + w);
        lemma_tail_stretch(bytes@, 5, 19 + w, 19 + 2 * w);
        lemma_tail_stretch(bytes@, 5, 19 + 2 * w, 19 + 3 * w);
        lemma_tail_stretch(bytes@, 5, 19 + 3 * w, 23 + 3 * w);
        lemma_tail_stretch(bytes@, 5, 23 + 3 * w, 25 + 3 * w);
        lemma_tail_stretch(bytes@, 5, 25 + 3 * w, 27 + 3 * w);
        lemma_tail_stretch(bytes@, 5, 27 + 3 * w, 29 + 3 * w);
        lemma_tail_stretch(bytes@, 5, 29 + 3 * w, 31 + 3 * w);
        lemma_tail_stretch(bytes@, 5, 31 + 3 * w, 33 + 3 * w);
        lemma_tail_stretch(bytes@, 5, 33 + 3 * w, 35 + 3 * w);
    }
    let _version = reader.read(4, u32::from_bytes);
    let entry_addr = reader.word();
    let prog_header_off = reader.word();
    let sec_header_off = reader.word();
    let flags = reader.read(4, u32::from_bytes);
    let file_header_size = reader.read(2, u16::from_bytes);
    let prog_header_size = reader.read(2, u16::from_bytes);
    let prog_entries = reader.read(2, u16::from_bytes);
    let sec_header_size = reader.read(2, u16::from_bytes);
    let sec_entries = reader.read(2, u16::from_bytes);
    let sec_names_idx = reader.read(2, u16::from_bytes) as usize;

    Ok(
        FileHeader {
            e_ident: FileIdent { bits, endian },
            e_type: ty,
            e_machine: inst_set,
            e_entry: entry_addr,
            e_phoff: prog_header_off,
            e_shoff: sec_header_off,
            e_flags: flags,
            e_ehsize: file_header_size,
            e_phentsize: prog_header_size,
            e_phnum: prog_entries,
            e_shentsize: sec_header_size,
            e_shnum: sec_entries,
            e_shstrndx: sec_names_idx,
        },
    )
}

/// The decoded form of the file `bytes`: its header, then its sections as
/// the header places them. Nothing is decoded of a file whose header is
/// refused, and no header is handed out where a section is refused.
pub open spec fn elf_of(bytes: Seq<u8>) -> Result<ElfView, ElfError> {
    match file_header_of(bytes) {
        Err(e) => Err(e),
        Ok(header) => match sections_of(
            bytes,
            header.e_shoff.value(),
            header.e_shnum as nat,
            header.e_shentsize as nat,
            header.e_shstrndx as nat,
            header.e_ident.bits,
        ) {
            Err(e) => Err(e),
            Ok(sections) => Ok(ElfView { header, sections }),
        },
    }
}

/// Files that are refused as a whole: one whose first four bytes are not
/// the magic, one whose class byte is neither 1 nor 2, and one whose
/// section header table is said to start beyond the end of the file.
pub proof fn lemma_refused(bytes: Seq<u8>)
    ensures
        bytes.len() >= 4 && !has_magic(bytes) ==> elf_of(bytes) == Err::<ElfView, ElfError>(
            ElfError::NotElf,
        ),
        bytes.len() >= 5 && has_magic(bytes) && bytes[4] != 1 && bytes[4] != 2
            ==> elf_of(bytes) == Err::<ElfView, ElfError>(ElfError::BadClass(bytes[4])),
        file_header_of(bytes) matches Ok(header) && header.e_shoff.value() > bytes.len()
            ==> elf_of(bytes) == Err::<ElfView, ElfError>(ElfError::OutOfBounds),
{
}

/// Every decoded file has as many sections as its header declares, at
/// least one, each section's payload and name are those that its header
/// points to in the file, and every word in it has the width of the file's
/// class.
pub proof fn lemma_elf_of(bytes: Seq<u8>)
    ensures
        elf_of(bytes) matches Ok(elf) ==> {
            &&& file_header_of(bytes) == Ok::<FileHeader, ElfError>(elf.header)
            &&& elf.sections.len() == elf.header.e_shnum
            &&& elf.sections.len() > 0
            &&& sections_match_file(elf.sections, bytes, elf.header.e_shstrndx as int)
            &&& elf.header.wf()
            &&& sections_have_class(elf.sections, elf.header.e_ident.bits)
        },
{
    lemma_header_wf(bytes);
    if let Ok(header) = file_header_of(bytes) {
        lemma_sections_of(
            bytes,
            header.e_shoff.value(),
            header.e_shnum as nat,
            header.e_shentsize as nat,
            header.e_shstrndx as nat,
            header.e_ident.bits,
        );
    }
}

/// Decodes a whole file: the header, the section header table, and every
/// section with its name and payload.
pub fn read_elf(bytes: Vec<u8>) -> (r: Result<Elf, ElfError>)
    ensures
        view_of(r) == elf_of(bytes@),
        r matches Ok(elf) ==> {
            &&& file_header_of(bytes@) == Ok::<FileHeader, ElfError>(elf.header)
            &&& elf.sections@.len() == elf.header.e_shnum
            &&& elf.sections@.len() > 0
            &&& sections_match_file(elf@.sections, bytes@, elf.header.e_shstrndx as int)
            &&& elf.header.wf()
            &&& sections_have_class(elf@.sections, elf.header.e_ident.bits)
        },
{
    let header = match read_file_header(bytes.as_slice()) {
        Ok(h) => h,
        Err(e) => {
            return Err(e);
        },
    };
    let table_start: u64 = header.e_shoff.as_u64();
    if table_start > bytes.len() as u64 {
        return Err(ElfError::OutOfBounds);
    }
    let sections = match read_sections(
        bytes.as_slice(),
        table_start as usize,
        header.e_shnum,
        header.e_shentsize,
        header.e_shstrndx,
        &header.e_ident.bits,
    ) {
        Ok(s) => s,
        Err(e) => {
            return Err(e);
        },
    };
    Ok(Elf { header, sections })
}

/// How far a symbol is visible.
#[derive(Debug, Clone, Copy, PartialEq, Eq, Structural)]
pub enum SymbolBinding {
    Local,
    Global,
    Weak,
    Loos,
    Hios,
    Loproc,
    Hiproc,
}

impl SymbolBinding {
    /// The number that stands for the binding in a symbol's info byte.
    pub open spec fn spec_code(self) -> u8 {
        match self {
            SymbolBinding::Local => 0,
            SymbolBinding::Global => 1,
            SymbolBinding::Weak => 2,
            SymbolBinding::Loos => 10,
            SymbolBinding::Hios => 12,
            SymbolBinding::Loproc => 13,
            SymbolBinding::Hiproc => 15,
        }
    }

    /// The binding that the number `v` stands for, if it stands for one.
    pub open spec fn spec_from_u8(v: u8) -> Option<SymbolBinding> {
        if v == 0 {
            Some(SymbolBinding::Local)
        } else if v == 1 {
            Some(SymbolBinding::Global)
        } else if v == 2 {
            Some(SymbolBinding::Weak)
        } else if v == 10 {
            Some(SymbolBinding::Loos)
        } else if v == 12 {
            Some(SymbolBinding::Hios)
        } else if v == 13 {
            Some(SymbolBinding::Loproc)
        } else if v == 15 {
            Some(SymbolBinding::Hiproc)
        } else {
            None
        }
    }

    /// The number that stands for the binding in a symbol's info byte.
    #[verifier::when_used_as_spec(spec_code)]
    pub fn code(self) -> (r: u8)
        ensures
            r == self.spec_code(),
    {
        match self {
            SymbolBinding::Local => 0,
            SymbolBinding::Global => 1,
            SymbolBinding::Weak => 2,
            SymbolBinding::Loos => 10,
            SymbolBinding::Hios => 12,
            SymbolBinding::Loproc => 13,
            SymbolBinding::Hiproc => 15,
        }
    }

    /// Maps the upper half of a symbol's info byte to its binding.
    pub fn from_u8(v: u8) -> (r: Option<SymbolBinding>)
        ensures
            r == Self::spec_from_u8(v),
    {
        match v {
            0 => Some(SymbolBinding::Local),
            1 => Some(SymbolBinding::Global),
            2 => Some(SymbolBinding::Weak),
            10 => Some(SymbolBinding::Loos),
            12 => Some(SymbolBinding::Hios),
            13 => Some(SymbolBinding::Loproc),
            15 => Some(SymbolBinding::Hiproc),
            _ => None,
        }
    }
}

impl SymbolBinding {
    /// The table reads the same in both directions.
    pub proof fn lemma_code_round_trip(b: SymbolBinding, v: u8)
        ensures
            Self::spec_from_u8(b.spec_code()) == Some(b),
            Self::spec_from_u8(v) == Some(b) ==> b.spec_code() == v,
            b.spec_code() < 16,
    {
    }
}

/// What a symbol names.
#[derive(Debug, Clone, Copy, PartialEq, Eq, Structural)]
pub enum SymbolType {
    NoType,
    Object,
    Func,
    Section,
    File,
    Loos,
    Hios,
    Loproc,
    Hiproc,
}

impl SymbolType {
    /// The number that stands for the type in a symbol's info byte.
    pub open spec fn spec_code(self) -> u8 {
        match self {
            SymbolType::NoType => 0,
            SymbolType::Object => 1,
            SymbolType::Func => 2,
            SymbolType::Section => 3,
            SymbolType::File => 4,
            SymbolType::Loos => 10,
            SymbolType::Hios => 12,
            SymbolType::Loproc => 13,
            SymbolType::Hiproc => 15,
        }
    }

    /// The type that the number `v` stands for, if it stands for one.
    pub open spec fn spec_from_u8(v: u8) -> Option<SymbolType> {
        if v == 0 {
            Some(SymbolType::NoType)
        } else if v == 1 {
            Some(SymbolType::Object)
        } else if v == 2 {
            Some(SymbolType::Func)
        } else if v == 3 {
            Some(SymbolType::Section)
        } else if v == 4 {
            Some(SymbolType::File)
        } else if v == 10 {
            Some(SymbolType::Loos)
        } else if v == 12 {
            Some(SymbolType::Hios)
        } else if v == 13 {
            Some(SymbolType::Loproc)
        } else if v == 15 {
            Some(SymbolType::Hiproc)
        } else {
            None
        }
    }

    /// The number that stands for the type in a symbol's info byte.
    #[verifier::when_used_as_spec(spec_code)]
    pub fn code(self) -> (r: u8)
        ensures
            r == self.spec_code(),
    {
        match self {
            SymbolType::NoType => 0,
            SymbolType::Object => 1,
            SymbolType::Func => 2,
            SymbolType::Section => 3,
            SymbolType::File => 4,
            SymbolType::Loos => 10,
            SymbolType::Hios => 12,
            SymbolType::Loproc => 13,
            SymbolType::Hiproc => 15,
        }
    }

    /// Maps the lower half of a symbol's info byte to its type.
    pub fn from_u8(v: u8) -> (r: Option<SymbolType>)
        ensures
            r == Self::spec_from_u8(v),
    {
        match v {
            0 => Some(SymbolType::NoType),
            1 => Some(SymbolType::Object),
            2 => Some(SymbolType::Func),
            3 => Some(SymbolType::Section),
            4 => Some(SymbolType::File),
            10 => Some(SymbolType::Loos),
            12 => Some(SymbolType::Hios),
            13 => Some(SymbolType::Loproc),
            15 => Some(SymbolType::Hiproc),
            _ => None,
        }
    }
}

impl SymbolType {
    /// The table reads the same in both directions.
    pub proof fn lemma_code_round_trip(t: SymbolType, v: u8)
        ensures
            Self::spec_from_u8(t.spec_code()) == Some(t),
            Self::spec_from_u8(v) == Some(t) ==> t.spec_code() == v,
            t.spec_code() < 16,
    {
    }
}

/// A symbol's info byte, taken apart.
#[derive(Debug, Clone, Copy, PartialEq, Eq, Structural)]
pub struct SymbolInfo {
    pub binding: SymbolBinding,
    pub ty: SymbolType,
}

/// What the info byte `info` says: the binding in its upper four bits, the
/// type in its lower four. The binding is looked at first.
pub open spec fn symbol_info_of(info: u8) -> Result<SymbolInfo, ElfError> {
    if SymbolBinding::spec_from_u8(info >> 4) is None {
        Err(ElfError::UnknownBinding(info >> 4))
    } else if SymbolType::spec_from_u8(info & 0x0f) is None {
        Err(ElfError::UnknownSymbolType(info & 0x0f))
    } else {
        Ok(
            SymbolInfo {
                binding: SymbolBinding::spec_from_u8(info >> 4).unwrap(),
                ty: SymbolType::spec_from_u8(info & 0x0f).unwrap(),
            },
        )
    }
}

impl SymbolInfo {
    /// The info byte that holds this binding and type.
    pub open spec fn spec_byte(self) -> u8 {
        (self.binding.spec_code() << 4) | self.ty.spec_code()
    }

    /// The info byte that holds this binding and type.
    #[verifier::when_used_as_spec(spec_byte)]
    pub fn byte(self) -> (r: u8)
        ensures
            r == self.spec_byte(),
    {
        let hi: u8 = self.binding.code();
        let lo: u8 = self.ty.code();
        (hi << 4) | lo
    }

    /// Takes a symbol's info byte apart.
    pub fn from_byte(info: u8) -> (r: Result<SymbolInfo, ElfError>)
        ensures
            r == symbol_info_of(info),
    {
        let binding_info = info >> 4;
        let type_info = info & 0b00001111;
        let binding = match SymbolBinding::from_u8(binding_info) {
            Some(b) => b,
            None => {
                return Err(ElfError::UnknownBinding(binding_info));
            },
        };
        let ty = match SymbolType::from_u8(type_info) {
            Some(t) => t,
            None => {
                return Err(ElfError::UnknownSymbolType(type_info));
            },
        };
        Ok(SymbolInfo { binding, ty })
    }

    /// Taking an info byte apart loses nothing: the byte put together from
    /// the binding and type that it decodes to is the byte itself.
    pub proof fn lemma_byte_of_decoded(info: u8)
        ensures
            symbol_info_of(info) matches Ok(si) ==> si.spec_byte() == info,
    {
        assert(((info >> 4) << 4) | (info & 0x0f) == info) by (bit_vector);
    }

    /// Every binding and type survive the trip through an info byte.
    pub proof fn lemma_decode_of_byte(si: SymbolInfo)
        ensures
            symbol_info_of(si.spec_byte()) == Ok::<SymbolInfo, ElfError>(si),
    {
        let b = si.binding.spec_code();
        let t = si.ty.spec_code();
        assert(b < 16 && t < 16 ==> ((b << 4) | t) >> 4 == b && ((b << 4) | t) & 0x0f == t)
            by (bit_vector);
    }
}

/// One entry of the symbol table, with its name resolved.
#[derive(Debug)]
pub struct SymbolTableEntry {
    /// The symbol's name; for a symbol that stands for a section, the name
    /// of that section.
    pub st_name: String,
    pub st_info: SymbolInfo,
    pub st_shndx: u16,
    pub st_value: VariableBits,
    pub st_size: VariableBits,
}

/// A symbol table entry as contracts speak of it.
pub struct SymbolView {
    pub st_name: Seq<char>,
    pub st_info: SymbolInfo,
    pub st_shndx: u16,
    pub st_value: VariableBits,
    pub st_size: VariableBits,
}

impl View for SymbolTableEntry {
    type V = SymbolView;

    open spec fn view(&self) -> SymbolView {
        SymbolView {
            st_name: self.st_name@,
            st_info: self.st_info,
            st_shndx: self.st_shndx,
            st_value: self.st_value,
            st_size: self.st_size,
        }
    }
}

/// The number of bytes that a symbol's fields take in a file of class
/// `bits`.
pub open spec fn symbol_len(bits: Bits) -> nat {
    8 + 2 * bits.width()
}

/// The symbol that the entry `entry` holds: name offset in four bytes, the
/// info byte, a byte of padding, the section index in two bytes, then value
/// and size as words. The info byte is judged as soon as it is read; the
/// name is looked up in `str_tab` once the entry is read in full, also for
/// a symbol that stands for a section, whose name is then replaced by that
/// of the section it points to.
pub open spec fn symbol_of(
    entry: Seq<u8>,
    bits: Bits,
    str_tab: Seq<u8>,
    sections: Seq<SectionView>,
) -> Result<SymbolView, ElfError> {
    let w = bits.width() as int;
    if entry.len() < 5 {
        Err(ElfError::OutOfBounds)
    } else if symbol_info_of(entry[4]) is Err {
        Err(symbol_info_of(entry[4])->Err_0)
    } else if entry.len() < symbol_len(bits) {
        Err(ElfError::OutOfBounds)
    } else if name_at(str_tab, u32_at(entry, 0) as int) is Err {
        Err(name_at(str_tab, u32_at(entry, 0) as int)->Err_0)
    } else {
        let info = symbol_info_of(entry[4])->Ok_0;
        let shndx = u16_at(entry, 6);
        if info.ty == SymbolType::Section && shndx >= sections.len() {
            Err(ElfError::BadSectionIndex(shndx as usize))
        } else {
            Ok(
                SymbolView {
                    st_name: if info.ty == SymbolType::Section {
                        sections[shndx as int].name
                    } else {
                        name_at(str_tab, u32_at(entry, 0) as int)->Ok_0
                    },
                    st_info: info,
                    st_shndx: shndx,
                    st_value: word_at(entry, 8, bits),
                    st_size: word_at(entry, 8 + w, bits),
                },
            )
        }
    }
}

/// Decodes one entry of the symbol table.
pub fn read_entry(entry_bytes: &[u8], bits: &Bits, str_tab: &[u8], sections: &Vec<Section>) -> (r:
    Result<SymbolTableEntry, ElfError>)
    ensures
        view_of(r) == symbol_of(
            entry_bytes@,
            *bits,
            str_tab@,
            sections@.map_values(|s: Section| s@),
        ),
        r matches Ok(symbol) ==> (symbol.st_info.ty == SymbolType::Section ==> symbol.st_shndx
            < sections@.len() && symbol.st_name@ == sections@[symbol.st_shndx as int].name@),
        r matches Ok(symbol) ==> symbol.st_value.bits() == *bits && symbol.st_size.bits() == *bits,
{
    let mut reader = ByteReader::new(entry_bytes, bits);
    if reader.remaining() < 5 {
        return Err(ElfError::OutOfBounds);
    }
    let st_name = reader.read(4, u32::from_bytes);
    let info: u8 = reader.byte();
    let st_info = match SymbolInfo::from_byte(info) {
        Ok(i) => i,
        Err(e) => {
            return Err(e);
        },
    };
    let rest: usize = match bits {
        Bits::B64 => 19,
        Bits::B32 => 11,
    };
    if reader.remaining() < rest {
        return Err(ElfError::OutOfBounds);
    }
    let _other = reader.byte();
    let st_shndx = reader.read(2, u16::from_bytes);
    let st_value = reader.word();
    let st_size = reader.word();

    let mut name = match get_name(st_name as usize, str_tab) {
        Ok(n) => n,
        Err(e) => {
            return Err(e);
        },
    };
    if st_info.ty == SymbolType::Section {
        if st_shndx as usize >= sections.len() {
            return Err(ElfError::BadSectionIndex(st_shndx as usize));
        }
        name = sections[st_shndx as usize].name.clone();
    }
    Ok(SymbolTableEntry { st_name: name, st_info, st_shndx, st_value, st_size })
}

/// Whether section `i` is the first one called `name`.
pub open spec fn first_named(sections: Seq<SectionView>, name: Seq<char>, i: int) -> bool {
    &&& 0 <= i < sections.len()
    &&& sections[i].name == name
    &&& forall|j: int| 0 <= j < i ==> (#[trigger] sections[j]).name != name
}

/// The index of the first section called `name`, if there is one.
pub open spec fn section_named(sections: Seq<SectionView>, name: Seq<char>) -> Option<int> {
    if exists|i: int| first_named(sections, name, i) {
        Some(choose|i: int| first_named(sections, name, i))
    } else {
        None
    }
}

/// Only one section is the first of its name.
pub proof fn lemma_first_named(sections: Seq<SectionView>, name: Seq<char>, i: int)
    requires
        first_named(sections, name, i),
    ensures
        section_named(sections, name) == Some(i),
{
    let other = choose|k: int| first_named(sections, name, k);
    if other < i {
        assert(sections[other].name != name);
    } else if i < other {
        assert(sections[i].name != name);
    }
}

/// Finds the first section called `name`.
fn find_section(sections: &Vec<Section>, name: &str) -> (r: Option<usize>)
    ensures
        match r {
            Some(i) => section_named(sections@.map_values(|s: Section| s@), name@) == Some(
                i as int,
            ) && i < sections@.len(),
            None => section_named(sections@.map_values(|s: Section| s@), name@) is None,
        },
{
    let wanted = String::from_str(name);
    let ghost all = sections@.map_values(|s: Section| s@);
    let mut i: usize = 0;
    while i < sections.len()
        invariant
            i <= sections@.len(),
            wanted@ == name@,
            all == sections@.map_values(|s: Section| s@),
            forall|j: int| 0 <= j < i ==> (#[trigger] all[j]).name != name@,
        decreases sections@.len() - i,
    {
        if sections[i].name == wanted {
            proof {
                assert(all[i as int].name == name@);
                lemma_first_named(all, name@, i as int);
            }
            return Some(i);
        }
        i += 1;
    }
    None
}

/// The decoder of entry `i` of a symbol table whose entries take `entsize`
/// bytes each. An entry that runs past the table is out of bounds.
pub open spec fn symbol_entry(
    data: Seq<u8>,
    entsize: nat,
    bits: Bits,
    str_tab: Seq<u8>,
    sections: Seq<SectionView>,
) -> spec_fn(int) -> Result<SymbolView, ElfError> {
    |i: int|
        if entry_start(i, entsize) + entsize > data.len() {
            Err(ElfError::OutOfBounds)
        } else {
            symbol_of(
                data.subrange(entry_start(i, entsize), entry_start(i, entsize) + entsize),
                bits,
                str_tab,
                sections,
            )
        }
}

/// The symbols of a decoded file: the entries of the first section called
/// `.symtab`, as many as its declared size holds of its declared entry
/// size, entry 0 among them, named from the payload of the first section
/// called `.strtab`, in the order of the table.
pub open spec fn symbols_of(elf: ElfView) -> Result<Seq<SymbolView>, ElfError> {
    match section_named(elf.sections, ".symtab"@) {
        None => Err(ElfError::MissingSymtab),
        Some(si) => match section_named(elf.sections, ".strtab"@) {
            None => Err(ElfError::MissingStrtab),
            Some(ti) => {
                let symtab = elf.sections[si];
                let entsize = symtab.header.sh_entsize.value();
                if entsize == 0 {
                    Err(ElfError::ZeroEntrySize)
                } else {
                    decode_all(
                        symtab.header.sh_size.value() / entsize,
                        symbol_entry(
                            symtab.data,
                            entsize,
                            elf.header.e_ident.bits,
                            elf.sections[ti].data,
                            elf.sections,
                        ),
                    )
                }
            },
        },
    }
}

/// Whether every symbol that stands for a section carries the name of the
/// section it points to.
pub open spec fn section_symbols_named(
    symbols: Seq<SymbolView>,
    sections: Seq<SectionView>,
) -> bool {
    forall|i: int|
        #![trigger symbols[i]]
        0 <= i < symbols.len() && symbols[i].st_info.ty == SymbolType::Section ==> {
            &&& symbols[i].st_shndx < sections.len()
            &&& symbols[i].st_name == sections[symbols[i].st_shndx as int].name
        }
}

/// In every decoded symbol table a symbol that stands for a section
/// carries that section's name, whatever the string table holds for it.
pub proof fn lemma_symbols_of(elf: ElfView)
    ensures
        symbols_of(elf) matches Ok(symbols) ==> section_symbols_named(symbols, elf.sections),
{
    if let Ok(symbols) = symbols_of(elf) {
        let si = section_named(elf.sections, ".symtab"@)->Some_0;
        let ti = section_named(elf.sections, ".strtab"@)->Some_0;
        let symtab = elf.sections[si];
        let entsize = symtab.header.sh_entsize.value();
        let item = symbol_entry(
            symtab.data,
            entsize,
            elf.header.e_ident.bits,
            elf.sections[ti].data,
            elf.sections,
        );
        lemma_decode_all(symtab.header.sh_size.value() / entsize, item);
        assert forall|i: int|
            #![trigger symbols[i]]
            0 <= i < symbols.len() && symbols[i].st_info.ty == SymbolType::Section implies {
            &&& symbols[i].st_shndx < elf.sections.len()
            &&& symbols[i].st_name == elf.sections[symbols[i].st_shndx as int].name
        } by {
            assert(item(i) == Ok::<SymbolView, ElfError>(symbols[i]));
        }
    }
}

/// Decodes the symbol table of a decoded file.
pub fn read_symtab(elf: &Elf) -> (r: Result<Vec<SymbolTableEntry>, ElfError>)
    ensures
        views_of(r) == symbols_of(elf@),
        r matches Ok(symbols) ==> section_symbols_named(
            symbols@.map_values(|s: SymbolTableEntry| s@),
            elf@.sections,
        ),
{
    proof {
        lemma_symbols_of(elf@);
    }
    let symtab = match find_section(&elf.sections, ".symtab") {
        Some(i) => &elf.sections[i],
        None => {
            return Err(ElfError::MissingSymtab);
        },
    };
    let bits = &elf.header.e_ident.bits;
    let str_tab = match find_section(&elf.sections, ".strtab") {
        Some(i) => &elf.sections[i].data,
        None => {
            return Err(ElfError::MissingStrtab);
        },
    };
    let entsize: u64 = symtab.header.sh_entsize.as_u64();
    if entsize == 0 {
        return Err(ElfError::ZeroEntrySize);
    }
    let symbols: u64 = symtab.header.sh_size.as_u64() / entsize;
    let total: usize = symtab.data.len();
    let ghost item = symbol_entry(
        symtab.data@,
        entsize as nat,
        *bits,
        str_tab@,
        elf@.sections,
    );
    let mut entries: Vec<SymbolTableEntry> = Vec::new();
    let mut offset: usize = 0;
    let mut i: u64 = 0;
    proof {
        lemma_entry_range(0, 1, entsize as nat);
        assert(entries@.map_values(|x: SymbolTableEntry| x@) =~= Seq::empty());
    }
    while i < symbols
        invariant
            i <= symbols,
            entsize > 0,
            total == symtab.data@.len(),
            offset == entry_start(i as int, entsize as nat),
            offset <= total,
            elf@.sections == elf.sections@.map_values(|s: Section| s@),
            item == symbol_entry(symtab.data@, entsize as nat, *bits, str_tab@, elf@.sections),
            decode_all(i as nat, item) == Ok::<Seq<SymbolView>, ElfError>(
                entries@.map_values(|x: SymbolTableEntry| x@),
            ),
            symbols_of(elf@) == decode_all(symbols as nat, item),
        decreases symbols - i,
    {
        proof {
            lemma_entry_range(i as int, symbols as int, entsize as nat);
        }
        if entsize > (total - offset) as u64 {
            proof {
                lemma_decode_all_stops(symbols as nat, i as nat, item);
            }
            return Err(ElfError::OutOfBounds);
        }
        let bytes = &symtab.data.as_slice()[offset..offset + entsize as usize];
        match read_entry(bytes, bits, str_tab.as_slice(), &elf.sections) {
            Ok(s) => {
                let ghost before = entries@.map_values(|x: SymbolTableEntry| x@);
                entries.push(s);
                assert(entries@.map_values(|x: SymbolTableEntry| x@) == before.push(s@));
            },
            Err(e) => {
                proof {
                    lemma_decode_all_stops(symbols as nat, i as nat, item);
                }
                return Err(e);
            },
        }
        offset += entsize as usize;
        i += 1;
    }
    Ok(entries)
}

/// The test for a symbol that another object has to define: a global one
/// that lies in no section.
pub open spec fn needs_definition() -> spec_fn(SymbolView) -> bool {
    |s: SymbolView| s.st_shndx == 0 && s.st_info.binding == SymbolBinding::Global
}

/// Picks the symbols that another object has to define, in the order of
/// the table.
pub fn collect_unknown_symbols(symbols: Vec<SymbolTableEntry>) -> (r: Vec<SymbolTableEntry>)
    ensures
        r@.map_values(|s: SymbolTableEntry| s@) == symbols@.map_values(
            |s: SymbolTableEntry| s@,
        ).filter(needs_definition()),
{
    let ghost all = symbols@.map_values(|s: SymbolTableEntry| s@);
    let mut unknown: Vec<SymbolTableEntry> = Vec::new();
    let mut i: usize = 0;
    proof {
        reveal(Seq::filter);
        assert(all.take(0).filter(needs_definition()) =~= Seq::empty());
        assert(unknown@.map_values(|s: SymbolTableEntry| s@) =~= Seq::empty());
    }
    while i < symbols.len()
        invariant
            i <= symbols@.len(),
            all == symbols@.map_values(|s: SymbolTableEntry| s@),
            unknown@.map_values(|s: SymbolTableEntry| s@) == all.take(i as int).filter(
                needs_definition(),
            ),
        decreases symbols@.len() - i,
    {
        let symbol = &symbols[i];
        proof {
            reveal(Seq::filter);
            assert(all.take(i + 1).drop_last() =~= all.take(i as int));
            assert(all.take(i + 1).last() == symbol@);
        }
        if symbol.st_shndx == 0 && symbol.st_info.binding == SymbolBinding::Global {
            let ghost before = unknown@.map_values(|s: SymbolTableEntry| s@);
            let kept = SymbolTableEntry {
                st_name: symbol.st_name.clone(),
                st_info: symbol.st_info,
                st_shndx: symbol.st_shndx,
                st_value: symbol.st_value,
                st_size: symbol.st_size,
            };
            unknown.push(kept);
            assert(unknown@.map_values(|s: SymbolTableEntry| s@) =~= before.push(symbol@));
        }
        i += 1;
    }
    assert(all.take(symbols@.len() as int) =~= all);
    unknown
}

/// The relocation kinds of the x86-64 ABI that the decoder knows.
#[derive(Debug, Clone, Copy, PartialEq, Eq, Structural)]
#[allow(non_camel_case_types)]
pub enum RelaType {
    R_X86_64_64,
    R_X86_64_PC32,
    R_X86_64_PLT32,
    R_X86_64_GOTPCREL,
    R_X86_64_32,
}

impl RelaType {
    /// The number that stands for the kind in a relocation's info word.
    pub open spec fn spec_code(self) -> u32 {
        match self {
            RelaType::R_X86_64_64 => 1,
            RelaType::R_X86_64_PC32 => 2,
            RelaType::R_X86_64_PLT32 => 4,
            RelaType::R_X86_64_GOTPCREL => 9,
            RelaType::R_X86_64_32 => 10,
        }
    }

    /// The kind that the number `v` stands for, if it stands for one.
    pub open spec fn spec_from_u32(v: u32) -> Option<RelaType> {
        if v == 1 {
            Some(RelaType::R_X86_64_64)
        } else if v == 2 {
            Some(RelaType::R_X86_64_PC32)
        } else if v == 4 {
            Some(RelaType::R_X86_64_PLT32)
        } else if v == 9 {
            Some(RelaType::R_X86_64_GOTPCREL)
        } else if v == 10 {
            Some(RelaType::R_X86_64_32)
        } else {
            None
        }
    }

    /// The number that stands for the kind in a relocation's info word.
    #[verifier::when_used_as_spec(spec_code)]
    pub fn code(self) -> (r: u32)
        ensures
            r == self.spec_code(),
    {
        match self {
            RelaType::R_X86_64_64 => 1,
            RelaType::R_X86_64_PC32 => 2,
            RelaType::R_X86_64_PLT32 => 4,
            RelaType::R_X86_64_GOTPCREL => 9,
            RelaType::R_X86_64_32 => 10,
        }
    }

    /// Maps the lower half of a relocation's info word to its kind.
    pub fn from_u32(v: u32) -> (r: Option<RelaType>)
        ensures
            r == Self::spec_from_u32(v),
    {
        match v {
            1 => Some(RelaType::R_X86_64_64),
            2 => Some(RelaType::R_X86_64_PC32),
            4 => Some(RelaType::R_X86_64_PLT32),
            9 => Some(RelaType::R_X86_64_GOTPCREL),
            10 => Some(RelaType::R_X86_64_32),
            _ => None,
        }
    }
}

impl RelaType {
    /// The table reads the same in both directions.
    pub proof fn lemma_code_round_trip(t: RelaType, v: u32)
        ensures
            Self::spec_from_u32(t.spec_code()) == Some(t),
            Self::spec_from_u32(v) == Some(t) ==> t.spec_code() == v,
    {
    }
}

/// One relocation entry, with the name of the symbol it points to.
#[derive(Debug)]
pub struct Rela {
    pub r_name: String,
    pub r_offset: u64,
    pub r_ty: RelaType,
    pub r_addend: i64,
}

/// A relocation entry as contracts speak of it.
pub struct RelaView {
    pub r_name: Seq<char>,
    pub r_offset: u64,
    pub r_ty: RelaType,
    pub r_addend: i64,
}

impl View for Rela {
    type V = RelaView;

    open spec fn view(&self) -> RelaView {
        RelaView {
            r_name: self.r_name@,
            r_offset: self.r_offset,
            r_ty: self.r_ty,
            r_addend: self.r_addend,
        }
    }
}

/// The symbol index in a relocation's info word: its upper 32 bits.
pub open spec fn rela_symbol(info: u64) -> u32 {
    (info >> 32) as u32
}

/// The relocation kind's number in a relocation's info word: its lower 32
/// bits.
pub open spec fn rela_kind(info: u64) -> u32 {
    (info & 0xffffffff) as u32
}

/// The info word that holds symbol index `symbol` and kind number `kind`.
pub open spec fn rela_info(symbol: u32, kind: u32) -> u64 {
    ((symbol as u64) << 32) | (kind as u64)
}

/// An info word is its symbol index shifted up by 32 bits with its kind
/// below, and the two halves come apart again unchanged.
pub proof fn lemma_rela_info(info: u64, symbol: u32, kind: u32)
    ensures
        rela_info(rela_symbol(info), rela_kind(info)) == info,
        rela_symbol(rela_info(symbol, kind)) == symbol,
        rela_kind(rela_info(symbol, kind)) == kind,
{
    assert((((info >> 32) as u32 as u64) << 32) | ((info & 0xffffffff) as u32 as u64) == info)
        by (bit_vector);
    assert(((((symbol as u64) << 32) | (kind as u64)) >> 32) as u32 == symbol) by (bit_vector);
    assert(((((symbol as u64) << 32) | (kind as u64)) & 0xffffffff) as u32 == kind)
        by (bit_vector);
}

/// The relocation that the entry `entry` holds: offset, info word and
/// signed addend in eight bytes each. The kind in the info word is judged
/// before its symbol index is looked up in `symbols`.
pub open spec fn rela_of(entry: Seq<u8>, symbols: Seq<SymbolView>) -> Result<RelaView, ElfError> {
    if entry.len() < 24 {
        Err(ElfError::OutOfBounds)
    } else {
        let info = u64_at(entry, 8);
        if RelaType::spec_from_u32(rela_kind(info)) is None {
            Err(ElfError::UnknownRelocationType(rela_kind(info)))
        } else if rela_symbol(info) >= symbols.len() {
            Err(ElfError::BadSymbolIndex(rela_symbol(info)))
        } else {
            Ok(
                RelaView {
                    r_name: symbols[rela_symbol(info) as int].st_name,
                    r_offset: u64_at(entry, 0),
                    r_ty: RelaType::spec_from_u32(rela_kind(info)).unwrap(),
                    r_addend: i64_at(entry, 16),
                },
            )
        }
    }
}

/// `num_traits::FromPrimitive::from_u64` for `u32`: the number itself where
/// it is at most `u32::MAX`, nothing where it is larger.
#[verifier::external_body]
fn u32_from_u64(n: u64) -> (r: Option<u32>)
    ensures
        r == (if n <= u32::MAX {
            Some(n as u32)
        } else {
            None
        }),
{
    <u32 as num_traits::FromPrimitive>::from_u64(n)
}

/// Decodes the relocation entry that `reader` stands in front of. This
/// entry layout is that of 64-bit files.
pub fn read_rela(reader: ByteReader, symbs: &Vec<SymbolTableEntry>) -> (r: Result<Rela, ElfError>)
    ensures
        view_of(r) == rela_of(reader@, symbs@.map_values(|s: SymbolTableEntry| s@)),
        r matches Ok(rela) ==> rela.r_name@ == symbs@[rela_symbol(
            u64_at(reader@, 8),
        ) as int].st_name@,
{
    let mut reader = reader;
    if reader.remaining() < 24 {
        return Err(ElfError::OutOfBounds);
    }
    let ghost entry = reader@;
    let ghost start = reader.position() as int;
    proof {
        lemma_tail_stretch(reader.source(), start, 0, 8);
        lemma_tail_stretch(reader.source(), start, 8, 16);
        lemma_tail_stretch(reader.source(), start, 16, 24);
    }
    let r_offset = reader.read(8, u64::from_bytes);
    let r_info = reader.read(8, u64::from_bytes);
    let r_addend = reader.read(8, i64::from_bytes);

    assert(r_info >> 32 <= 0xffff_ffff && r_info & 0xffffffff <= 0xffff_ffff) by (bit_vector);
    let r_sym = match u32_from_u64(r_info >> 32) {
        Some(v) => v,
        None => vstd::pervasive::unreached(),
    };
    let r_ty = match u32_from_u64(r_info & 0xffffffff) {
        Some(v) => v,
        None => vstd::pervasive::unreached(),
    };
    let r_ty = match RelaType::from_u32(r_ty) {
        Some(ty) => ty,
        None => {
            return Err(ElfError::UnknownRelocationType(r_ty));
        },
    };
    if r_sym as usize >= symbs.len() {
        return Err(ElfError::BadSymbolIndex(r_sym));
    }
    let r_name = symbs[r_sym as usize].st_name.clone();

    Ok(Rela { r_name, r_offset, r_ty, r_addend })
}

/// The decoder of entry `i` of a relocation table whose entries take
/// `entsize` bytes each. An entry that runs past the table is out of
/// bounds.
pub open spec fn rela_entry(data: Seq<u8>, entsize: nat, symbols: Seq<SymbolView>) -> spec_fn(
    int,
) -> Result<RelaView, ElfError> {
    |i: int|
        if entry_start(i, entsize) + entsize > data.len() {
            Err(ElfError::OutOfBounds)
        } else {
            rela_of(
                data.subrange(entry_start(i, entsize), entry_start(i, entsize) + entsize),
                symbols,
            )
        }
}

/// The relocations of one `SHT_RELA` section: as many entries as its
/// declared size holds of its declared entry size, in the order of the
/// table, with no entry set apart at the front.
pub open spec fn rela_entries_of(section: SectionView, symbols: Seq<SymbolView>) -> Result<
    Seq<RelaView>,
    ElfError,
> {
    let entsize = section.header.sh_entsize.value();
    if entsize == 0 {
        Err(ElfError::ZeroEntrySize)
    } else {
        decode_all(
            section.header.sh_size.value() / entsize,
            rela_entry(section.data, entsize, symbols),
        )
    }
}

/// The relocations of the first `n` sections: for each `SHT_RELA` section
/// among them, in section order, its name and its relocations.
pub open spec fn rela_groups(
    sections: Seq<SectionView>,
    n: nat,
    symbols: Seq<SymbolView>,
) -> Result<Seq<(Seq<char>, Seq<RelaView>)>, ElfError>
    decreases n,
{
    if n == 0 {
        Ok(Seq::empty())
    } else {
        match rela_groups(sections, (n - 1) as nat, symbols) {
            Err(e) => Err(e),
            Ok(groups) => {
                let section = sections[n - 1];
                if section.header.sh_type != SectionType::Rela {
                    Ok(groups)
                } else {
                    match rela_entries_of(section, symbols) {
                        Err(e) => Err(e),
                        Ok(relas) => Ok(groups.push((section.name, relas))),
                    }
                }
            },
        }
    }
}

/// The relocations of a decoded file. The symbol table is decoded first,
/// also where no section holds relocations, and its failure is the
/// failure of the whole.
pub open spec fn relas_of(elf: ElfView) -> Result<Seq<(Seq<char>, Seq<RelaView>)>, ElfError> {
    match symbols_of(elf) {
        Err(e) => Err(e),
        Ok(symbols) => rela_groups(elf.sections, elf.sections.len(), symbols),
    }
}

/// The test that picks the sections that hold relocations with addends.
pub open spec fn holds_relas() -> spec_fn(SectionView) -> bool {
    |s: SectionView| s.header.sh_type == SectionType::Rela
}

/// Whether `groups` holds, for each of the sections `relas` in order, the
/// section's name and the relocations decoded from it.
pub open spec fn groups_of_sections(
    groups: Seq<(Seq<char>, Seq<RelaView>)>,
    relas: Seq<SectionView>,
    symbols: Seq<SymbolView>,
) -> bool {
    &&& groups.len() == relas.len()
    &&& forall|k: int|
        #![trigger groups[k]]
        0 <= k < groups.len() ==> {
            &&& groups[k].0 == relas[k].name
            &&& rela_entries_of(relas[k], symbols) == Ok::<Seq<RelaView>, ElfError>(groups[k].1)
        }
}

/// The decoded relocations hold one list for every `SHT_RELA` section, and
/// for no other, in section order.
pub proof fn lemma_rela_groups(sections: Seq<SectionView>, n: nat, symbols: Seq<SymbolView>)
    requires
        n <= sections.len(),
    ensures
        rela_groups(sections, n, symbols) matches Ok(groups) ==> groups_of_sections(
            groups,
            sections.take(n as int).filter(holds_relas()),
            symbols,
        ),
    decreases n,
{
    reveal(Seq::filter);
    if n > 0 {
        lemma_rela_groups(sections, (n - 1) as nat, symbols);
        let front = sections.take(n as int);
        assert(front.drop_last() =~= sections.take(n - 1));
        assert(front.last() == sections[n - 1]);
    }
}

/// Every decoded list of relocations follows the `SHT_RELA` sections of the
/// file one for one, each resolved against the file's symbol table.
pub proof fn lemma_relas_of(elf: ElfView)
    ensures
        relas_of(elf) matches Ok(groups) ==> symbols_of(elf) is Ok && groups_of_sections(
            groups,
            elf.sections.filter(holds_relas()),
            symbols_of(elf)->Ok_0,
        ),
{
    if let Ok(symbols) = symbols_of(elf) {
        lemma_rela_groups(elf.sections, elf.sections.len(), symbols);
        assert(elf.sections.take(elf.sections.len() as int) =~= elf.sections);
    }
}

/// A list of named relocation lists as contracts speak of it.
pub open spec fn groups_view(groups: Seq<(String, Vec<Rela>)>) -> Seq<(Seq<char>, Seq<RelaView>)> {
    groups.map_values(|g: (String, Vec<Rela>)| (g.0@, g.1@.map_values(|r: Rela| r@)))
}

/// Once a section's relocations fail, the relocations of every longer run
/// of sections fail in the same way.
proof fn lemma_rela_groups_stop(
    sections: Seq<SectionView>,
    n: nat,
    i: nat,
    symbols: Seq<SymbolView>,
)
    requires
        i < n,
        rela_groups(sections, i, symbols) is Ok,
        sections[i as int].header.sh_type == SectionType::Rela,
        rela_entries_of(sections[i as int], symbols) is Err,
    ensures
        rela_groups(sections, n, symbols) == Err::<Seq<(Seq<char>, Seq<RelaView>)>, ElfError>(
            rela_entries_of(sections[i as int], symbols)->Err_0,
        ),
    decreases n,
{
    if n > i + 1 {
        lemma_rela_groups_stop(sections, (n - 1) as nat, i, symbols);
    }
}

/// Decodes the entries of one relocation section.
fn read_rela_entries(rela: &Section, bits: &Bits, symbs: &Vec<SymbolTableEntry>) -> (r: Result<
    Vec<Rela>,
    ElfError,
>)
    ensures
        views_of(r) == rela_entries_of(rela@, symbs@.map_values(|s: SymbolTableEntry| s@)),
{
    let entsize: u64 = rela.header.sh_entsize.as_u64();
    if entsize == 0 {
        return Err(ElfError::ZeroEntrySize);
    }
    let entries: u64 = rela.header.sh_size.as_u64() / entsize;
    let total: usize = rela.data.len();
    let ghost symbols = symbs@.map_values(|s: SymbolTableEntry| s@);
    let ghost item = rela_entry(rela.data@, entsize as nat, symbols);
    let mut relocs: Vec<Rela> = Vec::new();
    let mut offset: usize = 0;
    let mut i: u64 = 0;
    proof {
        lemma_entry_range(0, 1, entsize as nat);
        assert(relocs@.map_values(|x: Rela| x@) =~= Seq::empty());
    }
    while i < entries
        invariant
            i <= entries,
            entsize > 0,
            total == rela.data@.len(),
            offset == entry_start(i as int, entsize as nat),
            offset <= total,
            symbols == symbs@.map_values(|s: SymbolTableEntry| s@),
            item == rela_entry(rela.data@, entsize as nat, symbols),
            decode_all(i as nat, item) == Ok::<Seq<RelaView>, ElfError>(
                relocs@.map_values(|x: Rela| x@),
            ),
            rela_entries_of(rela@, symbols) == decode_all(entries as nat, item),
        decreases entries - i,
    {
        proof {
            lemma_entry_range(i as int, entries as int, entsize as nat);
        }
        if entsize > (total - offset) as u64 {
            proof {
                lemma_decode_all_stops(entries as nat, i as nat, item);
            }
            return Err(ElfError::OutOfBounds);
        }
        let reader = ByteReader::new(
            &rela.data.as_slice()[offset..offset + entsize as usize],
            bits,
        );
        assert(reader@ == reader.source()) by {
            assert(reader.source().skip(0) =~= reader.source());
        }
        match read_rela(reader, symbs) {
            Ok(r) => {
                let ghost before = relocs@.map_values(|x: Rela| x@);
                relocs.push(r);
                assert(relocs@.map_values(|x: Rela| x@) == before.push(r@));
            },
            Err(e) => {
                proof {
                    lemma_decode_all_stops(entries as nat, i as nat, item);
                }
                return Err(e);
            },
        }
        offset += entsize as usize;
        i += 1;
    }
    Ok(relocs)
}

/// Decodes the relocation entries of every `SHT_RELA` section of a decoded
/// file, each list under the name of the section that holds it.
pub fn read_relas(elf: &Elf) -> (r: Result<Vec<(String, Vec<Rela>)>, ElfError>)
    ensures
        match r {
            Ok(groups) => relas_of(elf@) == Ok::<Seq<(Seq<char>, Seq<RelaView>)>, ElfError>(
                groups_view(groups@),
            ),
            Err(e) => relas_of(elf@) == Err::<Seq<(Seq<char>, Seq<RelaView>)>, ElfError>(e),
        },
        r matches Ok(groups) ==> symbols_of(elf@) is Ok && groups_of_sections(
            groups_view(groups@),
            elf@.sections.filter(holds_relas()),
            symbols_of(elf@)->Ok_0,
        ),
{
    proof {
        lemma_relas_of(elf@);
    }
    let bits = &elf.header.e_ident.bits;
    let symbs = match read_symtab(elf) {
        Ok(s) => s,
        Err(e) => {
            return Err(e);
        },
    };
    let ghost symbols = symbs@.map_values(|s: SymbolTableEntry| s@);
    let ghost sections = elf@.sections;
    let mut rs: Vec<(String, Vec<Rela>)> = Vec::new();
    let mut i: usize = 0;
    assert(groups_view(rs@) =~= Seq::empty());
    while i < elf.sections.len()
        invariant
            i <= elf.sections@.len(),
            symbols == symbs@.map_values(|s: SymbolTableEntry| s@),
            sections == elf@.sections,
            symbols_of(elf@) == Ok::<Seq<SymbolView>, ElfError>(symbols),
            rela_groups(sections, i as nat, symbols) == Ok::<
                Seq<(Seq<char>, Seq<RelaView>)>,
                ElfError,
            >(groups_view(rs@)),
        decreases elf.sections@.len() - i,
    {
        let rela = &elf.sections[i];
        assert(sections[i as int] == rela@);
        if rela.header.sh_type == SectionType::Rela {
            match read_rela_entries(rela, bits, &symbs) {
                Ok(relocs) => {
                    let ghost before = rs@;
                    let name = rela.name.clone();
                    let ghost added = (name, relocs);
                    rs.push((name, relocs));
                    assert(rs@ == before.push(added));
                    assert(groups_view(rs@) =~= groups_view(before).push(
                        (rela@.name, relocs@.map_values(|r: Rela| r@)),
                    ));
                },
                Err(e) => {
                    proof {
                        lemma_rela_groups_stop(
                            sections,
                            elf.sections@.len() as nat,
                            i as nat,
                            symbols,
                        );
                    }
                    return Err(e);
                },
            }
        }
        i += 1;
    }
    Ok(rs)
}

} // verus!
