//! The section header table, and the sections with their names and payloads.

use vstd::prelude::*;
use vstd::slice::slice_to_vec;
use crate::byte_reader::ByteReader;
use crate::error::{
    decode_all,
    lemma_decode_all,
    lemma_decode_all_stops,
    view_of,
    views_of,
    ElfError,
};
use crate::types::{get_name, name_at, u32_at, word_at, Bits, FromBytes, VariableBits};

verus! {

/// What a section holds, as its header declares it.
#[derive(Debug, Clone, Copy, PartialEq, Eq, Structural)]
pub enum SectionType {
    Null,
    ProgBits,
    SymTab,
    StrTab,
    Rela,
    Hash,
    Dynamic,
    Note,
    Nobits,
    Rel,
    Shlib,
    Dynsym,
    InitArray,
    FiniArray,
    PreinitArray,
    Group,
    SymtabShndx,
    Num,
    /// A toolchain-specific section in the OS-reserved range.
    LOOS,
    /// Unwind tables of the x86-64 ABI.
    X86_64Unwind,
}

impl SectionType {
    /// The number that stands for the type in a section header.
    pub open spec fn spec_code(self) -> u32 {
        match self {
            SectionType::Null => 0,
            SectionType::ProgBits => 1,
            SectionType::SymTab => 2,
            SectionType::StrTab => 3,
            SectionType::Rela => 4,
            SectionType::Hash => 5,
            SectionType::Dynamic => 6,
            SectionType::Note => 7,
            SectionType::Nobits => 8,
            SectionType::Rel => 9,
            SectionType::Shlib => 10,
            SectionType::Dynsym => 11,
            SectionType::InitArray => 12,
            SectionType::FiniArray => 13,
            SectionType::PreinitArray => 14,
            SectionType::Group => 15,
            SectionType::SymtabShndx => 16,
            SectionType::Num => 17,
            SectionType::LOOS => 1879002115,
            SectionType::X86_64Unwind => 1879048193,
        }
    }

    /// The type that the number `v` stands for, if it stands for one.
    pub open spec fn spec_from_u32(v: u32) -> Option<SectionType> {
        if v == 0 {
            Some(SectionType::Null)
        } else if v == 1 {
            Some(SectionType::ProgBits)
        } else if v == 2 {
            Some(SectionType::SymTab)
        } else if v == 3 {
            Some(SectionType::StrTab)
        } else if v == 4 {
            Some(SectionType::Rela)
        } else if v == 5 {
            Some(SectionType::Hash)
        } else if v == 6 {
            Some(SectionType::Dynamic)
        } else if v == 7 {
            Some(SectionType::Note)
        } else if v == 8 {
            Some(SectionType::Nobits)
        } else if v == 9 {
            Some(SectionType::Rel)
        } else if v == 10 {
            Some(SectionType::Shlib)
        } else if v == 11 {
            Some(SectionType::Dynsym)
        } else if v == 12 {
            Some(SectionType::InitArray)
        } else if v == 13 {
            Some(SectionType::FiniArray)
        } else if v == 14 {
            Some(SectionType::PreinitArray)
        } else if v == 15 {
            Some(SectionType::Group)
        } else if v == 16 {
            Some(SectionType::SymtabShndx)
        } else if v == 17 {
            Some(SectionType::Num)
        } else if v == 1879002115 {
            Some(SectionType::LOOS)
        } else if v == 1879048193 {
            Some(SectionType::X86_64Unwind)
        } else {
            None
        }
    }

    /// The number that stands for the type in a section header.
    #[verifier::when_used_as_spec(spec_code)]
    pub fn code(self) -> (r: u32)
        ensures
            r == self.spec_code(),
    {
        match self {
            SectionType::Null => 0,
            SectionType::ProgBits => 1,
            SectionType::SymTab => 2,
            SectionType::StrTab => 3,
            SectionType::Rela => 4,
            SectionType::Hash => 5,
            SectionType::Dynamic => 6,
            SectionType::Note => 7,
            SectionType::Nobits => 8,
            SectionType::Rel => 9,
            SectionType::Shlib => 10,
            SectionType::Dynsym => 11,
            SectionType::InitArray => 12,
            SectionType::FiniArray => 13,
            SectionType::PreinitArray => 14,
            SectionType::Group => 15,
            SectionType::SymtabShndx => 16,
            SectionType::Num => 17,
            SectionType::LOOS => 1879002115,
            SectionType::X86_64Unwind => 1879048193,
        }
    }

    /// Maps the number in a section header to its type. A number outside the
    /// table maps to nothing.
    pub fn from_u32(v: u32) -> (r: Option<SectionType>)
        ensures
            r == Self::spec_from_u32(v),
    {
        match v {
            0 => Some(SectionType::Null),
            1 => Some(SectionType::ProgBits),
            2 => Some(SectionType::SymTab),
            3 => Some(SectionType::StrTab),
            4 => Some(SectionType::Rela),
            5 => Some(SectionType::Hash),
            6 => Some(SectionType::Dynamic),
            7 => Some(SectionType::Note),
            8 => Some(SectionType::Nobits),
            9 => Some(SectionType::Rel),
            10 => Some(SectionType::Shlib),
            11 => Some(SectionType::Dynsym),
            12 => Some(SectionType::InitArray),
            13 => Some(SectionType::FiniArray),
            14 => Some(SectionType::PreinitArray),
            15 => Some(SectionType::Group),
            16 => Some(SectionType::SymtabShndx),
            17 => Some(SectionType::Num),
            1879002115 => Some(SectionType::LOOS),
            1879048193 => Some(SectionType::X86_64Unwind),
            _ => None,
        }
    }

    /// The table reads the same in both directions: a type's number maps
    /// back to the type, and a number that maps to a type is that type's
    /// number.
    pub proof fn lemma_code_round_trip(t: SectionType, v: u32)
        ensures
            Self::spec_from_u32(t.spec_code()) == Some(t),
            Self::spec_from_u32(v) == Some(t) ==> t.spec_code() == v,
    {
    }
}

/// One entry of the section header table.
#[derive(Debug, Clone, Copy, PartialEq, Eq, Structural)]
pub struct SectionHeader {
    pub sh_name: u32,
    pub sh_type: SectionType,
    pub sh_flags: VariableBits,
    pub sh_addr: VariableBits,
    pub sh_offset: VariableBits,
    pub sh_size: VariableBits,
    pub sh_link: u32,
    pub sh_info: u32,
    pub sh_addralign: VariableBits,
    pub sh_entsize: VariableBits,
}

impl SectionHeader {
    /// Whether every word of the header has the width of the class `bits`.
    pub open spec fn has_class(&self, bits: Bits) -> bool {
        &&& self.sh_flags.bits() == bits
        &&& self.sh_addr.bits() == bits
        &&& self.sh_offset.bits() == bits
        &&& self.sh_size.bits() == bits
        &&& self.sh_addralign.bits() == bits
        &&& self.sh_entsize.bits() == bits
    }

    /// How many entries the section's table holds: its size divided by the
    /// size of one entry.
    pub open spec fn spec_entries(&self) -> nat {
        self.sh_size.value() / self.sh_entsize.value()
    }

    /// How many entries the section's table holds. The entry size must not
    /// be zero, and the count must be one that the platform can index.
    pub fn entries(&self) -> (r: usize)
        requires
            self.sh_entsize.value() != 0,
            self.spec_entries() <= usize::MAX,
        ensures
            r == self.spec_entries(),
    {
        let count: u64 = self.sh_size.as_u64() / self.sh_entsize.as_u64();
        count as usize
    }
}

/// A section: its header, its resolved name and a copy of its payload.
#[derive(Debug)]
pub struct Section {
    pub name: String,
    pub header: SectionHeader,
    pub data: Vec<u8>,
}

/// A section as contracts speak of it.
pub struct SectionView {
    pub name: Seq<char>,
    pub header: SectionHeader,
    pub data: Seq<u8>,
}

impl View for Section {
    type V = SectionView;

    open spec fn view(&self) -> SectionView {
        SectionView { name: self.name@, header: self.header, data: self.data@ }
    }
}

/// The number of bytes that a section header's fields take in a file of
/// class `bits`.
pub open spec fn section_header_len(bits: Bits) -> nat {
    16 + 6 * bits.width()
}

/// The section header that the entry `bytes` holds: name offset and type
/// in four bytes each, four words, link and info in four bytes each, two
/// words. An entry too short for a field is out of bounds, and a type
/// outside the table is refused once it has been read.
#[verifier::opaque]
pub open spec fn section_header_of(bytes: Seq<u8>, bits: Bits) -> Result<SectionHeader, ElfError> {
    let w = bits.width() as int;
    if bytes.len() < 8 {
        Err(ElfError::OutOfBounds)
    } else if SectionType::spec_from_u32(u32_at(bytes, 4)) is None {
        Err(ElfError::UnknownSectionType(u32_at(bytes, 4)))
    } else if bytes.len() < section_header_len(bits) {
        Err(ElfError::OutOfBounds)
    } else {
        Ok(
            SectionHeader {
                sh_name: u32_at(bytes, 0),
                sh_type: SectionType::spec_from_u32(u32_at(bytes, 4)).unwrap(),
                sh_flags: word_at(bytes, 8, bits),
                sh_addr: word_at(bytes, 8 + w, bits),
                sh_offset: word_at(bytes, 8 + 2 * w, bits),
                sh_size: word_at(bytes, 8 + 3 * w, bits),
                sh_link: u32_at(bytes, 8 + 4 * w),
                sh_info: u32_at(bytes, 12 + 4 * w),
                sh_addralign: word_at(bytes, 16 + 4 * w, bits),
                sh_entsize: word_at(bytes, 16 + 5 * w, bits),
            },
        )
    }
}

/// Every word of a decoded section header has the width of the class it
/// was decoded in.
pub proof fn lemma_section_header_class(bytes: Seq<u8>, bits: Bits)
    ensures
        section_header_of(bytes, bits) matches Ok(header) ==> header.has_class(bits),
{
    reveal(section_header_of);
}

/// Decodes one entry of the section header table.
pub fn make_section_header(bytes: &[u8], bits: &Bits) -> (r: Result<SectionHeader, ElfError>)
    ensures
        r == section_header_of(bytes@, *bits),
        r matches Ok(header) ==> header.has_class(*bits),
{
    reveal(section_header_of);
    let mut reader = ByteReader::new(bytes, bits);
    if reader.remaining() < 8 {
        return Err(ElfError::OutOfBounds);
    }
    let sh_name = reader.read(4, u32::from_bytes);
    let sh_type_value = reader.read(4, u32::from_bytes);
    let sh_type = match SectionType::from_u32(sh_type_value) {
        Some(t) => t,
        None => {
            return Err(ElfError::UnknownSectionType(sh_type_value));
        },
    };
    let rest: usize = match bits {
        Bits::B64 => 56,
        Bits::B32 => 32,
    };
    if reader.remaining() < rest {
        return Err(ElfError::OutOfBounds);
    }
    let sh_flags = reader.word();
    let sh_addr = reader.word();
    let sh_offset = reader.word();
    let sh_size = reader.word();
    let sh_link = reader.read(4, u32::from_bytes);
    let sh_info = reader.read(4, u32::from_bytes);
    let sh_addralign = reader.word();
    let sh_entsize = reader.word();

    Ok(
        SectionHeader {
            sh_name,
            sh_type,
            sh_flags,
            sh_addr,
            sh_offset,
            sh_size,
            sh_link,
            sh_info,
            sh_addralign,
            sh_entsize,
        },
    )
}

/// Where entry `i` of a table starts whose entries take `size` bytes each.
#[verifier::opaque]
pub open spec fn entry_start(i: int, size: nat) -> int {
    i * size
}

/// The decoder of entry `i` of a header table whose entries take `size`
/// bytes each.
pub open spec fn header_entry(bytes: Seq<u8>, size: nat, bits: Bits) -> spec_fn(int) -> Result<
    SectionHeader,
    ElfError,
> {
    |i: int|
        section_header_of(
            bytes.subrange(entry_start(i, size), entry_start(i, size) + size),
            bits,
        )
}

/// The headers of a table of `entries` entries of `size` bytes each at the
/// front of `bytes`. A table that does not fit in `bytes` is out of bounds;
/// else the entries are decoded in order.
pub open spec fn section_headers_of(bytes: Seq<u8>, entries: nat, size: nat, bits: Bits) -> Result<
    Seq<SectionHeader>,
    ElfError,
> {
    if entries * size > bytes.len() {
        Err(ElfError::OutOfBounds)
    } else {
        decode_all(entries, header_entry(bytes, size, bits))
    }
}

/// Entry `i` of `n` entries of `size` bytes each ends where the next one
/// starts, and before the end of the table.
pub proof fn lemma_entry_range(i: int, n: int, size: nat)
    requires
        0 <= i < n,
    ensures
        entry_start(0, size) == 0,
        0 <= entry_start(i, size),
        entry_start(i + 1, size) == entry_start(i, size) + size,
        entry_start(i, size) + size <= entry_start(n, size),
        entry_start(i, size) == i * size,
{
    reveal(entry_start);
    assert(0 <= i * size && (i + 1) * size == i * size + size && i * size + size <= n * size)
        by (nonlinear_arith)
        requires
            0 <= i < n,
            0 <= size,
    ;
}

/// Decodes the section header table that starts at the front of `bytes`.
pub fn read_section_headers(bytes: &[u8], entries: u16, size: u16, bits: &Bits) -> (r: Result<
    Vec<SectionHeader>,
    ElfError,
>)
    ensures
        match r {
            Ok(v) => section_headers_of(bytes@, entries as nat, size as nat, *bits) == Ok::<
                Seq<SectionHeader>,
                ElfError,
            >(v@),
            Err(e) => section_headers_of(bytes@, entries as nat, size as nat, *bits) == Err::<
                Seq<SectionHeader>,
                ElfError,
            >(e),
        },
        r matches Ok(v) ==> v@.len() == entries,
{
    let step: usize = size as usize;
    let total: usize = bytes.len();
    let ghost limit: int = entry_start(entries as int, size as nat);
    assert(limit == entries * size && entries * size <= 0xffff * 0xffff) by {
        lemma_entry_range(entries as int, entries + 1, size as nat);
        assert(entries * size <= 0xffff * 0xffff) by (nonlinear_arith)
            requires
                entries <= 0xffff,
                size <= 0xffff,
        ;
    }
    if (entries as u64) * (size as u64) > total as u64 {
        return Err(ElfError::OutOfBounds);
    }
    let ghost item = header_entry(bytes@, size as nat, *bits);
    let ghost whole = decode_all(entries as nat, item);
    assert(whole == section_headers_of(bytes@, entries as nat, size as nat, *bits));
    let mut offset: usize = 0;
    let mut sec_headers: Vec<SectionHeader> = Vec::new();
    let mut i: u16 = 0;
    proof {
        lemma_entry_range(0, 1, size as nat);
    }
    while i < entries
        invariant
            i <= entries,
            step == size,
            offset == entry_start(i as int, size as nat),
            total == bytes@.len(),
            limit == entry_start(entries as int, size as nat),
            limit <= total,
            item == header_entry(bytes@, size as nat, *bits),
            whole == decode_all(entries as nat, item),
            whole == section_headers_of(bytes@, entries as nat, size as nat, *bits),
            decode_all(i as nat, item) == Ok::<Seq<SectionHeader>, ElfError>(sec_headers@),
            sec_headers@.len() == i,
        decreases entries - i,
    {
        proof {
            lemma_entry_range(i as int, entries as int, size as nat);
        }
        let header = &bytes[offset..offset + step];
        assert(item(i as int) == section_header_of(header@, *bits));
        match make_section_header(header, bits) {
            Ok(h) => {
                sec_headers.push(h);
            },
            Err(e) => {
                proof {
                    lemma_decode_all_stops(entries as nat, i as nat, item);
                }
                return Err(e);
            },
        }
        offset += step;
        i += 1;
    }
    Ok(sec_headers)
}

/// Where the payload of the section that `header` describes ends in the
/// file.
pub open spec fn payload_end(header: SectionHeader) -> int {
    (header.sh_offset.value() + header.sh_size.value()) as int
}

/// The payload of the section that `header` describes in the file `bytes`.
pub open spec fn payload_of(header: SectionHeader, bytes: Seq<u8>) -> Seq<u8> {
    bytes.subrange(header.sh_offset.value() as int, payload_end(header))
}

/// The section that `header` describes in the file `bytes`, named from the
/// string table `str_tab`. A payload that runs past the file is out of
/// bounds; the payload is looked at before the name.
pub open spec fn section_of(header: SectionHeader, bytes: Seq<u8>, str_tab: Seq<u8>) -> Result<
    SectionView,
    ElfError,
> {
    if payload_end(header) > bytes.len() {
        Err(ElfError::OutOfBounds)
    } else {
        match name_at(str_tab, header.sh_name as int) {
            Err(e) => Err(e),
            Ok(name) => Ok(SectionView { name, header, data: payload_of(header, bytes) }),
        }
    }
}

/// The bytes `[start, start + len)` of `bytes`, if they lie inside it.
fn payload<'a>(bytes: &'a [u8], start: &VariableBits, len: &VariableBits) -> (r: Option<&'a [u8]>)
    ensures
        r is Some <==> start.value() + len.value() <= bytes@.len(),
        r matches Some(s) ==> s@ == bytes@.subrange(
            start.value() as int,
            (start.value() + len.value()) as int,
        ),
{
    let total: u64 = bytes.len() as u64;
    let first: u64 = start.as_u64();
    let count: u64 = len.as_u64();
    if first > total || count > total - first {
        None
    } else {
        Some(&bytes[first as usize..(first + count) as usize])
    }
}

/// Builds a section from its header: copies its payload out of the file
/// and resolves its name.
pub fn make_section(header: SectionHeader, bytes: &[u8], str_tab: &[u8]) -> (r: Result<
    Section,
    ElfError,
>)
    ensures
        view_of(r) == section_of(header, bytes@, str_tab@),
{
    let data = match payload(bytes, &header.sh_offset, &header.sh_size) {
        Some(s) => slice_to_vec(s),
        None => {
            return Err(ElfError::OutOfBounds);
        },
    };
    let offset = header.sh_name as usize;
    let name = match get_name(offset, str_tab) {
        Ok(n) => n,
        Err(e) => {
            return Err(e);
        },
    };
    Ok(Section { header, data, name })
}

/// The decoder of section `i` from the headers of a file.
pub open spec fn section_entry(headers: Seq<SectionHeader>, bytes: Seq<u8>, str_tab: Seq<u8>)
    -> spec_fn(int) -> Result<SectionView, ElfError> {
    |i: int| section_of(headers[i], bytes, str_tab)
}

/// The sections of the file `bytes`, whose header table of `entries`
/// entries of `size` bytes each starts at `header_offset` and whose
/// section names lie in the payload of section `nameidx`. The checks come
/// in this order: the table's start, the table itself, the index of the
/// name table, the name table's payload, then each section in turn.
pub open spec fn sections_of(
    bytes: Seq<u8>,
    header_offset: nat,
    entries: nat,
    size: nat,
    nameidx: nat,
    bits: Bits,
) -> Result<Seq<SectionView>, ElfError> {
    if header_offset > bytes.len() {
        Err(ElfError::OutOfBounds)
    } else {
        match section_headers_of(bytes.skip(header_offset as int), entries, size, bits) {
            Err(e) => Err(e),
            Ok(headers) => {
                if nameidx >= headers.len() {
                    Err(ElfError::BadSectionIndex(nameidx as usize))
                } else if payload_end(headers[nameidx as int]) > bytes.len() {
                    Err(ElfError::OutOfBounds)
                } else {
                    decode_all(
                        entries,
                        section_entry(headers, bytes, payload_of(headers[nameidx as int], bytes)),
                    )
                }
            },
        }
    }
}

/// What a list of sections owes to the file `bytes` it was decoded from:
/// each payload is the stretch of the file that the section's header
/// declares, as long as the header says, and each name is the text that
/// starts at the header's name offset in the payload of section `nameidx`.
pub open spec fn sections_match_file(
    sections: Seq<SectionView>,
    bytes: Seq<u8>,
    nameidx: int,
) -> bool {
    &&& 0 <= nameidx < sections.len()
    &&& forall|i: int|
        #![trigger sections[i]]
        0 <= i < sections.len() ==> {
            &&& sections[i].data.len() == sections[i].header.sh_size.value()
            &&& sections[i].data == payload_of(sections[i].header, bytes)
            &&& name_at(sections[nameidx].data, sections[i].header.sh_name as int) == Ok::<
                Seq<char>,
                ElfError,
            >(sections[i].name)
        }
}

/// Whether every word in the headers of `sections` has the width of the
/// class `bits`.
pub open spec fn sections_have_class(sections: Seq<SectionView>, bits: Bits) -> bool {
    forall|i: int| 0 <= i < sections.len() ==> (#[trigger] sections[i]).header.has_class(bits)
}

/// Every decoded section list has one section for each entry of the header
/// table, section 0 among them, each with the header that its entry holds
/// and with words of the file's class, and matches the file in payloads
/// and names.
pub proof fn lemma_sections_of(
    bytes: Seq<u8>,
    header_offset: nat,
    entries: nat,
    size: nat,
    nameidx: nat,
    bits: Bits,
)
    ensures
        sections_of(bytes, header_offset, entries, size, nameidx, bits) matches Ok(sections) ==> {
            &&& sections.len() == entries
            &&& sections.len() > 0
            &&& sections_match_file(sections, bytes, nameidx as int)
            &&& forall|i: int|
                0 <= i < entries ==> #[trigger] header_entry(
                    bytes.skip(header_offset as int),
                    size,
                    bits,
                )(i) == Ok::<SectionHeader, ElfError>(sections[i].header)
            &&& sections_have_class(sections, bits)
        },
{
    if let Ok(sections) = sections_of(bytes, header_offset, entries, size, nameidx, bits) {
        let table = bytes.skip(header_offset as int);
        let headers = section_headers_of(table, entries, size, bits)->Ok_0;
        let str_tab = payload_of(headers[nameidx as int], bytes);
        let item = section_entry(headers, bytes, str_tab);
        lemma_decode_all(entries, header_entry(table, size, bits));
        lemma_decode_all(entries, item);
        assert forall|i: int| 0 <= i < entries implies {
            &&& (#[trigger] sections[i]).header == headers[i]
            &&& sections[i].data == payload_of(headers[i], bytes)
            &&& sections[i].data.len() == headers[i].sh_size.value()
            &&& name_at(str_tab, headers[i].sh_name as int) == Ok::<Seq<char>, ElfError>(
                sections[i].name,
            )
        } by {
            assert(item(i) == Ok::<SectionView, ElfError>(sections[i]));
            assert(item(i) == section_of(headers[i], bytes, str_tab));
        }
        assert(sections[nameidx as int].data == str_tab);
        assert(sections_match_file(sections, bytes, nameidx as int));
        assert forall|i: int| 0 <= i < entries implies #[trigger] header_entry(table, size, bits)(
            i,
        ) == Ok::<SectionHeader, ElfError>(sections[i].header) by {
            assert(header_entry(table, size, bits)(i) == Ok::<SectionHeader, ElfError>(headers[i]));
        }
        assert forall|i: int| 0 <= i < entries implies (#[trigger] sections[i]).header.has_class(
            bits,
        ) by {
            assert(header_entry(table, size, bits)(i) == Ok::<SectionHeader, ElfError>(headers[i]));
            lemma_section_header_class(
                table.subrange(entry_start(i, size), entry_start(i, size) + size),
                bits,
            );
        }
    }
}

/// Decodes the section header table of the file `bytes` and builds every
/// section, in the order of the table.
pub fn read_sections(
    bytes: &[u8],
    header_offset: usize,
    entries: u16,
    size: u16,
    nameidx: usize,
    bits: &Bits,
) -> (r: Result<Vec<Section>, ElfError>)
    ensures
        views_of(r) == sections_of(
            bytes@,
            header_offset as nat,
            entries as nat,
            size as nat,
            nameidx as nat,
            *bits,
        ),
        r matches Ok(v) ==> v@.len() == entries && sections_match_file(
            v@.map_values(|x: Section| x@),
            bytes@,
            nameidx as int,
        ),
        r matches Ok(v) ==> sections_have_class(v@.map_values(|x: Section| x@), *bits),
{
    proof {
        lemma_sections_of(
            bytes@,
            header_offset as nat,
            entries as nat,
            size as nat,
            nameidx as nat,
            *bits,
        );
    }
    let ghost whole = sections_of(
        bytes@,
        header_offset as nat,
        entries as nat,
        size as nat,
        nameidx as nat,
        *bits,
    );
    if header_offset > bytes.len() {
        return Err(ElfError::OutOfBounds);
    }
    let table = &bytes[header_offset..bytes.len()];
    assert(table@ == bytes@.skip(header_offset as int));
    let headers = match read_section_headers(table, entries, size, bits) {
        Ok(h) => h,
        Err(e) => {
            return Err(e);
        },
    };
    if nameidx >= headers.len() {
        return Err(ElfError::BadSectionIndex(nameidx));
    }
    let shstrtab_header = &headers[nameidx];
    let shstrtab = match payload(bytes, &shstrtab_header.sh_offset, &shstrtab_header.sh_size) {
        Some(s) => s,
        None => {
            return Err(ElfError::OutOfBounds);
        },
    };
    let ghost item = section_entry(headers@, bytes@, shstrtab@);
    let mut sections: Vec<Section> = Vec::new();
    let mut i: usize = 0;
    assert(sections@.map_values(|x: Section| x@) =~= Seq::empty());
    assert(whole == decode_all(entries as nat, item));
    while i < headers.len()
        invariant
            i <= headers@.len(),
            headers@.len() == entries,
            nameidx < entries,
            whole == decode_all(entries as nat, item),
            whole == sections_of(
                bytes@,
                header_offset as nat,
                entries as nat,
                size as nat,
                nameidx as nat,
                *bits,
            ),
            item == section_entry(headers@, bytes@, shstrtab@),
            decode_all(i as nat, item) == Ok::<Seq<SectionView>, ElfError>(
                sections@.map_values(|x: Section| x@),
            ),
            sections@.len() == i,
        decreases headers@.len() - i,
    {
        match make_section(headers[i], bytes, shstrtab) {
            Ok(s) => {
                let ghost before = sections@.map_values(|x: Section| x@);
                sections.push(s);
                assert(sections@.map_values(|x: Section| x@) == before.push(s@));
            },
            Err(e) => {
                proof {
                    assert(item(i as int) == section_of(headers@[i as int], bytes@, shstrtab@));
                    lemma_decode_all_stops(entries as nat, i as nat, item);
                }
                return Err(e);
            },
        }
        i += 1;
    }
    Ok(sections)
}

} // verus!
