//! The file class, class-dependent words, fixed-width integers read from
//! bytes, and names looked up in a string table.

use vstd::prelude::*;
use vstd::string::StringSliceAdditionalSpecFns;
use vstd::utf8::{decode_utf8, valid_utf8, encode_utf8_decode_utf8};
use crate::bytes::{
    as_u16_le,
    as_u32_le,
    as_u64_le,
    le16,
    le16_bytes,
    le32,
    le32_bytes,
    le64,
    le64_bytes,
    lemma_le16_round_trip,
    lemma_le32_round_trip,
    lemma_le64_round_trip,
};
use crate::error::{view_of, ElfError};

verus! {

/// The file class: whether addresses, offsets and sizes take 8 or 4 bytes.
#[derive(Debug, Clone, Copy, PartialEq, Eq, Structural)]
pub enum Bits {
    B64,
    B32,
}

impl Bits {
    /// The number of bytes that a class-dependent word takes.
    pub open spec fn width(self) -> nat {
        match self {
            Bits::B64 => 8,
            Bits::B32 => 4,
        }
    }
}

/// A word whose width depends on the file class.
#[derive(Debug, Clone, Copy, PartialEq, Eq, Structural)]
pub enum VariableBits {
    U64(u64),
    U32(u32),
}

impl VariableBits {
    /// The number that the word holds, whatever its width.
    pub open spec fn value(self) -> nat {
        match self {
            VariableBits::U64(u) => u as nat,
            VariableBits::U32(u) => u as nat,
        }
    }

    /// The class that a word of this width belongs to.
    pub open spec fn bits(self) -> Bits {
        match self {
            VariableBits::U64(_) => Bits::B64,
            VariableBits::U32(_) => Bits::B32,
        }
    }

    /// The word that the bytes `s` spell: a 32-bit one from four bytes, a
    /// 64-bit one otherwise.
    pub open spec fn spec_from(s: Seq<u8>) -> VariableBits {
        if s.len() == 4 {
            VariableBits::U32(le32(s) as u32)
        } else {
            VariableBits::U64(le64(s) as u64)
        }
    }

    /// The word as a platform index. A value that the platform's `usize`
    /// cannot hold is cut down to its low bits.
    pub fn usize(&self) -> (r: usize)
        ensures
            self.value() <= usize::MAX ==> r == self.value(),
            r == match *self {
                VariableBits::U64(u) => u as usize,
                VariableBits::U32(u) => u as usize,
            },
    {
        match *self {
            VariableBits::U64(u) => #[verifier::truncate] (u as usize),
            VariableBits::U32(u) => u as usize,
        }
    }

    /// The word as a 64-bit number.
    pub fn as_u64(&self) -> (r: u64)
        ensures
            r == self.value(),
    {
        match *self {
            VariableBits::U64(u) => u,
            VariableBits::U32(u) => u as u64,
        }
    }

    /// Reads a word from exactly four or exactly eight little-endian bytes.
    pub fn from(value: &[u8]) -> (r: VariableBits)
        requires
            value@.len() == 4 || value@.len() == 8,
        ensures
            r == Self::spec_from(value@),
            r.value() == (if value@.len() == 4 { le32(value@) } else { le64(value@) }),
    {
        if value.len() == 4 {
            VariableBits::U32(as_u32_le(value))
        } else {
            VariableBits::U64(as_u64_le(value))
        }
    }
}

/// A fixed-width integer that is read from little-endian bytes.
pub trait FromBytes {
    type T;

    /// The number of bytes that one value takes.
    spec fn width() -> nat;

    /// The value that `bytes` spell.
    spec fn spec_from_bytes(bytes: Seq<u8>) -> Self::T;

    fn from_bytes(bytes: &[u8]) -> (r: Self::T)
        requires
            bytes@.len() == Self::width(),
        ensures
            r == Self::spec_from_bytes(bytes@),
    ;
}

impl FromBytes for u16 {
    type T = u16;

    open spec fn width() -> nat {
        2
    }

    open spec fn spec_from_bytes(bytes: Seq<u8>) -> u16 {
        le16(bytes) as u16
    }

    fn from_bytes(bytes: &[u8]) -> (r: u16) {
        as_u16_le(bytes)
    }
}

impl FromBytes for u32 {
    type T = u32;

    open spec fn width() -> nat {
        4
    }

    open spec fn spec_from_bytes(bytes: Seq<u8>) -> u32 {
        le32(bytes) as u32
    }

    fn from_bytes(bytes: &[u8]) -> (r: u32) {
        as_u32_le(bytes)
    }
}

impl FromBytes for u64 {
    type T = u64;

    open spec fn width() -> nat {
        8
    }

    open spec fn spec_from_bytes(bytes: Seq<u8>) -> u64 {
        le64(bytes) as u64
    }

    fn from_bytes(bytes: &[u8]) -> (r: u64) {
        as_u64_le(bytes)
    }
}

/// The signed number that the unsigned 64-bit pattern `v` stands for in
/// two's complement.
pub open spec fn twos_complement(v: nat) -> int {
    if v < 0x8000_0000_0000_0000 {
        v as int
    } else {
        v - 0x1_0000_0000_0000_0000
    }
}

impl FromBytes for i64 {
    type T = i64;

    open spec fn width() -> nat {
        8
    }

    open spec fn spec_from_bytes(bytes: Seq<u8>) -> i64 {
        twos_complement(le64(bytes)) as i64
    }

    fn from_bytes(bytes: &[u8]) -> (r: i64) {
        let v: u64 = as_u64_le(bytes);
        if v < 0x8000_0000_0000_0000 {
            v as i64
        } else {
            ((v - 0x8000_0000_0000_0000) as i64) + i64::MIN
        }
    }
}

/// The 16-bit field that starts at byte `at` of `bytes`.
pub open spec fn u16_at(bytes: Seq<u8>, at: int) -> u16 {
    <u16 as FromBytes>::spec_from_bytes(bytes.subrange(at, at + 2))
}

/// The 32-bit field that starts at byte `at` of `bytes`.
pub open spec fn u32_at(bytes: Seq<u8>, at: int) -> u32 {
    <u32 as FromBytes>::spec_from_bytes(bytes.subrange(at, at + 4))
}

/// The unsigned 64-bit field that starts at byte `at` of `bytes`.
pub open spec fn u64_at(bytes: Seq<u8>, at: int) -> u64 {
    <u64 as FromBytes>::spec_from_bytes(bytes.subrange(at, at + 8))
}

/// The signed 64-bit field that starts at byte `at` of `bytes`.
pub open spec fn i64_at(bytes: Seq<u8>, at: int) -> i64 {
    <i64 as FromBytes>::spec_from_bytes(bytes.subrange(at, at + 8))
}

/// The class-dependent word that starts at byte `at` of `bytes`.
pub open spec fn word_at(bytes: Seq<u8>, at: int, bits: Bits) -> VariableBits {
    VariableBits::spec_from(bytes.subrange(at, at + bits.width()))
}

/// The bytes that spell the word `w` in little-endian order: four for a
/// 32-bit word, eight for a 64-bit one.
pub open spec fn word_bytes(w: VariableBits) -> Seq<u8> {
    match w {
        VariableBits::U64(u) => le64_bytes(u),
        VariableBits::U32(u) => le32_bytes(u),
    }
}

/// A 16-bit field that was written at byte `at` of a buffer is read back
/// from there.
pub proof fn lemma_u16_field(bytes: Seq<u8>, at: int, v: u16)
    requires
        bytes.subrange(at, at + 2) == le16_bytes(v),
    ensures
        u16_at(bytes, at) == v,
{
    lemma_le16_round_trip(v, Seq::empty());
    assert(le16_bytes(v) + Seq::empty() =~= le16_bytes(v));
}

/// A 32-bit field that was written at byte `at` of a buffer is read back
/// from there.
pub proof fn lemma_u32_field(bytes: Seq<u8>, at: int, v: u32)
    requires
        bytes.subrange(at, at + 4) == le32_bytes(v),
    ensures
        u32_at(bytes, at) == v,
{
    lemma_le32_round_trip(v, Seq::empty());
    assert(le32_bytes(v) + Seq::empty() =~= le32_bytes(v));
}

/// A word that was written at byte `at` of a buffer is read back from
/// there in the class of its width.
pub proof fn lemma_word_field(bytes: Seq<u8>, at: int, w: VariableBits)
    requires
        bytes.subrange(at, at + w.bits().width()) == word_bytes(w),
    ensures
        word_at(bytes, at, w.bits()) == w,
{
    let none = Seq::<u8>::empty();
    match w {
        VariableBits::U64(u) => {
            lemma_le64_round_trip(u, none);
            assert(le64_bytes(u) + none =~= le64_bytes(u));
        },
        VariableBits::U32(u) => {
            lemma_le32_round_trip(u, none);
            assert(le32_bytes(u) + none =~= le32_bytes(u));
        },
    }
}

/// The error of `core::str::from_utf8`, carried through unopened.
#[verifier::external_type_specification]
#[verifier::external_body]
pub struct ExUtf8Error(core::str::Utf8Error);

/// `core::str::from_utf8` succeeds exactly on well-formed UTF-8, and the
/// string slice it then returns is made of the very bytes it was given.
pub assume_specification[ core::str::from_utf8 ](v: &[u8]) -> (r: Result<
    &str,
    core::str::Utf8Error,
>)
    ensures
        r is Ok <==> valid_utf8(v@),
        r matches Ok(s) ==> s.spec_bytes() == v@,
;

/// Whether the name that starts at `offset` ends at `end`: `end` is the
/// place of the first zero byte at or after `offset`.
pub open spec fn name_ends_at(str_tab: Seq<u8>, offset: int, end: int) -> bool {
    &&& 0 <= offset <= end < str_tab.len()
    &&& str_tab[end] == 0
    &&& forall|j: int| offset <= j < end ==> str_tab[j] != 0
}

/// The bytes of the name that starts at `offset`, without the zero byte
/// that ends it.
pub open spec fn name_bytes(str_tab: Seq<u8>, offset: int) -> Seq<u8> {
    str_tab.subrange(offset, choose|end: int| name_ends_at(str_tab, offset, end))
}

/// The name that starts at `offset` in a string table: the text before the
/// first zero byte. A start beyond the table or a name that no zero byte
/// ends is out of bounds; bytes that are not UTF-8 are no name.
pub open spec fn name_at(str_tab: Seq<u8>, offset: int) -> Result<Seq<char>, ElfError> {
    if !exists|end: int| name_ends_at(str_tab, offset, end) {
        Err(ElfError::OutOfBounds)
    } else if !valid_utf8(name_bytes(str_tab, offset)) {
        Err(ElfError::InvalidName)
    } else {
        Ok(decode_utf8(name_bytes(str_tab, offset)))
    }
}

/// A name has one end: where it ends at `end`, its bytes are those from
/// its start up to `end`.
pub proof fn lemma_name_end(str_tab: Seq<u8>, offset: int, end: int)
    requires
        name_ends_at(str_tab, offset, end),
    ensures
        name_bytes(str_tab, offset) == str_tab.subrange(offset, end),
{
    let other = choose|e: int| name_ends_at(str_tab, offset, e);
    if other < end {
        assert(str_tab[other] != 0);
    } else if end < other {
        assert(str_tab[end] != 0);
    }
}

/// Resolves the null-terminated name that starts at `offset` in `str_tab`.
pub fn get_name(offset: usize, str_tab: &[u8]) -> (r: Result<String, ElfError>)
    ensures
        view_of(r) == name_at(str_tab@, offset as int),
{
    if offset > str_tab.len() {
        return Err(ElfError::OutOfBounds);
    }
    let mut end: usize = offset;
    while end < str_tab.len() && str_tab[end] != 0
        invariant
            offset <= end <= str_tab@.len(),
            forall|j: int| offset <= j < end ==> str_tab@[j] != 0u8,
        decreases str_tab@.len() - end,
    {
        end += 1;
    }
    if end == str_tab.len() {
        return Err(ElfError::OutOfBounds);
    }
    proof {
        assert(name_ends_at(str_tab@, offset as int, end as int));
        lemma_name_end(str_tab@, offset as int, end as int);
    }
    let raw = &str_tab[offset..end];
    match core::str::from_utf8(raw) {
        Ok(s) => {
            proof {
                encode_utf8_decode_utf8(s@);
            }
            Ok(s.to_owned())
        },
        Err(_) => Err(ElfError::InvalidName),
    }
}

} // verus!
