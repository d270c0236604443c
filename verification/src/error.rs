//! The ways in which a decode can fail.

use vstd::prelude::*;

verus! {

/// Why a buffer could not be decoded. Every failure ends the whole decode:
/// no partial result is ever handed out.
#[derive(Debug, Clone, Copy, PartialEq, Eq, Structural)]
pub enum ElfError {
    /// The first four bytes are not `7F 45 4C 46`.
    NotElf,
    /// The class byte is neither 1 (32-bit) nor 2 (64-bit).
    BadClass(u8),
    /// The byte-order byte is neither 1 (little) nor 2 (big).
    BadByteOrder(u8),
    /// The identification version byte is not 1.
    BadVersion(u8),
    /// The OS/ABI byte is neither 0 (System V) nor 3 (Linux).
    UnsupportedPlatform(u8),
    /// The object type is not one of none, relocatable, executable, shared, core.
    BadObjectType(u16),
    /// The instruction set is not x86-64; the raw identifier is kept.
    UnsupportedMachine(u16),
    /// A section type outside the known table.
    UnknownSectionType(u32),
    /// A symbol binding nibble outside the known table.
    UnknownBinding(u8),
    /// A symbol type nibble outside the known table.
    UnknownSymbolType(u8),
    /// A relocation type outside the known table.
    UnknownRelocationType(u32),
    /// No section is named `.symtab`.
    MissingSymtab,
    /// No section is named `.strtab`.
    MissingStrtab,
    /// A read, a payload, an entry or a name runs past the end of its buffer.
    OutOfBounds,
    /// The bytes of a name are not valid text.
    InvalidName,
    /// A table whose entries are to be counted declares an entry size of zero.
    ZeroEntrySize,
    /// A section index that no section has.
    BadSectionIndex(usize),
    /// A relocation names a symbol index that no symbol has.
    BadSymbolIndex(u32),
}

impl ElfError {
    /// The text of [`ElfError::message`].
    pub open spec fn spec_message(self) -> Seq<char> {
        match self {
            ElfError::NotElf => "not an ELF file"@,
            ElfError::BadClass(_) => "unrecognized file class"@,
            ElfError::BadByteOrder(_) => "unrecognized byte order"@,
            ElfError::BadVersion(_) => "ELF version is not 1"@,
            ElfError::UnsupportedPlatform(_) => "only Linux supported"@,
            ElfError::BadObjectType(_) => "unrecognized object type"@,
            ElfError::UnsupportedMachine(_) => "unknown instruction set"@,
            ElfError::UnknownSectionType(_) => "unknown section type"@,
            ElfError::UnknownBinding(_) => "no binding info"@,
            ElfError::UnknownSymbolType(_) => "no type info"@,
            ElfError::UnknownRelocationType(_) => "unknown relocation type"@,
            ElfError::MissingSymtab => "no .symtab"@,
            ElfError::MissingStrtab => "no .strtab"@,
            ElfError::OutOfBounds => "read past the end of the buffer"@,
            ElfError::InvalidName => "name is not valid text"@,
            ElfError::ZeroEntrySize => "table entry size is zero"@,
            ElfError::BadSectionIndex(_) => "section index out of range"@,
            ElfError::BadSymbolIndex(_) => "symbol index out of range"@,
        }
    }

    /// A short description of the failure, for the caller to show.
    pub fn message(&self) -> (r: &'static str)
        ensures
            r@ == self.spec_message(),
    {
        match self {
            ElfError::NotElf => "not an ELF file",
            ElfError::BadClass(_) => "unrecognized file class",
            ElfError::BadByteOrder(_) => "unrecognized byte order",
            ElfError::BadVersion(_) => "ELF version is not 1",
            ElfError::UnsupportedPlatform(_) => "only Linux supported",
            ElfError::BadObjectType(_) => "unrecognized object type",
            ElfError::UnsupportedMachine(_) => "unknown instruction set",
            ElfError::UnknownSectionType(_) => "unknown section type",
            ElfError::UnknownBinding(_) => "no binding info",
            ElfError::UnknownSymbolType(_) => "no type info",
            ElfError::UnknownRelocationType(_) => "unknown relocation type",
            ElfError::MissingSymtab => "no .symtab",
            ElfError::MissingStrtab => "no .strtab",
            ElfError::OutOfBounds => "read past the end of the buffer",
            ElfError::InvalidName => "name is not valid text",
            ElfError::ZeroEntrySize => "table entry size is zero",
            ElfError::BadSectionIndex(_) => "section index out of range",
            ElfError::BadSymbolIndex(_) => "symbol index out of range",
        }
    }
}

/// A decoder's result with the value replaced by its view.
pub open spec fn view_of<T: View>(r: Result<T, ElfError>) -> Result<T::V, ElfError> {
    match r {
        Ok(v) => Ok(v@),
        Err(e) => Err(e),
    }
}

/// A decoder's list of results with each item replaced by its view.
pub open spec fn views_of<T: View>(r: Result<Vec<T>, ElfError>) -> Result<Seq<T::V>, ElfError> {
    match r {
        Ok(v) => Ok(v@.map_values(|x: T| x@)),
        Err(e) => Err(e),
    }
}

/// Items `0` to `n - 1` decoded in order: all of them where every one
/// decodes, else the error of the first that does not.
pub open spec fn decode_all<T>(n: nat, item: spec_fn(int) -> Result<T, ElfError>) -> Result<
    Seq<T>,
    ElfError,
>
    decreases n,
{
    if n == 0 {
        Ok(Seq::empty())
    } else {
        match decode_all((n - 1) as nat, item) {
            Err(e) => Err(e),
            Ok(s) => match item(n - 1) {
                Err(e) => Err(e),
                Ok(v) => Ok(s.push(v)),
            },
        }
    }
}

/// Item `i` is the first to fail, and fails with `e`.
pub open spec fn fails_first_at<T>(
    item: spec_fn(int) -> Result<T, ElfError>,
    i: int,
    e: ElfError,
) -> bool {
    &&& item(i) == Err::<T, ElfError>(e)
    &&& forall|j: int| 0 <= j < i ==> (#[trigger] item(j)) is Ok
}

/// What `decode_all` returns, item by item: on success one value for each
/// index, on failure the error of the lowest index that fails.
pub proof fn lemma_decode_all<T>(n: nat, item: spec_fn(int) -> Result<T, ElfError>)
    ensures
        match decode_all(n, item) {
            Ok(s) => s.len() == n && forall|i: int|
                0 <= i < n ==> #[trigger] item(i) == Ok::<T, ElfError>(s[i]),
            Err(e) => exists|i: int| 0 <= i < n && fails_first_at(item, i, e),
        },
    decreases n,
{
    if n > 0 {
        lemma_decode_all((n - 1) as nat, item);
        match decode_all((n - 1) as nat, item) {
            Err(e) => {
                let i = choose|i: int| 0 <= i < n - 1 && fails_first_at(item, i, e);
                assert(0 <= i < n && fails_first_at(item, i, e));
            },
            Ok(s) => {
                match item(n - 1) {
                    Err(e) => {
                        assert(fails_first_at(item, n - 1, e));
                    },
                    Ok(v) => {
                        let t = s.push(v);
                        assert forall|i: int| 0 <= i < n implies #[trigger] item(i) == Ok::<
                            T,
                            ElfError,
                        >(t[i]) by {
                            if i < n - 1 {
                                assert(item(i) == Ok::<T, ElfError>(s[i]));
                            }
                        }
                    },
                }
            },
        }
    }
}

/// Once an item fails after a run of successes, every longer run fails
/// with that item's error.
pub proof fn lemma_decode_all_stops<T>(
    n: nat,
    i: nat,
    item: spec_fn(int) -> Result<T, ElfError>,
)
    requires
        i < n,
        decode_all(i, item) is Ok,
        item(i as int) is Err,
    ensures
        decode_all(n, item) == Err::<Seq<T>, ElfError>(item(i as int)->Err_0),
    decreases n,
{
    if n > i + 1 {
        lemma_decode_all_stops((n - 1) as nat, i, item);
    }
}

} // verus!
