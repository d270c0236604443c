//! A forward-only cursor over a byte buffer.

use vstd::prelude::*;
use crate::types::{Bits, VariableBits};

verus! {

/// A cursor that hands out the bytes of a buffer from front to back, in the
/// width that the file class asks for. It borrows the buffer, never copies
/// it and never steps back.
pub struct ByteReader<'data> {
    data: &'data [u8],
    offset: usize,
    bits: &'data Bits,
}

impl<'data> View for ByteReader<'data> {
    type V = Seq<u8>;

    /// What is left to read.
    open spec fn view(&self) -> Seq<u8> {
        self.source().skip(self.position() as int)
    }
}

impl<'data> ByteReader<'data> {
    #[verifier::type_invariant]
    spec fn in_range(self) -> bool {
        self.offset <= self.data@.len()
    }

    /// The whole buffer that the cursor runs over.
    pub closed spec fn source(&self) -> Seq<u8> {
        self.data@
    }

    /// How many bytes have been read.
    pub closed spec fn position(&self) -> nat {
        self.offset as nat
    }

    /// The file class that the cursor reads words in.
    pub closed spec fn bits(&self) -> Bits {
        *self.bits
    }

    /// The `n` bytes that the cursor reads next.
    pub open spec fn next(&self, n: int) -> Seq<u8> {
        self.source().subrange(self.position() as int, self.position() + n)
    }

    /// The cursor `old` after `n` more bytes were read.
    pub open spec fn advanced(&self, old: &Self, n: nat) -> bool {
        &&& self.source() == old.source()
        &&& self.bits() == old.bits()
        &&& self.position() == old.position() + n
    }

    /// A cursor at the front of `d`.
    pub fn new(d: &'data [u8], bits: &'data Bits) -> (r: Self)
        ensures
            r.source() == d@,
            r.position() == 0,
            r.bits() == *bits,
    {
        Self { data: d, offset: 0, bits }
    }

    /// How many bytes are left to read.
    pub fn remaining(&self) -> (n: usize)
        ensures
            n == self.source().len() - self.position(),
            self.position() <= self.source().len(),
    {
        proof {
            use_type_invariant(self);
        }
        self.data.len() - self.offset
    }

    /// Reads one word of the file class: four bytes in 32-bit mode, eight in
    /// 64-bit mode.
    pub fn word(&mut self) -> (r: VariableBits)
        requires
            old(self).position() + old(self).bits().width() <= old(self).source().len(),
        ensures
            r == VariableBits::spec_from(old(self).next(old(self).bits().width() as int)),
            r.bits() == old(self).bits(),
            final(self).advanced(old(self), old(self).bits().width()),
    {
        proof {
            use_type_invariant(&*self);
            vstd::slice::axiom_spec_len(self.data);
        }
        let start = self.offset;
        match self.bits {
            Bits::B32 => {
                self.offset += 4;
            },
            Bits::B64 => {
                self.offset += 8;
            },
        }
        let end = self.offset;
        let data = match self.bits {
            Bits::B32 => &self.data[start..end],
            Bits::B64 => &self.data[start..end],
        };
        VariableBits::from(data)
    }

    /// Reads the next `bytes` bytes and hands them to `convert`.
    pub fn read<T, F>(&mut self, bytes: usize, convert: F) -> (r: T) where F: Fn(&'data [u8]) -> T
        requires
            old(self).position() + bytes <= old(self).source().len(),
            forall|s: &'data [u8]|
                s@ == old(self).next(bytes as int) ==> call_requires(convert, (s,)),
        ensures
            exists|s: &'data [u8]|
                s@ == old(self).next(bytes as int) && call_ensures(convert, (s,), r),
            final(self).advanced(old(self), bytes as nat),
    {
        proof {
            use_type_invariant(&*self);
            vstd::slice::axiom_spec_len(self.data);
        }
        let data = &self.data[self.offset..self.offset + bytes];
        self.offset += bytes;
        convert(data)
    }

    /// Reads the next `bytes` bytes as they are.
    pub fn read_raw(&mut self, bytes: usize) -> (r: &'data [u8])
        requires
            old(self).position() + bytes <= old(self).source().len(),
        ensures
            r@ == old(self).next(bytes as int),
            final(self).advanced(old(self), bytes as nat),
    {
        proof {
            use_type_invariant(&*self);
            vstd::slice::axiom_spec_len(self.data);
        }
        let data = &self.data[self.offset..self.offset + bytes];
        self.offset += bytes;
        data
    }

    /// Reads one byte.
    pub fn byte(&mut self) -> (r: u8)
        requires
            old(self).position() < old(self).source().len(),
        ensures
            r == old(self).source()[old(self).position() as int],
            final(self).advanced(old(self), 1),
    {
        proof {
            use_type_invariant(&*self);
            vstd::slice::axiom_spec_len(self.data);
        }
        let data = &self.data[self.offset];
        self.offset += 1;
        *data
    }
}

} // verus!
