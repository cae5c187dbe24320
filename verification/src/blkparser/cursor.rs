//! A bounds-checked, non-owning read position over a byte buffer.

use vstd::prelude::*;
use vstd::slice::slice_subrange;

use crate::parser::ReadError;

verus! {

/// A read position into a borrowed, immutable byte buffer.
///
/// Reading never goes out of bounds and never panics: a read past the end
/// fails with a [`ReadError`] and leaves the cursor untouched.
#[derive(Debug)]
pub struct Cursor<'a> {
    data: &'a [u8],
    pos: usize,
}

impl<'a> Cursor<'a> {
    /// The whole underlying buffer, independent of the read position.
    pub closed spec fn all_bytes(self) -> Seq<u8> {
        self.data@
    }

    /// The current read position within the buffer.
    pub closed spec fn at(self) -> int {
        self.pos as int
    }

    /// The bytes not yet consumed.
    pub open spec fn remaining(self) -> Seq<u8> {
        self.all_bytes().skip(self.at())
    }

    /// The read position never passes the end of the buffer.
    pub open spec fn wf(self) -> bool {
        0 <= self.at() <= self.all_bytes().len()
    }

    /// A fresh cursor over `data`, positioned at its start.
    pub fn new(data: &'a [u8]) -> (r: Cursor<'a>)
        ensures
            r.wf(),
            r.all_bytes() == data@,
            r.at() == 0,
    {
        Cursor { data, pos: 0 }
    }

    /// The length of the whole underlying buffer.
    pub fn size(&self) -> (r: usize)
        ensures
            r == self.all_bytes().len(),
    {
        self.data.len()
    }

    /// The whole underlying buffer.
    pub fn get_ref(&self) -> (r: &'a [u8])
        ensures
            r@ == self.all_bytes(),
    {
        self.data
    }

    /// The current read position.
    pub fn position(&self) -> (r: usize)
        ensures
            r == self.at(),
    {
        self.pos
    }

    /// How many bytes are left to read.
    pub fn remaining_len(&self) -> (r: usize)
        requires
            self.wf(),
        ensures
            r == self.remaining().len(),
    {
        self.data.len() - self.pos
    }

    /// Read the next `bytes` bytes and advance past them; if fewer remain,
    /// fail without any observable partial read.
    pub fn read_bytes(&mut self, bytes: usize) -> (r: Result<&'a [u8], ReadError>)
        requires
            old(self).wf(),
        ensures
            final(self).wf(),
            final(self).all_bytes() == old(self).all_bytes(),
            bytes <= old(self).remaining().len() ==> ({
                &&& r matches Ok(s)
                &&& s@ == old(self).remaining().take(bytes as int)
                &&& final(self).at() == old(self).at() + bytes
            }),
            bytes > old(self).remaining().len() ==> ({
                &&& r matches Err(e)
                &&& e == (ReadError {
                    requested: bytes as u64,
                    available: old(self).remaining().len() as u64,
                })
                &&& *final(self) == *old(self)
            }),
    {
        let left = self.data.len() - self.pos;
        if bytes > left {
            return Err(ReadError { requested: bytes as u64, available: left as u64 });
        }
        let slice = slice_subrange(self.data, self.pos, self.pos + bytes);
        self.pos = self.pos + bytes;
        assert(slice@ =~= old(self).remaining().take(bytes as int));
        Ok(slice)
    }

    /// Carve the next `bytes` bytes off as an independent cursor scoped to
    /// exactly that region, advancing this cursor past it.
    pub fn bytes_to_cursor(&mut self, bytes: usize) -> (r: Result<Cursor<'a>, ReadError>)
        requires
            old(self).wf(),
        ensures
            final(self).wf(),
            final(self).all_bytes() == old(self).all_bytes(),
            bytes <= old(self).remaining().len() ==> ({
                &&& r matches Ok(c)
                &&& c.wf()
                &&& c.at() == 0
                &&& c.all_bytes() == old(self).remaining().take(bytes as int)
                &&& final(self).at() == old(self).at() + bytes
            }),
            bytes > old(self).remaining().len() ==> ({
                &&& r matches Err(e)
                &&& e == (ReadError {
                    requested: bytes as u64,
                    available: old(self).remaining().len() as u64,
                })
                &&& *final(self) == *old(self)
            }),
    {
        match self.read_bytes(bytes) {
            Ok(slice) => Ok(Cursor::new(slice)),
            Err(e) => Err(e),
        }
    }
}

} // verus!
