//! A forward-only read position in a byte buffer.

use vstd::prelude::*;
use vstd::slice::slice_subrange;

verus! {

/// The bytes of a buffer that have not been read yet.
///
/// A cursor only ever moves forward: every operation leaves it on a suffix of
/// the bytes it stood on before.
pub struct Cursor<'a> {
    rest: &'a [u8],
}

impl<'a> View for Cursor<'a> {
    type V = Seq<u8>;

    /// The unread bytes, in order.
    closed spec fn view(&self) -> Seq<u8> {
        self.rest@
    }
}

impl<'a> Cursor<'a> {
    /// A cursor at the start of `data`.
    pub fn new(data: &'a [u8]) -> (cursor: Self)
        ensures
            cursor@ == data@,
    {
        Cursor { rest: data }
    }

    /// The number of unread bytes.
    pub fn remaining(&self) -> (n: usize)
        ensures
            n == self@.len(),
    {
        self.rest.len()
    }

    /// The unread bytes.
    pub fn as_slice(&self) -> (rest: &'a [u8])
        ensures
            rest@ == self@,
    {
        self.rest
    }

    /// The next byte, which stays unread.
    pub fn peek(&self) -> (byte: Option<&'a u8>)
        ensures
            byte == if self@.len() > 0 {
                Some(&self@[0])
            } else {
                None
            },
    {
        if self.rest.len() > 0 {
            Some(&self.rest[0])
        } else {
            None
        }
    }

    /// Reads the next byte. At the end of the buffer nothing changes.
    pub fn next(&mut self) -> (byte: Option<&'a u8>)
        ensures
            byte == if old(self)@.len() > 0 {
                Some(&old(self)@[0])
            } else {
                None
            },
            final(self)@ == if old(self)@.len() > 0 {
                old(self)@.skip(1)
            } else {
                old(self)@
            },
    {
        if self.rest.len() > 0 {
            let byte = &self.rest[0];
            self.rest = slice_subrange(self.rest, 1, self.rest.len());
            Some(byte)
        } else {
            None
        }
    }
}

} // verus!
