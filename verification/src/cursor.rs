use vstd::prelude::*;
use vstd::slice::slice_index_get;
use vstd::slice::slice_subrange;

use crate::error::DecodeError;

verus! {

/// Sequential byte reader over an immutable message buffer.
///
/// Every read is bounds-checked here, so every out-of-bounds failure of the
/// decoder funnels through this one component.
pub struct Buffer<'a> {
    /// Position of the next byte to read.
    pub next_index: usize,
    /// The whole message, as received.
    pub buffer: &'a [u8],
}

impl<'a> Buffer<'a> {
    /// A cursor standing at the start of `buf`.
    pub fn new(buf: &'a [u8]) -> (b: Buffer<'a>)
        ensures
            b.buffer@ == buf@,
            b.next_index == 0,
    {
        Buffer { next_index: 0, buffer: buf }
    }

    /// Reads the byte at the current position and advances by one.
    pub fn next(&mut self) -> (r: Result<u8, DecodeError>)
        ensures
            final(self).buffer == old(self).buffer,
            old(self).next_index < old(self).buffer@.len() ==> {
                &&& r == Ok::<u8, DecodeError>(old(self).buffer@[old(self).next_index as int])
                &&& final(self).next_index == old(self).next_index + 1
            },
            old(self).next_index >= old(self).buffer@.len() ==> {
                &&& r == Err::<u8, DecodeError>(DecodeError::OutOfBounds)
                &&& final(self).next_index == old(self).next_index
            },
    {
        if self.next_index < self.buffer.len() {
            let b = *slice_index_get(self.buffer, self.next_index);
            self.next_index = self.next_index + 1;
            Ok(b)
        } else {
            Err(DecodeError::OutOfBounds)
        }
    }

    /// Returns a view of the next `n` bytes and advances by `n`.
    pub fn next_n(&mut self, n: usize) -> (r: Result<&'a [u8], DecodeError>)
        ensures
            final(self).buffer == old(self).buffer,
            old(self).next_index + n <= old(self).buffer@.len() ==> {
                &&& r matches Ok(s) && s@ == old(self).buffer@.subrange(
                    old(self).next_index as int,
                    old(self).next_index + n,
                )
                &&& final(self).next_index == old(self).next_index + n
            },
            old(self).next_index + n > old(self).buffer@.len() ==> {
                &&& r matches Err(e) && e == DecodeError::OutOfBounds
                &&& final(self).next_index == old(self).next_index
            },
    {
        if self.next_index <= self.buffer.len() && n <= self.buffer.len() - self.next_index {
            let s = slice_subrange(self.buffer, self.next_index, self.next_index + n);
            self.next_index = self.next_index + n;
            Ok(s)
        } else {
            Err(DecodeError::OutOfBounds)
        }
    }

    /// Returns the current position without advancing; names are cached under
    /// the offset this reports before their first byte is read.
    pub fn peek_position(&self) -> (r: usize)
        ensures
            r == self.next_index,
    {
        self.next_index
    }
}

} // verus!
