//! Where bytes to decode come from.
use vstd::prelude::*;
use vstd::slice::{slice_subrange, slice_to_vec};
use crate::codec::error::DecodeError;

verus! {

/// An input of the codec: bytes that are read from the front.
pub trait NestedDecodeInput {
    /// The bytes not read yet.
    spec fn remaining(&self) -> Seq<u8>;

    fn remaining_len(&self) -> (len: usize)
        ensures
            len == self.remaining().len(),
    ;

    /// Reads the next `count` bytes. Where fewer are left, nothing is read
    /// and the error is `InputTooShort`.
    fn read_bytes(&mut self, count: usize) -> (result: Result<Vec<u8>, DecodeError>)
        ensures
            match result {
                Ok(bytes) => {
                    &&& count <= old(self).remaining().len()
                    &&& bytes@ == old(self).remaining().take(count as int)
                    &&& final(self).remaining() == old(self).remaining().skip(count as int)
                },
                Err(error) => {
                    &&& count > old(self).remaining().len()
                    &&& error == DecodeError::InputTooShort
                    &&& final(self).remaining() == old(self).remaining()
                },
            },
    ;
}

/// An input over bytes in local memory.
pub struct SliceInput<'a> {
    data: &'a [u8],
    position: usize,
}

impl<'a> SliceInput<'a> {
    /// An input positioned at the front of `data`.
    pub fn new(data: &'a [u8]) -> (input: Self)
        ensures
            input.remaining() == data@,
    {
        let input = SliceInput { data, position: 0 };
        assert(data@.skip(0) =~= data@);
        input
    }

    /// The position, which never passes the end.
    spec fn start(&self) -> int {
        if self.position <= self.data@.len() {
            self.position as int
        } else {
            self.data@.len() as int
        }
    }

    fn clamped(&self) -> (start: usize)
        ensures
            start == self.start(),
    {
        if self.position <= self.data.len() {
            self.position
        } else {
            self.data.len()
        }
    }
}

impl<'a> NestedDecodeInput for SliceInput<'a> {
    closed spec fn remaining(&self) -> Seq<u8> {
        self.data@.skip(self.start())
    }

    fn remaining_len(&self) -> (len: usize) {
        self.data.len() - self.clamped()
    }

    fn read_bytes(&mut self, count: usize) -> (result: Result<Vec<u8>, DecodeError>) {
        let start = self.clamped();
        if count > self.data.len() - start {
            return Err(DecodeError::InputTooShort);
        }
        let end = start + count;
        let bytes = slice_to_vec(slice_subrange(self.data, start, end));
        self.position = end;
        proof {
            assert(bytes@ =~= old(self).remaining().take(count as int));
            assert(self.remaining() =~= old(self).remaining().skip(count as int));
        }
        Ok(bytes)
    }
}

} // verus!
