//! A byte sequence owned in local memory.
use vstd::prelude::*;
use vstd::slice::slice_to_vec;

verus! {

/// An immutable byte sequence held in local memory: what a managed value
/// becomes once it is copied out of the registry.
#[derive(Debug)]
pub struct BoxedBytes {
    bytes: Vec<u8>,
}

impl View for BoxedBytes {
    type V = Seq<u8>;

    closed spec fn view(&self) -> Seq<u8> {
        self.bytes@
    }
}

impl BoxedBytes {
    pub fn empty() -> (result: Self)
        ensures
            result@ == Seq::<u8>::empty(),
    {
        BoxedBytes { bytes: Vec::new() }
    }

    pub fn from_vec(bytes: Vec<u8>) -> (result: Self)
        ensures
            result@ == bytes@,
    {
        BoxedBytes { bytes }
    }

    pub fn from_slice(bytes: &[u8]) -> (result: Self)
        ensures
            result@ == bytes@,
    {
        BoxedBytes { bytes: slice_to_vec(bytes) }
    }

    pub fn len(&self) -> (len: usize)
        ensures
            len == self@.len(),
    {
        self.bytes.len()
    }

    pub fn is_empty(&self) -> (empty: bool)
        ensures
            empty == (self@.len() == 0),
    {
        self.bytes.len() == 0
    }

    pub fn as_slice(&self) -> (slice: &[u8])
        ensures
            slice@ == self@,
    {
        self.bytes.as_slice()
    }

    pub fn into_vec(self) -> (bytes: Vec<u8>)
        ensures
            bytes@ == self@,
    {
        self.bytes
    }
}

impl Clone for BoxedBytes {
    fn clone(&self) -> (result: Self)
        ensures
            result@ == self@,
    {
        BoxedBytes { bytes: self.bytes.clone() }
    }
}

} // verus!
