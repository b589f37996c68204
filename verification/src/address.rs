//! Fixed 32-byte words of the protocol: account addresses and storage keys.
use vstd::prelude::*;

verus! {

/// An account address: 32 bytes.
#[derive(Clone, Copy, Debug)]
pub struct Address {
    pub bytes: [u8; 32],
}

/// The key of a storage cell: 32 bytes.
#[derive(Clone, Copy, Debug)]
pub struct StorageKey {
    pub bytes: [u8; 32],
}

impl Address {
    pub fn as_bytes(&self) -> (bytes: &[u8; 32])
        ensures
            *bytes == self.bytes,
    {
        &self.bytes
    }
}

impl From<[u8; 32]> for Address {
    fn from(bytes: [u8; 32]) -> (address: Self) {
        let address = Address { bytes };
        assert(address == Address { bytes });
        address
    }
}

impl vstd::std_specs::convert::FromSpecImpl<[u8; 32]> for Address {
    open spec fn obeys_from_spec() -> bool {
        true
    }

    open spec fn from_spec(bytes: [u8; 32]) -> Self {
        Address { bytes }
    }
}

impl StorageKey {
    pub fn as_bytes(&self) -> (bytes: &[u8; 32])
        ensures
            *bytes == self.bytes,
    {
        &self.bytes
    }
}

impl From<[u8; 32]> for StorageKey {
    fn from(bytes: [u8; 32]) -> (key: Self) {
        let key = StorageKey { bytes };
        assert(key == StorageKey { bytes });
        key
    }
}

impl vstd::std_specs::convert::FromSpecImpl<[u8; 32]> for StorageKey {
    open spec fn obeys_from_spec() -> bool {
        true
    }

    open spec fn from_spec(bytes: [u8; 32]) -> Self {
        StorageKey { bytes }
    }
}

} // verus!
