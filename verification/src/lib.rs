//! Managed values behind a handle registry, and the binary codec that moves
//! values across the call boundary.
pub mod address;
pub mod api;
pub mod arena;
pub mod big_int;
pub mod big_num_api;
pub mod big_uint;
pub mod big_uint_cmp;
pub mod boxed_bytes;
pub mod codec;
pub mod contract;
pub mod digits;
pub mod magnitude;
pub mod managed_buffer;
pub mod method;
