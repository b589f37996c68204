//! The binary codec: how values cross the call boundary as bytes.
//!
//! There are two forms. The nested form is for a value inside a larger one:
//! it says where it ends, so a value of variable length starts with its
//! length in four bytes. The top-level form is for a value that is the whole
//! payload: its length is that of the payload, and no prefix is written.
//! Neither form holds type tags: the reader knows what it reads.
pub mod arrays;
pub mod bytes;
pub mod composite;
pub mod error;
pub mod format;
pub mod input;
pub mod integers;
pub mod numbers;
pub mod output;
pub mod sequence;
