//! A byte buffer that lives in the registry.
use vstd::prelude::*;
use crate::api::{allocated, bytes_at, holds_bytes, Handle, ManagedTypeApi, ManagedValue, Store};
use crate::boxed_bytes::BoxedBytes;

verus! {

/// A byte buffer managed by the registry: the value holds the handle, the
/// registry holds the bytes.
///
/// A buffer is not `Clone`: a copy that shared the handle would change with
/// the buffer it was made from. [`ManagedBuffer::clone`] copies the content to a
/// new handle.
#[derive(Debug)]
pub struct ManagedBuffer {
    handle: Handle,
}

/// A value that can be asked at run time whether it is a managed buffer.
pub trait TryStaticCast {
    /// The value as a managed buffer, where that is its type.
    spec fn as_managed_buffer(&self) -> Option<ManagedBuffer>;

    /// The checked cast: `Some` exactly for a managed buffer.
    fn try_cast_ref(&self) -> (result: Option<&ManagedBuffer>)
        ensures
            match result {
                Some(buffer) => self.as_managed_buffer() == Some(*buffer),
                None => self.as_managed_buffer() is None,
            },
    ;
}

impl ManagedBuffer {
    /// The handle that the buffer holds.
    pub closed spec fn raw_handle(&self) -> Handle {
        self.handle
    }

    /// The handle is live in `store` and refers to bytes.
    pub open spec fn valid(&self, store: Store) -> bool {
        holds_bytes(store, self.raw_handle())
    }

    /// The buffer's content in `store`.
    pub open spec fn content(&self, store: Store) -> Seq<u8> {
        bytes_at(store, self.raw_handle())
    }

    /// `after` is `before` with a new handle, this buffer's, for `content`.
    pub open spec fn created(&self, before: Store, content: Seq<u8>, after: Store) -> bool {
        allocated(before, self.raw_handle(), ManagedValue::Bytes(content), after)
    }

    /// `after` is `before` with this buffer's content replaced by `content`.
    pub open spec fn overwritten(&self, before: Store, content: Seq<u8>, after: Store) -> bool {
        after == before.insert(self.raw_handle(), ManagedValue::Bytes(content))
    }

    /// `after` is `before` with `tail` appended to this buffer's content.
    pub open spec fn appended(&self, before: Store, tail: Seq<u8>, after: Store) -> bool {
        self.overwritten(before, self.content(before) + tail, after)
    }

    pub fn new_empty<M: ManagedTypeApi>(api: &mut M) -> (buffer: Self)
        ensures
            buffer.created(old(api)@, Seq::empty(), final(api)@),
    {
        ManagedBuffer { handle: api.mb_new_empty() }
    }

    pub fn new_from_bytes<M: ManagedTypeApi>(api: &mut M, bytes: &[u8]) -> (buffer: Self)
        ensures
            buffer.created(old(api)@, bytes@, final(api)@),
    {
        ManagedBuffer { handle: api.mb_new_from_bytes(bytes) }
    }

    /// A buffer for a handle that the registry issued earlier. The result
    /// shares the handle with every other buffer made for it.
    pub fn new_from_raw_handle(handle: Handle) -> (buffer: Self)
        ensures
            buffer.raw_handle() == handle,
    {
        ManagedBuffer { handle }
    }

    pub fn get_raw_handle(&self) -> (handle: Handle)
        ensures
            handle == self.raw_handle(),
    {
        self.handle
    }

    pub fn len<M: ManagedTypeApi>(&self, api: &M) -> (len: usize)
        requires
            self.valid(api@),
        ensures
            len == self.content(api@).len(),
    {
        api.mb_len(self.handle)
    }

    /// Replaces the whole content.
    pub fn overwrite<M: ManagedTypeApi>(&self, api: &mut M, value: &[u8])
        requires
            self.valid(old(api)@),
        ensures
            self.overwritten(old(api)@, value@, final(api)@),
    {
        api.mb_overwrite(self.handle, value);
    }

    /// Appends the content of `other`, inside the registry.
    pub fn append<M: ManagedTypeApi>(&mut self, api: &mut M, other: &ManagedBuffer)
        requires
            old(self).valid(old(api)@),
            other.valid(old(api)@),
        ensures
            *final(self) == *old(self),
            old(self).appended(old(api)@, other.content(old(api)@), final(api)@),
    {
        api.mb_append(self.handle, other.handle);
    }

    pub fn append_bytes<M: ManagedTypeApi>(&mut self, api: &mut M, slice: &[u8])
        requires
            old(self).valid(old(api)@),
        ensures
            *final(self) == *old(self),
            old(self).appended(old(api)@, slice@, final(api)@),
    {
        api.mb_append_bytes(self.handle, slice);
    }

    /// Copies the whole content into local memory.
    pub fn to_boxed_bytes<M: ManagedTypeApi>(&self, api: &M) -> (bytes: BoxedBytes)
        requires
            self.valid(api@),
        ensures
            bytes@ == self.content(api@),
    {
        api.mb_to_boxed_bytes(self.handle)
    }

    /// A buffer of its own with the same content: the copy has a new handle,
    /// and takes time in proportion to the length.
    pub fn clone<M: ManagedTypeApi>(&self, api: &mut M) -> (copy: Self)
        requires
            self.valid(old(api)@),
        ensures
            copy.created(old(api)@, self.content(old(api)@), final(api)@),
    {
        let bytes = self.to_boxed_bytes(api);
        ManagedBuffer { handle: api.mb_new_from_bytes(bytes.as_slice()) }
    }
}

impl TryStaticCast for ManagedBuffer {
    open spec fn as_managed_buffer(&self) -> Option<ManagedBuffer> {
        Some(*self)
    }

    fn try_cast_ref(&self) -> (result: Option<&ManagedBuffer>) {
        Some(self)
    }
}

impl TryStaticCast for crate::big_uint::BigUint {
    open spec fn as_managed_buffer(&self) -> Option<ManagedBuffer> {
        None
    }

    fn try_cast_ref(&self) -> (result: Option<&ManagedBuffer>) {
        None
    }
}

impl TryStaticCast for crate::big_int::BigInt {
    open spec fn as_managed_buffer(&self) -> Option<ManagedBuffer> {
        None
    }

    fn try_cast_ref(&self) -> (result: Option<&ManagedBuffer>) {
        None
    }
}

impl TryStaticCast for BoxedBytes {
    open spec fn as_managed_buffer(&self) -> Option<ManagedBuffer> {
        None
    }

    fn try_cast_ref(&self) -> (result: Option<&ManagedBuffer>) {
        None
    }
}

/// A buffer stays valid, with its content, in every store that extends the
/// one it was valid in.
pub proof fn lemma_buffer_stable(buffer: ManagedBuffer, before: Store, after: Store)
    requires
        buffer.valid(before),
        crate::api::extends(before, after),
    ensures
        buffer.valid(after),
        buffer.content(after) == buffer.content(before),
{
    assert(before.contains_key(buffer.raw_handle()));
}

/// Clone independence: after a buffer was cloned and bytes were appended to
/// the copy, the source holds what it held before, and the copy holds that
/// followed by the appended bytes.
pub proof fn lemma_clone_independence(
    source: ManagedBuffer,
    copy: ManagedBuffer,
    tail: Seq<u8>,
    before: Store,
    cloned: Store,
    after: Store,
)
    requires
        source.valid(before),
        copy.created(before, source.content(before), cloned),
        copy.appended(cloned, tail, after),
    ensures
        source.valid(after),
        source.content(after) == source.content(before),
        copy.valid(after),
        copy.content(after) == source.content(before) + tail,
{
}

/// Clone independence, the other way round: changing the source after the
/// clone leaves the copy as it was.
pub proof fn lemma_clone_keeps_copy(
    source: ManagedBuffer,
    copy: ManagedBuffer,
    content: Seq<u8>,
    before: Store,
    cloned: Store,
    after: Store,
)
    requires
        source.valid(before),
        copy.created(before, source.content(before), cloned),
        source.overwritten(cloned, content, after),
    ensures
        copy.valid(after),
        copy.content(after) == source.content(before),
        source.content(after) == content,
{
}

} // verus!
