//! Where encoded bytes go.
use vstd::prelude::*;
use crate::api::{agree_outside, Handle, ManagedTypeApi, Store};
use crate::managed_buffer::{ManagedBuffer, TryStaticCast};

verus! {

/// An output of the codec: something that bytes can be appended to.
///
/// An output may live in the registry. Then it owns handles there, and
/// writing to it changes the registry, at those handles only.
pub trait NestedEncodeOutput {
    /// The output can be written to in `store`.
    spec fn ready(&self, store: Store) -> bool;

    /// What has been written so far.
    spec fn written(&self, store: Store) -> Seq<u8>;

    /// The handles whose content writing changes.
    spec fn owned(&self) -> Set<Handle>;

    /// Appends `bytes`.
    fn write<M: ManagedTypeApi>(&mut self, api: &mut M, bytes: &[u8])
        requires
            old(self).ready(old(api)@),
        ensures
            final(self).ready(final(api)@),
            final(self).owned() == old(self).owned(),
            agree_outside(old(api)@, final(api)@, old(self).owned()),
            final(self).written(final(api)@) == old(self).written(old(api)@) + bytes@,
    ;

    /// The fast path: where the output can take `value` as it is, without
    /// its bytes passing through local memory, it appends the value's
    /// content and returns `true`. Otherwise it does nothing and returns
    /// `false`, and the caller writes the bytes.
    fn push_specialized<M: ManagedTypeApi, T: TryStaticCast>(
        &mut self,
        api: &mut M,
        value: &T,
    ) -> (handled: bool)
        requires
            old(self).ready(old(api)@),
            value.as_managed_buffer() matches Some(buffer) ==> buffer.valid(old(api)@),
        ensures
            final(self).ready(final(api)@),
            final(self).owned() == old(self).owned(),
            agree_outside(old(api)@, final(api)@, old(self).owned()),
            handled ==> value.as_managed_buffer() is Some,
            final(self).written(final(api)@) == old(self).written(old(api)@) + (if handled {
                value.as_managed_buffer()->0.content(old(api)@)
            } else {
                Seq::empty()
            }),
    ;
}

/// A vector in local memory takes bytes only.
impl NestedEncodeOutput for Vec<u8> {
    open spec fn ready(&self, store: Store) -> bool {
        true
    }

    open spec fn written(&self, store: Store) -> Seq<u8> {
        self@
    }

    open spec fn owned(&self) -> Set<Handle> {
        Set::empty()
    }

    fn write<M: ManagedTypeApi>(&mut self, api: &mut M, bytes: &[u8]) {
        self.extend_from_slice(bytes);
    }

    /// A vector takes no value as it is: the result is `false`, and neither
    /// the vector nor the registry changes.
    fn push_specialized<M: ManagedTypeApi, T: TryStaticCast>(
        &mut self,
        api: &mut M,
        value: &T,
    ) -> (handled: bool)
        ensures
            !handled,
            final(self)@ == old(self)@,
            final(api)@ == old(api)@,
    {
        assert(self@ + Seq::<u8>::empty() =~= self@);
        false
    }
}

/// A managed buffer takes bytes, and takes another managed buffer inside the
/// registry.
impl NestedEncodeOutput for ManagedBuffer {
    open spec fn ready(&self, store: Store) -> bool {
        self.valid(store)
    }

    open spec fn written(&self, store: Store) -> Seq<u8> {
        self.content(store)
    }

    open spec fn owned(&self) -> Set<Handle> {
        set![self.raw_handle()]
    }

    fn write<M: ManagedTypeApi>(&mut self, api: &mut M, bytes: &[u8])
        ensures
            *final(self) == *old(self),
            old(self).appended(old(api)@, bytes@, final(api)@),
    {
        self.append_bytes(api, bytes);
        assert(old(api)@.dom() =~= api@.dom());
    }

    fn push_specialized<M: ManagedTypeApi, T: TryStaticCast>(
        &mut self,
        api: &mut M,
        value: &T,
    ) -> (handled: bool)
        ensures
            *final(self) == *old(self),
            handled == value.as_managed_buffer() is Some,
            match value.as_managed_buffer() {
                Some(buffer) => old(self).appended(
                    old(api)@,
                    buffer.content(old(api)@),
                    final(api)@,
                ),
                None => final(api)@ == old(api)@,
            },
    {
        if let Some(managed_buffer) = value.try_cast_ref() {
            self.append(api, managed_buffer);
            assert(old(api)@.dom() =~= api@.dom());
            true
        } else {
            assert(self.content(api@) + Seq::<u8>::empty() =~= self.content(api@));
            false
        }
    }
}

} // verus!
