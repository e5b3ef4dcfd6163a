//! The slot allocator that issues resource handles.
//!
//! Handles are the 64-bit form of `slotmap` keys. Everything in this file is
//! a statement about `slotmap` that is assumed, not proved; the rest of the
//! crate is proved against these statements.

use slotmap::{DefaultKey, Key, KeyData, SlotMap};
use vstd::prelude::*;

verus! {

/// A `slotmap::SlotMap` used for its keys alone. It is opaque to proofs:
/// what is known of one is what the functions below state.
#[verifier::external_body]
pub struct SlotAllocator {
    inner: SlotMap<DefaultKey, ()>,
}

/// The handles that are live in an allocator: for each key that
/// `SlotMap::contains_key` accepts, the integer that `KeyData::as_ffi` gives it.
pub uninterp spec fn slot_keys(a: SlotAllocator) -> Set<u64>;

/// The number of entries a slot map can hold at a time, as its documentation
/// gives it: 2^32 - 2.
pub const SLOT_LIMIT: usize = 0xffff_fffe;

/// `SlotMap::new`: an allocator with no live handle.
#[verifier::external_body]
pub(crate) fn slots_new() -> (a: SlotAllocator)
    ensures
        slot_keys(a) == Set::<u64>::empty(),
{
    SlotAllocator { inner: SlotMap::new() }
}

/// `SlotMap::insert`, followed by `Key::data` and `KeyData::as_ffi` on the key
/// it returns. The new handle was not live before the call, and is the only
/// change to the live handles. `insert` panics on a full map, which the
/// precondition leaves out.
#[verifier::external_body]
pub(crate) fn slots_insert(a: &mut SlotAllocator) -> (k: u64)
    requires
        slot_keys(*old(a)).len() < SLOT_LIMIT,
    ensures
        !slot_keys(*old(a)).contains(k),
        slot_keys(*final(a)) == slot_keys(*old(a)).insert(k),
{
    a.inner.insert(()).data().as_ffi()
}

/// `SlotMap::remove` on the key that `KeyData::from_ffi` rebuilds from a live
/// handle. `from_ffi` undoes `as_ffi`, so the key is the one the handle came
/// from; removing it retires that handle and no other.
#[verifier::external_body]
pub(crate) fn slots_remove(a: &mut SlotAllocator, k: u64)
    requires
        slot_keys(*old(a)).contains(k),
    ensures
        slot_keys(*final(a)) == slot_keys(*old(a)).remove(k),
{
    a.inner.remove(DefaultKey::from(KeyData::from_ffi(k)));
}

} // verus!
