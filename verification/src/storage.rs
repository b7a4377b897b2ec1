//! The two small collections a node owns, kept in `smallvec::SmallVec` so
//! that a node with few singletons and few children needs no allocation.
//!
//! Nothing here is proved: each function hands its work to `SmallVec`, and
//! its contract says what `SmallVec` then holds. `SmallVec` is generic over
//! a trait that the verifier does not know, so each collection is kept in a
//! struct of its own that the verifier does not look into.

use crate::{NodeAddress, PointIndex};
use smallvec::SmallVec;
use vstd::prelude::*;

verus! {

/// Most items either collection is asked to hold. Up to here the size in
/// bytes of a grown buffer stays within what an allocation may have, on
/// 32-bit and 64-bit targets alike.
pub const MAX_ITEMS: usize = usize::MAX / 64;

/// The singletons of a node, in the order they were attached.
#[verifier::external_body]
#[derive(Debug)]
pub struct Singletons {
    items: SmallVec<[PointIndex; 20]>,
}

/// The addresses of the routing children of a node, in the order they were
/// attached.
#[verifier::external_body]
#[derive(Debug)]
pub struct Siblings {
    items: SmallVec<[NodeAddress; 10]>,
}

/// The point indexes that a `Singletons` holds, first to last.
pub uninterp spec fn singletons_held(v: Singletons) -> Seq<PointIndex>;

/// The addresses that a `Siblings` holds, first to last.
pub uninterp spec fn siblings_held(v: Siblings) -> Seq<NodeAddress>;

impl Singletons {
    /// `SmallVec::new`: a collection that holds nothing.
    #[verifier::external_body]
    pub(crate) fn new() -> (v: Singletons)
        ensures
            singletons_held(v) == Seq::<PointIndex>::empty(),
    {
        Singletons { items: SmallVec::new() }
    }

    /// `SmallVec::len`: how many items are held.
    #[verifier::external_body]
    pub(crate) fn len(&self) -> (n: usize)
        ensures
            n == singletons_held(*self).len(),
    {
        self.items.len()
    }

    /// `SmallVec::push`: the item is added behind the others. `SmallVec`
    /// panics when the grown capacity overflows; the bound keeps clear of
    /// that, so that the call does not unwind.
    #[verifier::external_body]
    pub(crate) fn push(&mut self, index: PointIndex)
        requires
            singletons_held(*old(self)).len() < MAX_ITEMS,
        ensures
            singletons_held(*final(self)) == singletons_held(*old(self)).push(index),
        no_unwind
    {
        self.items.push(index)
    }

    /// `SmallVec::extend` with a vector: its items are added behind the
    /// others, in their order. The bound is that of `push`, for all of them,
    /// and as there the call does not unwind.
    #[verifier::external_body]
    pub(crate) fn extend(&mut self, indexes: Vec<PointIndex>)
        requires
            singletons_held(*old(self)).len() + indexes@.len() <= MAX_ITEMS,
        ensures
            singletons_held(*final(self)) == singletons_held(*old(self)) + indexes@,
        no_unwind
    {
        self.items.extend(indexes)
    }

    /// `SmallVec::as_slice`: the items as a slice.
    #[verifier::external_body]
    pub(crate) fn as_slice(&self) -> (s: &[PointIndex])
        ensures
            s@ == singletons_held(*self),
    {
        self.items.as_slice()
    }

    /// `SmallVec::clone`: a collection of its own with the same items.
    #[verifier::external_body]
    pub(crate) fn duplicate(&self) -> (v: Singletons)
        requires
            singletons_held(*self).len() <= MAX_ITEMS,
        ensures
            singletons_held(v) == singletons_held(*self),
    {
        Singletons { items: self.items.clone() }
    }
}

impl Siblings {
    /// `SmallVec::new`: a collection that holds nothing.
    #[verifier::external_body]
    pub(crate) fn new() -> (v: Siblings)
        ensures
            siblings_held(v) == Seq::<NodeAddress>::empty(),
    {
        Siblings { items: SmallVec::new() }
    }

    /// `SmallVec::len`: how many items are held.
    #[verifier::external_body]
    pub(crate) fn len(&self) -> (n: usize)
        ensures
            n == siblings_held(*self).len(),
    {
        self.items.len()
    }

    /// `SmallVec::push`: the item is added behind the others. `SmallVec`
    /// panics when the grown capacity overflows; the bound keeps clear of
    /// that.
    #[verifier::external_body]
    pub(crate) fn push(&mut self, address: NodeAddress)
        requires
            siblings_held(*old(self)).len() < MAX_ITEMS,
        ensures
            siblings_held(*final(self)) == siblings_held(*old(self)).push(address),
    {
        self.items.push(address)
    }

    /// `SmallVec::as_slice`: the items as a slice.
    #[verifier::external_body]
    pub(crate) fn as_slice(&self) -> (s: &[NodeAddress])
        ensures
            s@ == siblings_held(*self),
    {
        self.items.as_slice()
    }

    /// `SmallVec::clone`: a collection of its own with the same items.
    #[verifier::external_body]
    pub(crate) fn duplicate(&self) -> (v: Siblings)
        requires
            siblings_held(*self).len() <= MAX_ITEMS,
        ensures
            siblings_held(v) == siblings_held(*self),
    {
        Siblings { items: self.items.clone() }
    }
}

} // verus!
