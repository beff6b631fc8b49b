//! Reference types: the opaque identifiers the layer hands around.
//!
//! A `ContentRef` identifies stored content by value: appending identical
//! content twice yields the same `ContentRef`.  An `ActionRef` identifies one
//! write event and is unique per write, even when the content repeats; it is
//! the stable handle callers keep across updates.  An `IdentityKey` is a
//! caller's durable identity, convertible deterministically into a
//! `ContentRef`-shaped index root so it can serve as the base of index edges.
//!
//! All three are plain, freely copyable values with structural equality.
//! Callers treat them as opaque; only the ledger mints `Record` and `Path`
//! references, while `Identity` references come from `identity_root` alone,
//! so references of different spaces never collide.

use vstd::prelude::*;

verus! {

/// Which allocator a `ContentRef` came from: stored record content, a
/// symbolic index path, or a caller identity key.
#[derive(Clone, Copy, PartialEq, Eq, Structural, Hash, Debug)]
pub enum RefSpace {
    Record,
    Path,
    Identity,
}

/// Identifies record content by value (the model of a content hash).
#[derive(Clone, Copy, PartialEq, Eq, Structural, Hash, Debug)]
pub struct ContentRef {
    pub space: RefSpace,
    pub id: u64,
}

/// Identifies one write event; unique per write, the record's stable handle.
#[derive(Clone, Copy, PartialEq, Eq, Structural, Hash, Debug)]
pub struct ActionRef {
    pub id: usize,
}

/// A caller's durable identity key.
#[derive(Clone, Copy, PartialEq, Eq, Structural, Hash, Debug)]
pub struct IdentityKey {
    pub id: u64,
}

/// The `ContentRef`-shaped index root of an identity key.
pub open spec fn spec_identity_root(key: IdentityKey) -> ContentRef {
    ContentRef { space: RefSpace::Identity, id: key.id }
}

/// Deterministically reinterprets an identity key as an index root, so the
/// key can anchor index edges without a separate namespace of roots.
/// No side effects; equal keys give equal roots.
pub fn identity_root(key: IdentityKey) -> (root: ContentRef)
    ensures
        root == spec_identity_root(key),
{
    ContentRef { space: RefSpace::Identity, id: key.id }
}

} // verus!
