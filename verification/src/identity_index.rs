//! The identity-keyed index: a link index whose root is the caller's own
//! durable identity key, for "find my own record" lookups that need no scan
//! of a shared collection.
//!
//! A real identity is expected to attach at most one record, but a buggy or
//! racing caller could attach more than once; `resolve_self` therefore takes
//! the most recently attached edge, mirroring the "last registered wins"
//! convention of version resolution.

use vstd::prelude::*;

use crate::ledger::{targets_of, Ledger, Version, VersionV};
use crate::link_index::{attach, resolve_one};
use crate::refs::{identity_root, spec_identity_root, ContentRef, IdentityKey};
use crate::version_chain::resolve_latest;

verus! {

/// Exactly what `resolve_self` returns, as a function of the ledger state:
/// the latest version behind the most recently attached edge out of the
/// identity's root, if any.
pub open spec fn resolve_self_spec(l: Ledger, key: IdentityKey) -> Option<VersionV> {
    let ts = targets_of(l.edges(), spec_identity_root(key));
    if ts.len() == 0 {
        None
    } else {
        resolve_one(l, ts.last())
    }
}

/// Registers an index edge from the caller's identity root to a record's
/// content reference.
pub fn attach_self(l: &mut Ledger, key: IdentityKey, target: ContentRef)
    requires
        old(l).wf(),
    ensures
        final (l).wf(),
        final (l).capacity() == old(l).capacity(),
        final (l).edges() == old(l).edges().push((spec_identity_root(key), target)),
        final (l).records() == old(l).records(),
        final (l).relations() == old(l).relations(),
        final (l).paths() == old(l).paths(),
{
    let root = identity_root(key);
    attach(l, root, target);
}

/// The latest version of the record this identity attached most recently;
/// `None` for an identity that never attached anything, and also for one
/// whose newest attachment cannot be resolved — a dangling target or a
/// corrupt chain reads as an absence here, mirroring how index resolution
/// skips such targets; corruption surfaces as an error only from
/// `resolve_latest` itself.
pub fn resolve_self(l: &Ledger, key: IdentityKey) -> (r: Option<Version>)
    requires
        l.wf(),
    ensures
        match r {
            Some(v) => resolve_self_spec(*l, key) == Some(v@),
            None => resolve_self_spec(*l, key) is None,
        },
{
    let root = identity_root(key);
    let targets = l.enumerate_index_edges(root);
    if targets.len() == 0 {
        return None;
    }
    let target = targets[targets.len() - 1];
    proof {
        assert(targets@.last() == targets@[targets@.len() - 1]);
    }
    match l.get_original_action(target) {
        Some(a) => {
            match resolve_latest(l, a) {
                Ok(Some(v)) => Some(v),
                Ok(None) => None,
                Err(_) => None,
            }
        },
        None => None,
    }
}

/// An identity that never attached anything resolves to nothing: with no
/// edge out of its root, `resolve_self` returns `None`.
pub proof fn lemma_resolve_self_unattached(l: Ledger, key: IdentityKey)
    requires
        forall|k: int|
            0 <= k < l.edges().len() ==> (#[trigger] l.edges()[k]).0 != spec_identity_root(key),
    ensures
        resolve_self_spec(l, key) is None,
{
    lemma_targets_of_absent(l.edges(), spec_identity_root(key));
}

/// A root no edge starts from has no targets.
pub(crate) proof fn lemma_targets_of_absent(edges: Seq<(ContentRef, ContentRef)>, root: ContentRef)
    requires
        forall|k: int| 0 <= k < edges.len() ==> (#[trigger] edges[k]).0 != root,
    ensures
        targets_of(edges, root).len() == 0,
    decreases edges.len(),
{
    if edges.len() > 0 {
        assert(edges[edges.len() - 1].0 != root);
        assert forall|k: int| 0 <= k < edges.drop_last().len() implies (
        #[trigger] edges.drop_last()[k]).0 != root by {
            assert(edges.drop_last()[k] == edges[k]);
        }
        lemma_targets_of_absent(edges.drop_last(), root);
    }
}

} // verus!
