//! The generic record operations: one component, parameterized by the
//! record's index path and encoded content, in place of a generated
//! per-type layer.
//!
//! For a record type with a chosen index path, creating appends the content
//! and makes it discoverable under the path — and, when an owner key is
//! given, under that identity too; listing resolves everything under the
//! path to its latest version.  Updating a record is `update` of the version
//! chain, and reading one's own record is `resolve_self` of the identity
//! index: both already take plain values, so this module adds only what
//! composes them.

use vstd::prelude::*;

use crate::errors::Error;
use crate::identity_index::attach_self;
use crate::ledger::{mints_ok, path_root_of, Ledger, Version, VersionV};
use crate::link_index::{attach, resolve, resolve_spec};
use crate::refs::{spec_identity_root, ActionRef, ContentRef, IdentityKey};
use crate::version_chain::create;

verus! {

/// Exactly what `list_records` returns, as a function of the ledger state.
pub open spec fn list_records_spec(l: Ledger, path_name: Seq<u8>) -> Seq<VersionV> {
    match path_root_of(l.paths(), path_name) {
        None => Seq::empty(),
        Some(root) => resolve_spec(l, root),
    }
}

/// Creates a record: appends its encoded content, lists it under the given
/// index path, and, when an owner is given, attaches it under that identity
/// key as well.  Returns the fresh write event and the content reference.
/// Fails with `StoreWriteError` exactly when the ledger rejects the append,
/// leaving everything unchanged.
pub fn create_record(
    l: &mut Ledger,
    path_name: Vec<u8>,
    content: Vec<u8>,
    owner: Option<IdentityKey>,
) -> (r: Result<(ActionRef, ContentRef), Error>)
    requires
        old(l).wf(),
    ensures
        final (l).wf(),
        final (l).capacity() == old(l).capacity(),
        match r {
            Ok((a, cr)) => {
                &&& old(l).records().len() < old(l).capacity()
                &&& a.id == old(l).records().len()
                &&& mints_ok(*old(l), content@, cr)
                &&& final (l).records() == old(l).records().push(
                    VersionV { content: content@, content_ref: cr, action: a },
                )
                &&& final (l).relations() == old(l).relations()
                &&& path_root_of(final (l).paths(), path_name@) is Some
                &&& (match owner {
                    Some(key) => final (l).edges() == old(l).edges().push(
                        (path_root_of(final (l).paths(), path_name@).unwrap(), cr),
                    ).push((spec_identity_root(key), cr)),
                    None => final (l).edges() == old(l).edges().push(
                        (path_root_of(final (l).paths(), path_name@).unwrap(), cr),
                    ),
                })
                &&& (match path_root_of(old(l).paths(), path_name@) {
                    Some(root) => final (l).paths() == old(l).paths(),
                    None => final (l).paths() == old(l).paths().push(
                        (path_name@, path_root_of(final (l).paths(), path_name@).unwrap()),
                    ),
                })
            },
            Err(e) => {
                &&& e == Error::StoreWriteError
                &&& old(l).records().len() >= old(l).capacity()
                &&& *final (l) == *old(l)
            },
        },
{
    let created = create(l, content);
    let (a, cr) = match created {
        Ok(v) => v,
        Err(e) => {
            return Err(e);
        },
    };
    let proot = l.ensure_path_root(path_name);
    attach(l, proot, cr);
    match owner {
        Some(key) => attach_self(l, key, cr),
        None => {},
    }
    Ok((a, cr))
}

/// Lists the records under an index path: every attached target resolved to
/// its latest version, unresolvable targets skipped; empty for a path that
/// was never attached under.
pub fn list_records(l: &Ledger, path_name: &Vec<u8>) -> (r: Vec<Version>)
    requires
        l.wf(),
    ensures
        r@.map_values(|v: Version| v@) == list_records_spec(*l, path_name@),
{
    match l.lookup_path_root(path_name) {
        None => {
            let out: Vec<Version> = Vec::new();
            proof {
                assert(out@.map_values(|v: Version| v@) =~= Seq::<VersionV>::empty());
            }
            out
        },
        Some(root) => resolve(l, root),
    }
}

} // verus!
