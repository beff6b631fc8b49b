//! The link-based index: discoverable, queryable collections of record
//! references under an index root.
//!
//! `attach` registers an edge from a root to a record's content reference;
//! edges are never rewritten or removed, and never deduplicated — a repeated
//! attach is harmless and readers tolerate the duplicate.  `resolve`
//! enumerates the edges out of a root and returns, per target, the *latest*
//! version of the record: index entries point at a record's original content
//! reference, and currency is recovered at read time by walking its update
//! chain.  A target that cannot be resolved — never appended, or with a
//! corrupt update chain — is silently skipped, an absence rather than an
//! error, so one bad entry never hides the rest of the collection.

use vstd::prelude::*;

use crate::ledger::{first_action_of, targets_of, Ledger, Version, VersionV};
use crate::refs::ContentRef;
use crate::version_chain::{resolve_latest, resolve_latest_spec};

verus! {

/// The latest version behind one index edge target, if the target leads to
/// one: its original write event looked up, then its chain walked forward.
pub open spec fn resolve_one(l: Ledger, target: ContentRef) -> Option<VersionV> {
    match first_action_of(l.records(), target) {
        None => None,
        Some(a) => match resolve_latest_spec(l, a) {
            Ok(o) => o,
            Err(_) => None,
        },
    }
}

/// The resolvable targets' latest versions, in target order.
pub open spec fn resolved_views(l: Ledger, ts: Seq<ContentRef>) -> Seq<VersionV>
    decreases ts.len(),
{
    if ts.len() == 0 {
        Seq::empty()
    } else {
        let rest = resolved_views(l, ts.drop_last());
        match resolve_one(l, ts.last()) {
            Some(v) => rest.push(v),
            None => rest,
        }
    }
}

/// Exactly what `resolve` returns, as a function of the ledger state.
pub open spec fn resolve_spec(l: Ledger, root: ContentRef) -> Seq<VersionV> {
    resolved_views(l, targets_of(l.edges(), root))
}

/// Registers an index edge from `root` to `target`, making the record
/// discoverable under the root.  Nothing else changes; a duplicate edge is
/// registered like any other.
pub fn attach(l: &mut Ledger, root: ContentRef, target: ContentRef)
    requires
        old(l).wf(),
    ensures
        final (l).wf(),
        final (l).capacity() == old(l).capacity(),
        final (l).edges() == old(l).edges().push((root, target)),
        final (l).records() == old(l).records(),
        final (l).relations() == old(l).relations(),
        final (l).paths() == old(l).paths(),
{
    l.register_index_edge(root, target);
}

/// Enumerates the edges out of `root` and resolves each target to the latest
/// version of its record, skipping targets that cannot be resolved.
pub fn resolve(l: &Ledger, root: ContentRef) -> (r: Vec<Version>)
    requires
        l.wf(),
    ensures
        r@.map_values(|v: Version| v@) == resolve_spec(*l, root),
{
    let targets = l.enumerate_index_edges(root);
    let mut out: Vec<Version> = Vec::new();
    proof {
        assert(out@.map_values(|v: Version| v@) =~= resolved_views(*l, targets@.take(0)));
    }
    let mut i: usize = 0;
    while i < targets.len()
        invariant
            l.wf(),
            i <= targets@.len(),
            targets@ == targets_of(l.edges(), root),
            out@.map_values(|v: Version| v@) == resolved_views(*l, targets@.take(i as int)),
        decreases targets@.len() - i,
    {
        let ghost pre_out = out@;
        let target = targets[i];
        match l.get_original_action(target) {
            Some(a) => {
                match resolve_latest(l, a) {
                    Ok(Some(v)) => {
                        proof {
                            assert(resolve_one(*l, target) == Some(v@));
                        }
                        out.push(v);
                        proof {
                            assert(out@.map_values(|v: Version| v@) =~= pre_out.map_values(
                                |v: Version| v@,
                            ).push(out@.last()@));
                        }
                    },
                    Ok(None) => {
                        proof {
                            assert(resolve_one(*l, target) is None);
                        }
                    },
                    Err(_) => {
                        proof {
                            assert(resolve_one(*l, target) is None);
                        }
                    },
                }
            },
            None => {
                proof {
                    assert(resolve_one(*l, target) is None);
                }
            },
        }
        proof {
            assert(targets@.take(i as int + 1).drop_last() =~= targets@.take(i as int));
            assert(targets@.take(i as int + 1).last() == targets@[i as int]);
        }
        i += 1;
    }
    proof {
        assert(targets@.take(targets@.len() as int) =~= targets@);
    }
    out
}

/// Duplicates are tolerated: after the same edge is attached twice — here,
/// the two newest edges both join `root` to `target` — resolving the root
/// still contains the target's latest version (and resolution itself never
/// fails; `resolve` is total).
pub proof fn lemma_attach_twice_still_resolves(l: Ledger, root: ContentRef, target: ContentRef, v: VersionV)
    requires
        l.edges().len() >= 2,
        l.edges()[l.edges().len() - 1] == (root, target),
        l.edges()[l.edges().len() - 2] == (root, target),
        resolve_one(l, target) == Some(v),
    ensures
        resolve_spec(l, root).contains(v),
{
    let ts = targets_of(l.edges(), root);
    assert(l.edges().last() == (root, target));
    assert(ts == targets_of(l.edges().drop_last(), root).push(target));
    let views = resolved_views(l, ts);
    assert(views == resolved_views(l, ts.drop_last()).push(v));
    assert(views.last() == v);
    assert(views.contains(v));
}

} // verus!
