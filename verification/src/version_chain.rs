//! The versioned-record abstraction: create a chain, append a new version
//! under an existing write event, and resolve the newest version reachable
//! from a starting write event.
//!
//! A record's history is a chain of immutable versions joined by update
//! relations.  Resolution walks forward: at every write event it follows the
//! newest outgoing relation (the one registered last — the tie-break for
//! concurrent updates branching from one prior version) until none is left,
//! and is bounded by `MAX_HOPS` so that an accidental or adversarial cycle
//! of relations surfaces as `CorruptChainError` instead of running forever.

use vstd::prelude::*;

use crate::errors::Error;
use crate::ledger::{last_from, mints_ok, Ledger, Version, VersionV};
use crate::refs::{ActionRef, ContentRef};

verus! {

/// How many update relations one resolution is willing to follow.
pub const MAX_HOPS: usize = 4096;

/// Repeatedly follows the newest relation out of `a`: the terminal write
/// event, or `None` once the fuel is spent (a chain longer than the fuel, in
/// particular a cycle).
pub open spec fn chase(rels: Seq<(ActionRef, ActionRef)>, a: ActionRef, fuel: nat) -> Option<
    ActionRef,
>
    decreases fuel,
{
    match last_from(rels, a) {
        None => Some(a),
        Some(n) => if fuel == 0 {
            None
        } else {
            chase(rels, n, (fuel - 1) as nat)
        },
    }
}

/// Exactly what `resolve_latest` returns, as a function of the ledger state.
pub open spec fn resolve_latest_spec(l: Ledger, start: ActionRef) -> Result<
    Option<VersionV>,
    Error,
> {
    if !l.has_action(start) {
        Ok(None)
    } else {
        match chase(l.relations(), start, MAX_HOPS as nat) {
            Some(t) => Ok(Some(l.version_at(t))),
            None => Err(Error::CorruptChainError),
        }
    }
}

/// Starts a new record chain by appending its first immutable version.
/// Accepted exactly while the ledger is below its capacity; the content
/// reference is minted content-addressed, the action reference is fresh.
pub fn create(l: &mut Ledger, content: Vec<u8>) -> (r: Result<(ActionRef, ContentRef), Error>)
    requires
        old(l).wf(),
    ensures
        final (l).wf(),
        final (l).capacity() == old(l).capacity(),
        match r {
            Ok((a, cr)) => {
                &&& old(l).records().len() < old(l).capacity()
                &&& a.id == old(l).records().len()
                &&& mints_ok(*old(l), content@, cr)
                &&& final (l).records() == old(l).records().push(
                    VersionV { content: content@, content_ref: cr, action: a },
                )
                &&& final (l).relations() == old(l).relations()
                &&& final (l).edges() == old(l).edges()
                &&& final (l).paths() == old(l).paths()
            },
            Err(e) => {
                &&& e == Error::StoreWriteError
                &&& old(l).records().len() >= old(l).capacity()
                &&& *final (l) == *old(l)
            },
        },
{
    l.append(content)
}

/// Appends `new_content` as a new immutable version and registers an update
/// relation from `prior` to the new write event.  Fails with
/// `NotFoundError` when `prior` was never written, with `StoreWriteError`
/// when the ledger rejects the append; either way the ledger is unchanged.
pub fn update(l: &mut Ledger, prior: ActionRef, new_content: Vec<u8>) -> (r: Result<
    ActionRef,
    Error,
>)
    requires
        old(l).wf(),
    ensures
        final (l).wf(),
        final (l).capacity() == old(l).capacity(),
        match r {
            Ok(a) => {
                &&& old(l).has_action(prior)
                &&& old(l).records().len() < old(l).capacity()
                &&& a.id == old(l).records().len()
                &&& final (l).records() == old(l).records().push(final (l).records().last())
                &&& final (l).records().last().content == new_content@
                &&& final (l).records().last().action == a
                &&& mints_ok(*old(l), new_content@, final (l).records().last().content_ref)
                &&& final (l).relations() == old(l).relations().push((prior, a))
                &&& final (l).edges() == old(l).edges()
                &&& final (l).paths() == old(l).paths()
            },
            Err(e) => {
                &&& *final (l) == *old(l)
                &&& (e == Error::NotFoundError <==> !old(l).has_action(prior))
                &&& (e == Error::StoreWriteError <==> old(l).has_action(prior) && old(
                    l,
                ).records().len() >= old(l).capacity())
                &&& (e == Error::NotFoundError || e == Error::StoreWriteError)
            },
        },
{
    if !l.contains_action(prior) {
        return Err(Error::NotFoundError);
    }
    match l.append(new_content) {
        Ok((a, _cr)) => {
            match l.register_update_relation(prior, a) {
                Ok(()) => Ok(a),
                Err(_) => unreached(),
            }
        },
        Err(e) => Err(e),
    }
}

/// Walks forward from `start` to the newest reachable version.  Returns
/// `Ok(None)` exactly when `start` was never written — an unknown reference
/// is an absence, not an error — and `CorruptChainError` exactly when the
/// walk exceeds `MAX_HOPS` relations.
pub fn resolve_latest(l: &Ledger, start: ActionRef) -> (r: Result<Option<Version>, Error>)
    requires
        l.wf(),
    ensures
        match r {
            Ok(None) => resolve_latest_spec(*l, start) == Ok::<Option<VersionV>, Error>(None),
            Ok(Some(v)) => resolve_latest_spec(*l, start) == Ok::<Option<VersionV>, Error>(
                Some(v@),
            ),
            Err(e) => resolve_latest_spec(*l, start) == Err::<Option<VersionV>, Error>(e),
        },
        !l.has_action(start) ==> r == Ok::<Option<Version>, Error>(None),
{
    if !l.contains_action(start) {
        return Ok(None);
    }
    let mut cur = start;
    let mut fuel: usize = MAX_HOPS;
    loop
        invariant
            l.wf(),
            l.has_action(cur),
            l.has_action(start),
            fuel <= MAX_HOPS,
            chase(l.relations(), start, MAX_HOPS as nat) == chase(l.relations(), cur, fuel as nat),
        decreases fuel,
    {
        match l.follow_latest_relation(cur) {
            None => {
                match l.get_by_action_ref(cur) {
                    Some(v) => {
                        return Ok(Some(v));
                    },
                    None => unreached(),
                }
            },
            Some(n) => {
                if fuel == 0 {
                    return Err(Error::CorruptChainError);
                }
                proof {
                    lemma_last_from_found(l.relations(), cur, n);
                    let k = choose|k: int|
                        0 <= k < l.relations().len() && #[trigger] l.relations()[k] == (cur, n);
                    assert(l.relations()[k].1.id < l.records().len());
                }
                fuel = fuel - 1;
                cur = n;
            },
        }
    }
}

/// A followed relation really is registered: its target is some relation's.
proof fn lemma_last_from_found(rels: Seq<(ActionRef, ActionRef)>, a: ActionRef, n: ActionRef)
    requires
        last_from(rels, a) == Some(n),
    ensures
        exists|k: int| 0 <= k < rels.len() && #[trigger] rels[k] == (a, n),
    decreases rels.len(),
{
    if rels.len() > 0 {
        if rels.last().0 == a {
            assert(rels[rels.len() - 1] == (a, n));
        } else {
            lemma_last_from_found(rels.drop_last(), a, n);
            let k = choose|k: int|
                0 <= k < rels.drop_last().len() && #[trigger] rels.drop_last()[k] == (a, n);
            assert(rels[k] == (a, n));
        }
    }
}

/// A write event with no outgoing relation at all resolves one hop to
/// nothing.
proof fn lemma_last_from_absent(rels: Seq<(ActionRef, ActionRef)>, a: ActionRef)
    requires
        forall|k: int| 0 <= k < rels.len() ==> (#[trigger] rels[k]).0 != a,
    ensures
        last_from(rels, a) is None,
    decreases rels.len(),
{
    if rels.len() > 0 {
        assert(rels[rels.len() - 1].0 != a);
        assert forall|k: int| 0 <= k < rels.drop_last().len() implies (
        #[trigger] rels.drop_last()[k]).0 != a by {
            assert(rels.drop_last()[k] == rels[k]);
        }
        lemma_last_from_absent(rels.drop_last(), a);
    }
}

/// The newest relation out of `a` is the one registered last among those out
/// of `a`.
proof fn lemma_last_from_at(rels: Seq<(ActionRef, ActionRef)>, kc: int)
    requires
        0 <= kc < rels.len(),
        forall|k: int| kc < k < rels.len() ==> (#[trigger] rels[k]).0 != rels[kc].0,
    ensures
        last_from(rels, rels[kc].0) == Some(rels[kc].1),
    decreases rels.len(),
{
    if kc == rels.len() - 1 {
        assert(rels.last() == rels[kc]);
    } else {
        assert(rels.last().0 != rels[kc].0);
        assert(rels.drop_last()[kc] == rels[kc]);
        assert forall|k: int| kc < k < rels.drop_last().len() implies (
        #[trigger] rels.drop_last()[k]).0 != rels.drop_last()[kc].0 by {
            assert(rels.drop_last()[k] == rels[k]);
        }
        lemma_last_from_at(rels.drop_last(), kc);
    }
}

/// A fresh write event — one no registered relation starts from, as is the
/// case right after `create` — resolves to its own version: what was
/// created is what `resolve_latest` returns.
pub proof fn lemma_create_then_resolve_latest(
    pre: Ledger,
    post: Ledger,
    content: Seq<u8>,
    a: ActionRef,
    cr: ContentRef,
)
    requires
        pre.wf(),
        a.id == pre.records().len(),
        post.records() == pre.records().push(VersionV { content, content_ref: cr, action: a }),
        post.relations() == pre.relations(),
    ensures
        resolve_latest_spec(post, a) == Ok::<Option<VersionV>, Error>(
            Some(VersionV { content, content_ref: cr, action: a }),
        ),
{
    assert forall|k: int| 0 <= k < post.relations().len() implies (
    #[trigger] post.relations()[k]).0 != a by {
        assert(pre.relations()[k].0.id < pre.records().len());
    }
    lemma_last_from_absent(post.relations(), a);
    assert(post.has_action(a));
    assert(post.version_at(a) == VersionV { content, content_ref: cr, action: a });
}

/// Branch tie-break: when two updates branch from the same prior write
/// event, resolution from any starting point that reaches that prior event
/// returns the branch registered last.  Stated here from the branching event
/// itself: the relation at `kc` is the last one out of its source, and its
/// target `c` has no further update, so resolution from the source returns
/// `c`'s version — deterministically, `resolve_latest` being a function of
/// the ledger state alone.
pub proof fn lemma_branch_tie_break(l: Ledger, kb: int, kc: int)
    requires
        l.wf(),
        0 <= kb < kc < l.relations().len(),
        l.relations()[kb].0 == l.relations()[kc].0,
        forall|k: int| kc < k < l.relations().len() ==> (#[trigger] l.relations()[k]).0
            != l.relations()[kc].0,
        forall|k: int| 0 <= k < l.relations().len() ==> (#[trigger] l.relations()[k]).0
            != l.relations()[kc].1,
    ensures
        resolve_latest_spec(l, l.relations()[kc].0) == Ok::<Option<VersionV>, Error>(
            Some(l.version_at(l.relations()[kc].1)),
        ),
{
    let root = l.relations()[kc].0;
    let c = l.relations()[kc].1;
    assert(root.id < l.records().len());
    lemma_last_from_at(l.relations(), kc);
    lemma_last_from_absent(l.relations(), c);
    assert(chase(l.relations(), root, MAX_HOPS as nat) == chase(
        l.relations(),
        c,
        (MAX_HOPS - 1) as nat,
    ));
}

/// A linear chain of `n` sequential updates from one create resolves, from
/// the original write event, to the newest version: the one the `n`-th
/// update wrote.  `acts` are the chain's write events in order; each update
/// registered exactly one relation, so the chain of `n` updates holds
/// exactly `n` relations, and they are the whole relation set here.  Chains
/// longer than `MAX_HOPS` are out of this statement's reach: resolution
/// reports them corrupt instead.
pub proof fn lemma_chain_resolves_to_newest(l: Ledger, acts: Seq<ActionRef>)
    requires
        l.wf(),
        acts.len() >= 1,
        acts.len() - 1 <= MAX_HOPS,
        l.relations().len() == acts.len() - 1,
        forall|k: int| 0 <= k < l.relations().len() ==> #[trigger] l.relations()[k] == (
            acts[k],
            acts[k + 1],
        ),
        forall|i: int, j: int| 0 <= i < j < acts.len() ==> (#[trigger] acts[i]).id < (
        #[trigger] acts[j]).id,
        l.has_action(acts[0]),
    ensures
        resolve_latest_spec(l, acts[0]) == Ok::<Option<VersionV>, Error>(Some(l.version_at(acts[acts.len() - 1]))),
{
    lemma_chain_chase(l, acts, 0);
    assert(chase(l.relations(), acts[0], MAX_HOPS as nat) == Some(acts[acts.len() - 1]));
}

/// From link `i` of a linear chain, chasing with enough fuel ends at the
/// chain's last write event.
proof fn lemma_chain_chase(l: Ledger, acts: Seq<ActionRef>, i: int)
    requires
        l.wf(),
        acts.len() >= 1,
        acts.len() - 1 <= MAX_HOPS,
        0 <= i < acts.len(),
        l.relations().len() == acts.len() - 1,
        forall|k: int| 0 <= k < l.relations().len() ==> #[trigger] l.relations()[k] == (
            acts[k],
            acts[k + 1],
        ),
        forall|i2: int, j2: int| 0 <= i2 < j2 < acts.len() ==> (#[trigger] acts[i2]).id < (
        #[trigger] acts[j2]).id,
    ensures
        forall|fuel: nat|
            acts.len() - 1 - i <= fuel <= MAX_HOPS ==> chase(l.relations(), acts[i], fuel)
                == Some(acts[acts.len() - 1]),
    decreases acts.len() - i,
{
    let n = acts.len() - 1;
    if i == n {
        assert forall|k: int| 0 <= k < l.relations().len() implies (#[trigger] l.relations()[k]).0
            != acts[i] by {
            assert(l.relations()[k] == (acts[k], acts[k + 1]));
            if k < i {
                assert(acts[k].id < acts[i].id);
            }
        }
        lemma_last_from_absent(l.relations(), acts[i]);
        assert forall|fuel: nat|
            acts.len() - 1 - i <= fuel <= MAX_HOPS implies chase(l.relations(), acts[i], fuel)
            == Some(acts[acts.len() - 1]) by {
            assert(chase(l.relations(), acts[i], fuel) == Some(acts[i]));
        }
    } else {
        assert(l.relations()[i] == (acts[i], acts[i + 1]));
        assert forall|k: int| i < k < l.relations().len() implies (#[trigger] l.relations()[k]).0
            != l.relations()[i].0 by {
            assert(l.relations()[k] == (acts[k], acts[k + 1]));
            assert(acts[i].id < acts[k].id);
        }
        lemma_last_from_at(l.relations(), i);
        assert(last_from(l.relations(), acts[i]) == Some(acts[i + 1]));
        lemma_chain_chase(l, acts, i + 1);
        assert forall|fuel: nat|
            acts.len() - 1 - i <= fuel <= MAX_HOPS implies chase(l.relations(), acts[i], fuel)
            == Some(acts[acts.len() - 1]) by {
            assert(fuel >= 1);
            assert(chase(l.relations(), acts[i], fuel) == chase(
                l.relations(),
                acts[i + 1],
                (fuel - 1) as nat,
            ));
            assert(acts.len() - 1 - (i + 1) <= fuel - 1 <= MAX_HOPS);
        }
    }
}

} // verus!
