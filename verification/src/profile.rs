//! The profile record type and its operations: the per-type layer that
//! composes version chains and link indexes for a caller's profile.
//!
//! A profile is created once, listed under the shared `agents` path so
//! anyone can discover it, and attached under the caller's own identity key
//! for a direct "who am I" lookup.  Updates append new versions under the
//! original write event; the index edges keep pointing at the original
//! content reference, and every read resolves to the latest version.
//!
//! Text fields are carried as their UTF-8 bytes.

use vstd::prelude::*;

use crate::codec::{
    field_block, le8, lemma_rd_field_of_written, lemma_rd_u64_of_written, rd_field, rd_u64,
    read_bytes_field, read_u64_at, write_bytes_field, write_u64,
};
use crate::errors::Error;
use crate::identity_index::{lemma_targets_of_absent, resolve_self, resolve_self_spec};
use crate::ledger::{
    first_action_of, lemma_first_action_of_at, mints_ok, path_root_of, targets_of, Ledger,
    Version, VersionV,
};
use crate::link_index::resolve_one;
use crate::record_ops::{create_record, list_records, list_records_spec};
use crate::refs::{spec_identity_root, ActionRef, ContentRef, IdentityKey, RefSpace};
use crate::version_chain::{lemma_chain_resolves_to_newest, lemma_create_then_resolve_latest, MAX_HOPS};
use crate::status::{lemma_status_text_roundtrip, status_from_text, status_text, Status};

verus! {

broadcast use crate::codec::lemma_le8_len;

/// An agent's profile record.
#[derive(Debug, PartialEq)]
pub struct Profile {
    pub first_name: Vec<u8>,
    pub last_name: Vec<u8>,
    pub handle: Vec<u8>,
    pub status: Status,
    pub avatar_url: Vec<u8>,
    pub address: IdentityKey,
}

/// The mathematical value of a `Profile`.
pub struct ProfileV {
    pub first_name: Seq<u8>,
    pub last_name: Seq<u8>,
    pub handle: Seq<u8>,
    pub status: Status,
    pub avatar_url: Seq<u8>,
    pub address: IdentityKey,
}

impl View for Profile {
    type V = ProfileV;

    open spec fn view(&self) -> ProfileV {
        ProfileV {
            first_name: self.first_name@,
            last_name: self.last_name@,
            handle: self.handle@,
            status: self.status,
            avatar_url: self.avatar_url@,
            address: self.address,
        }
    }
}

/// A record's content together with its stable handle: the write event of
/// its original creation, which survives updates.
pub struct WireEntry {
    pub entry: Profile,
    pub address: ActionRef,
}

/// Everyone's profiles, as listed under the shared path.
pub struct AgentsOutput(pub Vec<Profile>);

/// The caller's own profile, if one was ever attached.
pub struct WhoAmIOutput(pub Option<WireEntry>);

/// The stored bytes of a profile: five length-prefixed fields — the status
/// as its wire text — then the identity key's scalar.
pub open spec fn spec_encode_profile(p: ProfileV) -> Seq<u8> {
    field_block(p.first_name) + field_block(p.last_name) + field_block(p.handle) + field_block(
        status_text(p.status),
    ) + field_block(p.avatar_url) + le8(p.address.id)
}

/// The profile stored bytes hold: each field read back in order, the whole
/// buffer consumed.  Bytes that do not fit this shape — a status text that
/// names no status included — read as nothing.
pub open spec fn spec_decode_profile(b: Seq<u8>) -> Option<ProfileV> {
    match rd_field(b, 0) {
        None => None,
        Some((first_name, p1)) => match rd_field(b, p1) {
            None => None,
            Some((last_name, p2)) => match rd_field(b, p2) {
                None => None,
                Some((handle, p3)) => match rd_field(b, p3) {
                    None => None,
                    Some((stext, p4)) => match status_from_text(stext) {
                        None => None,
                        Some(status) => match rd_field(b, p4) {
                            None => None,
                            Some((avatar_url, p5)) => match rd_u64(b, p5) {
                                None => None,
                                Some((addr, p6)) => if p6 == b.len() {
                                    Some(
                                        ProfileV {
                                            first_name,
                                            last_name,
                                            handle,
                                            status,
                                            avatar_url,
                                            address: IdentityKey { id: addr },
                                        },
                                    )
                                } else {
                                    None
                                },
                            },
                        },
                    },
                },
            },
        },
    }
}

impl Profile {
    /// This profile's stored bytes.
    pub fn encode(&self) -> (r: Vec<u8>)
        ensures
            r@ == spec_encode_profile(self@),
    {
        let mut buf: Vec<u8> = Vec::new();
        write_bytes_field(&mut buf, &self.first_name);
        write_bytes_field(&mut buf, &self.last_name);
        write_bytes_field(&mut buf, &self.handle);
        let stext = self.status.to_text();
        write_bytes_field(&mut buf, &stext);
        write_bytes_field(&mut buf, &self.avatar_url);
        write_u64(&mut buf, self.address.id);
        proof {
            assert(buf@ =~= spec_encode_profile(self@));
        }
        buf
    }

    /// The profile stored bytes hold, or `DeserializationError` for bytes no
    /// profile is stored as.
    pub fn decode(b: &Vec<u8>) -> (r: Result<Profile, Error>)
        ensures
            match r {
                Ok(p) => spec_decode_profile(b@) == Some(p@),
                Err(e) => e == Error::DeserializationError && spec_decode_profile(b@) is None,
            },
    {
        let (first_name, p1) = match read_bytes_field(b, 0) {
            Some(v) => v,
            None => {
                return Err(Error::DeserializationError);
            },
        };
        let (last_name, p2) = match read_bytes_field(b, p1) {
            Some(v) => v,
            None => {
                return Err(Error::DeserializationError);
            },
        };
        let (handle, p3) = match read_bytes_field(b, p2) {
            Some(v) => v,
            None => {
                return Err(Error::DeserializationError);
            },
        };
        let (stext, p4) = match read_bytes_field(b, p3) {
            Some(v) => v,
            None => {
                return Err(Error::DeserializationError);
            },
        };
        let status = match Status::of_text(&stext) {
            Some(s) => s,
            None => {
                return Err(Error::DeserializationError);
            },
        };
        let (avatar_url, p5) = match read_bytes_field(b, p4) {
            Some(v) => v,
            None => {
                return Err(Error::DeserializationError);
            },
        };
        let (addr, p6) = match read_u64_at(b, p5) {
            Some(v) => v,
            None => {
                return Err(Error::DeserializationError);
            },
        };
        if p6 != b.len() {
            return Err(Error::DeserializationError);
        }
        Ok(
            Profile {
                first_name,
                last_name,
                handle,
                status,
                avatar_url,
                address: IdentityKey { id: addr },
            },
        )
    }
}

/// Where each part of a profile's stored bytes ends.
pub open spec fn profile_pos1(p: ProfileV) -> int {
    8 + p.first_name.len() as int
}

pub open spec fn profile_pos2(p: ProfileV) -> int {
    profile_pos1(p) + 8 + p.last_name.len() as int
}

pub open spec fn profile_pos3(p: ProfileV) -> int {
    profile_pos2(p) + 8 + p.handle.len() as int
}

pub open spec fn profile_pos4(p: ProfileV) -> int {
    profile_pos3(p) + 8 + status_text(p.status).len() as int
}

pub open spec fn profile_pos5(p: ProfileV) -> int {
    profile_pos4(p) + 8 + p.avatar_url.len() as int
}

proof fn lemma_profile_field1(p: ProfileV)
    requires
        p.first_name.len() <= u64::MAX,
    ensures
        rd_field(spec_encode_profile(p), 0) == Some((p.first_name, profile_pos1(p))),
{
    let stext = status_text(p.status);
    let a1 = field_block(p.last_name) + field_block(p.handle) + field_block(stext) + field_block(
        p.avatar_url,
    ) + le8(p.address.id);
    assert(spec_encode_profile(p) =~= Seq::<u8>::empty() + field_block(p.first_name) + a1);
    lemma_rd_field_of_written(Seq::<u8>::empty(), p.first_name, a1);
}

proof fn lemma_profile_field2(p: ProfileV)
    requires
        p.last_name.len() <= u64::MAX,
    ensures
        rd_field(spec_encode_profile(p), profile_pos1(p)) == Some((p.last_name, profile_pos2(p))),
{
    let stext = status_text(p.status);
    let c1 = field_block(p.first_name);
    let a2 = field_block(p.handle) + field_block(stext) + field_block(p.avatar_url) + le8(
        p.address.id,
    );
    assert(spec_encode_profile(p) =~= c1 + field_block(p.last_name) + a2);
    lemma_rd_field_of_written(c1, p.last_name, a2);
}

proof fn lemma_profile_field3(p: ProfileV)
    requires
        p.handle.len() <= u64::MAX,
    ensures
        rd_field(spec_encode_profile(p), profile_pos2(p)) == Some((p.handle, profile_pos3(p))),
{
    let stext = status_text(p.status);
    let c2 = field_block(p.first_name) + field_block(p.last_name);
    let a3 = field_block(stext) + field_block(p.avatar_url) + le8(p.address.id);
    assert(spec_encode_profile(p) =~= c2 + field_block(p.handle) + a3);
    lemma_rd_field_of_written(c2, p.handle, a3);
}

proof fn lemma_profile_field4(p: ProfileV)
    ensures
        rd_field(spec_encode_profile(p), profile_pos3(p)) == Some(
            (status_text(p.status), profile_pos4(p)),
        ),
{
    let stext = status_text(p.status);
    let c3 = field_block(p.first_name) + field_block(p.last_name) + field_block(p.handle);
    let a4 = field_block(p.avatar_url) + le8(p.address.id);
    assert(stext.len() <= 7);
    assert(spec_encode_profile(p) =~= c3 + field_block(stext) + a4);
    lemma_rd_field_of_written(c3, stext, a4);
}

#[verifier::rlimit(100)]
proof fn lemma_profile_field5(p: ProfileV)
    requires
        p.avatar_url.len() <= u64::MAX,
    ensures
        rd_field(spec_encode_profile(p), profile_pos4(p)) == Some(
            (p.avatar_url, profile_pos5(p)),
        ),
{
    let stext = status_text(p.status);
    let c4 = field_block(p.first_name) + field_block(p.last_name) + field_block(p.handle)
        + field_block(stext);
    let a5 = le8(p.address.id);
    assert(spec_encode_profile(p) =~= c4 + field_block(p.avatar_url) + a5);
    lemma_rd_field_of_written(c4, p.avatar_url, a5);
}

#[verifier::rlimit(100)]
proof fn lemma_profile_field6(p: ProfileV)
    ensures
        rd_u64(spec_encode_profile(p), profile_pos5(p)) == Some(
            (p.address.id, profile_pos5(p) + 8),
        ),
        spec_encode_profile(p).len() == profile_pos5(p) + 8,
{
    let stext = status_text(p.status);
    let c5 = field_block(p.first_name) + field_block(p.last_name) + field_block(p.handle)
        + field_block(stext) + field_block(p.avatar_url);
    assert(spec_encode_profile(p) =~= c5 + le8(p.address.id) + Seq::<u8>::empty());
    lemma_rd_u64_of_written(c5, p.address.id, Seq::<u8>::empty());
}

/// Decoding a profile's stored bytes gives the profile back, for every
/// profile whose fields fit the wire's length prefixes.
pub proof fn lemma_profile_codec_round_trip(p: ProfileV)
    requires
        p.first_name.len() <= u64::MAX,
        p.last_name.len() <= u64::MAX,
        p.handle.len() <= u64::MAX,
        p.avatar_url.len() <= u64::MAX,
    ensures
        spec_decode_profile(spec_encode_profile(p)) == Some(p),
{
    lemma_profile_field1(p);
    lemma_profile_field2(p);
    lemma_profile_field3(p);
    lemma_profile_field4(p);
    lemma_profile_field5(p);
    lemma_profile_field6(p);
    lemma_status_text_roundtrip(p.status);
}

/// The shared index path everyone's profile is listed under.
pub open spec fn agents_path_spec() -> Seq<u8> {
    seq![97u8, 103u8, 101u8, 110u8, 116u8, 115u8]
}

/// The shared index path everyone's profile is listed under, as bytes:
/// the UTF-8 of `agents`.
pub fn agents_path() -> (r: Vec<u8>)
    ensures
        r@ == agents_path_spec(),
{
    let mut r: Vec<u8> = Vec::new();
    r.push(97u8);
    r.push(103u8);
    r.push(101u8);
    r.push(110u8);
    r.push(116u8);
    r.push(115u8);
    proof {
        assert(r@ =~= agents_path_spec());
    }
    r
}

/// Creates the caller's profile: appends it as a new record, lists it under
/// the shared `agents` path, and attaches it under the caller's identity key
/// for the direct `whoami` lookup.  Returns the profile with its original
/// write event, the record's stable handle.  Fails with `StoreWriteError`
/// exactly when the ledger rejects the append, leaving everything unchanged.
pub fn create_whoami(l: &mut Ledger, caller: IdentityKey, entry: Profile) -> (r: Result<
    WireEntry,
    Error,
>)
    requires
        old(l).wf(),
    ensures
        final (l).wf(),
        final (l).capacity() == old(l).capacity(),
        match r {
            Ok(w) => {
                &&& w.entry == entry
                &&& w.address.id == old(l).records().len()
                &&& old(l).records().len() < old(l).capacity()
                &&& final (l).records() == old(l).records().push(final (l).records().last())
                &&& final (l).records().last().content == spec_encode_profile(entry@)
                &&& final (l).records().last().action == w.address
                &&& mints_ok(
                    *old(l),
                    spec_encode_profile(entry@),
                    final (l).records().last().content_ref,
                )
                &&& final (l).relations() == old(l).relations()
                &&& path_root_of(final (l).paths(), agents_path_spec()) is Some
                &&& final (l).edges() == old(l).edges().push(
                    (
                        path_root_of(final (l).paths(), agents_path_spec()).unwrap(),
                        final (l).records().last().content_ref,
                    ),
                ).push((spec_identity_root(caller), final (l).records().last().content_ref))
                &&& (match path_root_of(old(l).paths(), agents_path_spec()) {
                    Some(root) => final (l).paths() == old(l).paths(),
                    None => final (l).paths() == old(l).paths().push(
                        (agents_path_spec(), path_root_of(final (l).paths(), agents_path_spec()).unwrap()),
                    ),
                })
            },
            Err(e) => {
                &&& e == Error::StoreWriteError
                &&& old(l).records().len() >= old(l).capacity()
                &&& *final (l) == *old(l)
            },
        },
{
    let bytes = entry.encode();
    match create_record(l, agents_path(), bytes, Some(caller)) {
        Ok((a, _cr)) => Ok(WireEntry { entry, address: a }),
        Err(e) => Err(e),
    }
}

/// Appends a new version of the caller's profile under the write event the
/// wire entry names, and hands the wire entry back unchanged: its address
/// stays the record's stable handle.  Fails with `NotFoundError` exactly
/// when that write event does not exist, with `StoreWriteError` exactly when
/// the ledger rejects the append; either way the ledger is unchanged.
pub fn update_whoami(l: &mut Ledger, update: WireEntry) -> (r: Result<WireEntry, Error>)
    requires
        old(l).wf(),
    ensures
        final (l).wf(),
        final (l).capacity() == old(l).capacity(),
        match r {
            Ok(w) => {
                &&& w == update
                &&& old(l).has_action(update.address)
                &&& old(l).records().len() < old(l).capacity()
                &&& final (l).records() == old(l).records().push(final (l).records().last())
                &&& final (l).records().last().content == spec_encode_profile(update.entry@)
                &&& final (l).records().last().action.id == old(l).records().len()
                &&& mints_ok(
                    *old(l),
                    spec_encode_profile(update.entry@),
                    final (l).records().last().content_ref,
                )
                &&& final (l).relations() == old(l).relations().push(
                    (update.address, final (l).records().last().action),
                )
                &&& final (l).edges() == old(l).edges()
                &&& final (l).paths() == old(l).paths()
            },
            Err(e) => {
                &&& *final (l) == *old(l)
                &&& (e == Error::NotFoundError <==> !old(l).has_action(update.address))
                &&& (e == Error::StoreWriteError <==> old(l).has_action(update.address) && old(
                    l,
                ).records().len() >= old(l).capacity())
                &&& (e == Error::NotFoundError || e == Error::StoreWriteError)
            },
        },
{
    let bytes = update.entry.encode();
    match crate::version_chain::update(l, update.address, bytes) {
        Ok(_a) => Ok(update),
        Err(e) => Err(e),
    }
}

/// The caller's own profile: the latest version behind the caller's most
/// recently attached identity edge, decoded.  The self lookup answers with
/// an absence, never an error: when the caller never attached a profile,
/// and also when the newest attachment cannot be resolved — a corrupt
/// update chain included — or does not decode, there is no profile here.
/// Chain corruption surfaces as an error where a chain is resolved
/// directly, in `resolve_latest`.
pub fn whoami(l: &Ledger, caller: IdentityKey) -> (r: WhoAmIOutput)
    requires
        l.wf(),
    ensures
        match r.0 {
            Some(w) => {
                &&& resolve_self_spec(*l, caller) is Some
                &&& spec_decode_profile(resolve_self_spec(*l, caller).unwrap().content) == Some(
                    w.entry@,
                )
                &&& w.address == resolve_self_spec(*l, caller).unwrap().action
            },
            None => resolve_self_spec(*l, caller) is None || spec_decode_profile(
                resolve_self_spec(*l, caller).unwrap().content,
            ) is None,
        },
{
    match resolve_self(l, caller) {
        None => WhoAmIOutput(None),
        Some(v) => {
            match Profile::decode(&v.content) {
                Ok(p) => WhoAmIOutput(Some(WireEntry { entry: p, address: v.action })),
                Err(_) => WhoAmIOutput(None),
            }
        },
    }
}

/// The profiles a sequence of resolved versions holds, skipping versions
/// whose bytes do not decode.
pub open spec fn decoded_profiles(vs: Seq<VersionV>) -> Seq<ProfileV>
    decreases vs.len(),
{
    if vs.len() == 0 {
        Seq::empty()
    } else {
        let rest = decoded_profiles(vs.drop_last());
        match spec_decode_profile(vs.last().content) {
            Some(p) => rest.push(p),
            None => rest,
        }
    }
}

/// Exactly what `fetch_agents` returns, as a function of the ledger state.
pub open spec fn fetch_agents_spec(l: Ledger) -> Seq<ProfileV> {
    decoded_profiles(list_records_spec(l, agents_path_spec()))
}

/// Everyone's profiles: every record listed under the shared `agents` path,
/// each resolved to its latest version and decoded; entries that cannot be
/// resolved or decoded are skipped, never an error.
pub fn fetch_agents(l: &Ledger) -> (r: AgentsOutput)
    requires
        l.wf(),
    ensures
        r.0@.map_values(|p: Profile| p@) == fetch_agents_spec(*l),
{
    let path = agents_path();
    let versions = list_records(l, &path);
    let ghost rv = list_records_spec(*l, agents_path_spec());
    let mut out: Vec<Profile> = Vec::new();
    proof {
        assert(out@.map_values(|p: Profile| p@) =~= decoded_profiles(rv.take(0)));
    }
    let mut i: usize = 0;
    while i < versions.len()
        invariant
            i <= versions@.len(),
            versions@.map_values(|v: Version| v@) == rv,
            rv.len() == versions@.len(),
            out@.map_values(|p: Profile| p@) == decoded_profiles(rv.take(i as int)),
        decreases versions@.len() - i,
    {
        let ghost pre_out = out@;
        proof {
            assert(versions@.map_values(|v: Version| v@)[i as int] == versions@[i as int]@);
            assert(rv.take(i as int + 1).drop_last() =~= rv.take(i as int));
            assert(rv.take(i as int + 1).last() == rv[i as int]);
        }
        match Profile::decode(&versions[i].content) {
            Ok(p) => {
                out.push(p);
                proof {
                    assert(out@.map_values(|p: Profile| p@) =~= pre_out.map_values(
                        |p: Profile| p@,
                    ).push(out@.last()@));
                }
            },
            Err(_) => {},
        }
        i += 1;
    }
    proof {
        assert(rv.take(rv.len() as int) =~= rv);
    }
    AgentsOutput(out)
}

/// A freshly created profile is what the identity lookup then answers.
/// After a create that attached the caller's first and only identity edge —
/// of content no record already carries, since content addressing would
/// otherwise hand the lookup the earlier record's chain — `resolve_self`
/// finds exactly the created version, and its bytes decode back to the
/// created profile, tagged with the creating write event.  With `whoami`'s
/// own contract this pins its answer: the created profile under the fresh
/// action reference.  The state premises are the `Ok` clauses of
/// `create_whoami`.
pub proof fn lemma_create_whoami_then_whoami(
    pre: Ledger,
    post: Ledger,
    caller: IdentityKey,
    p: ProfileV,
    a: ActionRef,
    cr: ContentRef,
    proot: ContentRef,
)
    requires
        pre.wf(),
        p.first_name.len() <= u64::MAX,
        p.last_name.len() <= u64::MAX,
        p.handle.len() <= u64::MAX,
        p.avatar_url.len() <= u64::MAX,
        forall|j: int|
            0 <= j < pre.records().len() ==> (#[trigger] pre.records()[j]).content
                != spec_encode_profile(p),
        forall|k: int|
            0 <= k < pre.edges().len() ==> (#[trigger] pre.edges()[k]).0 != spec_identity_root(
                caller,
            ),
        a.id == pre.records().len(),
        mints_ok(pre, spec_encode_profile(p), cr),
        proot.space == RefSpace::Path,
        post.records() == pre.records().push(
            VersionV { content: spec_encode_profile(p), content_ref: cr, action: a },
        ),
        post.relations() == pre.relations(),
        post.edges() == pre.edges().push((proot, cr)).push((spec_identity_root(caller), cr)),
    ensures
        resolve_self_spec(post, caller) == Some(
            VersionV { content: spec_encode_profile(p), content_ref: cr, action: a },
        ),
        spec_decode_profile(spec_encode_profile(p)) == Some(p),
{
    let v = VersionV { content: spec_encode_profile(p), content_ref: cr, action: a };
    let iroot = spec_identity_root(caller);
    let n = pre.records().len() as int;
    // the minted reference is fresh: no earlier record carries this content
    assert(cr.space == RefSpace::Record && cr.id as int == n);
    // the caller's root has exactly one edge: the one just attached
    let mid_edges = pre.edges().push((proot, cr));
    assert(post.edges().drop_last() =~= mid_edges);
    assert(post.edges().last() == (iroot, cr));
    assert(mid_edges.drop_last() =~= pre.edges());
    assert(mid_edges.last() == (proot, cr));
    assert(proot != iroot);
    lemma_targets_of_absent(pre.edges(), iroot);
    let ts = targets_of(post.edges(), iroot);
    assert(targets_of(mid_edges, iroot) == targets_of(pre.edges(), iroot));
    assert(ts == targets_of(mid_edges, iroot).push(cr));
    assert(ts.len() == 1 && ts.last() == cr);
    // the fresh reference's original action is the fresh write event
    assert forall|j: int| 0 <= j < n implies (#[trigger] post.records()[j]).content_ref != cr by {
        assert(post.records()[j] == pre.records()[j]);
        assert(pre.records()[j].content_ref.id as int <= j);
    }
    assert(post.records()[n] == v);
    lemma_first_action_of_at(post.records(), cr, n);
    // and that write event, untouched by any relation, resolves to itself
    lemma_create_then_resolve_latest(pre, post, spec_encode_profile(p), a, cr);
    assert(resolve_one(post, cr) == Some(v));
    lemma_profile_codec_round_trip(p);
}

/// A decodable version somewhere in a resolved listing is in the decoded
/// listing.
proof fn lemma_decoded_profiles_contains(vs: Seq<VersionV>, v: VersionV, q: ProfileV)
    requires
        vs.contains(v),
        spec_decode_profile(v.content) == Some(q),
    ensures
        decoded_profiles(vs).contains(q),
    decreases vs.len(),
{
    if vs.last() == v {
        assert(decoded_profiles(vs).last() == q);
        assert(decoded_profiles(vs).contains(q));
    } else {
        let i = choose|i: int| 0 <= i < vs.len() && vs[i] == v;
        assert(vs.drop_last()[i] == v);
        assert(vs.drop_last().contains(v));
        lemma_decoded_profiles_contains(vs.drop_last(), v, q);
        let rest = decoded_profiles(vs.drop_last());
        let j = choose|j: int| 0 <= j < rest.len() && rest[j] == q;
        assert(decoded_profiles(vs)[j] == q);
        assert(decoded_profiles(vs).contains(q));
    }
}

/// A duplicate attach never hides a profile from the shared listing: when
/// the two newest edges both join the `agents` root to the same target, and
/// that target resolves to a version whose bytes decode, the listing still
/// contains the decoded profile — and listing itself is total, never an
/// error.
pub proof fn lemma_duplicate_attach_still_listed(l: Ledger, target: ContentRef, q: ProfileV)
    requires
        path_root_of(l.paths(), agents_path_spec()) is Some,
        l.edges().len() >= 2,
        l.edges()[l.edges().len() - 1] == (
            path_root_of(l.paths(), agents_path_spec()).unwrap(),
            target,
        ),
        l.edges()[l.edges().len() - 2] == (
            path_root_of(l.paths(), agents_path_spec()).unwrap(),
            target,
        ),
        resolve_one(l, target) is Some,
        spec_decode_profile(resolve_one(l, target).unwrap().content) == Some(q),
    ensures
        fetch_agents_spec(l).contains(q),
{
    let root = path_root_of(l.paths(), agents_path_spec()).unwrap();
    let v = resolve_one(l, target).unwrap();
    crate::link_index::lemma_attach_twice_still_resolves(l, root, target, v);
    lemma_decoded_profiles_contains(crate::link_index::resolve_spec(l, root), v, q);
}

/// After a create and `n` sequential updates forming one linear chain, the
/// identity lookup answers the `n`-th update's profile, tagged with its
/// write event.  The premises are what the operation contracts leave in the
/// ledger: the relations are exactly the chain, the caller's one attachment
/// leads to the chain's first write event, and the newest version holds the
/// last update's encoding; chains longer than `MAX_HOPS` are out of this
/// statement's reach.  With `whoami`'s own contract this pins its answer.
pub proof fn lemma_updates_then_whoami(
    l: Ledger,
    caller: IdentityKey,
    acts: Seq<ActionRef>,
    pn: ProfileV,
)
    requires
        l.wf(),
        pn.first_name.len() <= u64::MAX,
        pn.last_name.len() <= u64::MAX,
        pn.handle.len() <= u64::MAX,
        pn.avatar_url.len() <= u64::MAX,
        acts.len() >= 1,
        acts.len() - 1 <= MAX_HOPS,
        l.relations().len() == acts.len() - 1,
        forall|k: int| 0 <= k < l.relations().len() ==> #[trigger] l.relations()[k] == (
            acts[k],
            acts[k + 1],
        ),
        forall|i: int, j: int| 0 <= i < j < acts.len() ==> (#[trigger] acts[i]).id < (
        #[trigger] acts[j]).id,
        l.has_action(acts[0]),
        targets_of(l.edges(), spec_identity_root(caller)).len() == 1,
        first_action_of(
            l.records(),
            targets_of(l.edges(), spec_identity_root(caller)).last(),
        ) == Some(acts[0]),
        l.version_at(acts[acts.len() - 1]).content == spec_encode_profile(pn),
    ensures
        resolve_self_spec(l, caller) == Some(l.version_at(acts[acts.len() - 1])),
        spec_decode_profile(resolve_self_spec(l, caller).unwrap().content) == Some(pn),
        resolve_self_spec(l, caller).unwrap().action == acts[acts.len() - 1],
{
    let target = targets_of(l.edges(), spec_identity_root(caller)).last();
    lemma_chain_resolves_to_newest(l, acts);
    assert(resolve_one(l, target) == Some(l.version_at(acts[acts.len() - 1])));
    assert(l.version_at(acts[acts.len() - 1]).action == acts[acts.len() - 1]);
    lemma_profile_codec_round_trip(pn);
}

} // verus!
