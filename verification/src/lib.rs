//! A versioning and secondary-indexing layer over an append-only,
//! content-addressed ledger.
//!
//! The ledger only ever accepts new immutable records, yet applications want
//! logically mutable values ("profiles", "goals", "votes") with a stable
//! identity and a current value.  This crate provides:
//!
//! * `version_chain` — create / update / resolve-latest over a chain of
//!   immutable versions linked by update relations;
//! * `link_index` — attach discoverable edges from an index root to record
//!   content references, and resolve them back to live (latest) versions;
//! * `identity_index` — the same keyed by a caller's durable identity key,
//!   for "find my own record" lookups;
//! * `profile`, `entry_point`, `goal_vote` — the per-type record operations
//!   built on top of the core.
//!
//! The ledger itself is modeled by the `ledger` module as explicit in-memory
//! state, so that every operation of the layer can carry an exact contract
//! and the layer's laws can be proved; a deployment binds the same operations
//! to a real store offering the interface the model describes.

use vstd::prelude::*;

mod bytes;
mod codec;
mod entry_point;
mod errors;
mod goal_vote;
mod identity_index;
mod ledger;
mod link_index;
mod profile;
mod record_ops;
mod refs;
mod status;
mod version_chain;

pub use bytes::{bytes_eq, copy_bytes};
pub use codec::{
    field_block, from_le8, le8, lemma_le8_len, lemma_le8_roundtrip, lemma_rd_field_of_written, lemma_rd_u64_of_written,
    rd_field, rd_u64, read_bytes_field, read_u64_at, write_bytes_field, write_u64,
};
pub use status::{
    away_text, lemma_status_text_roundtrip, offline_text, online_text, status_from_text,
    status_text, Status,
};
pub use entry_point::{
    lemma_entry_point_codec_round_trip, spec_decode_entry_point, spec_encode_entry_point,
    EntryPoint, EntryPointV,
};
pub use errors::Error;
pub use goal_vote::{
    lemma_goal_vote_codec_round_trip, spec_decode_goal_vote, spec_encode_goal_vote, GoalVote,
};
pub use identity_index::{attach_self, lemma_resolve_self_unattached, resolve_self, resolve_self_spec};
pub use ledger::{
    first_action_of, last_from, lemma_first_action_of_at, mints_ok, path_root_of, targets_of,
    Ledger, Version, VersionV,
};
pub use link_index::{
    attach, lemma_attach_twice_still_resolves, resolve, resolve_one, resolve_spec, resolved_views,
};
pub use profile::{
    agents_path, agents_path_spec, create_whoami, decoded_profiles, fetch_agents,
    fetch_agents_spec, lemma_create_whoami_then_whoami, lemma_duplicate_attach_still_listed,
    lemma_profile_codec_round_trip, lemma_updates_then_whoami, spec_decode_profile,
    spec_encode_profile, update_whoami, whoami, AgentsOutput, Profile, ProfileV, WhoAmIOutput,
    WireEntry,
};
pub use record_ops::{create_record, list_records, list_records_spec};
pub use version_chain::{
    chase, create, lemma_branch_tie_break, lemma_chain_resolves_to_newest,
    lemma_create_then_resolve_latest, resolve_latest, resolve_latest_spec, update, MAX_HOPS,
};
pub use refs::{identity_root, spec_identity_root, ActionRef, ContentRef, IdentityKey, RefSpace};
