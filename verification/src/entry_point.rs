//! The entry-point record type: a marked doorway into a project's goal
//! tree.
//!
//! The wire carries its creation time as a 64-bit floating-point value; this
//! layer never computes on it, so it is held and framed as the value's bit
//! pattern.  The color is carried as its UTF-8 bytes.

use vstd::prelude::*;

use crate::codec::{
    field_block, le8, lemma_rd_field_of_written, lemma_rd_u64_of_written, rd_field, rd_u64,
    read_bytes_field, read_u64_at, write_bytes_field, write_u64,
};
use crate::errors::Error;
use crate::refs::{ActionRef, IdentityKey};

verus! {

broadcast use crate::codec::lemma_le8_len;

/// A doorway into the goal tree: a colored marker some agent attached to a
/// goal.
#[derive(Debug, PartialEq)]
pub struct EntryPoint {
    pub color: Vec<u8>,
    pub creator_address: IdentityKey,
    pub created_at: u64,
    pub goal_address: ActionRef,
}

/// The mathematical value of an `EntryPoint`.
pub struct EntryPointV {
    pub color: Seq<u8>,
    pub creator_address: IdentityKey,
    pub created_at: u64,
    pub goal_address: ActionRef,
}

impl View for EntryPoint {
    type V = EntryPointV;

    open spec fn view(&self) -> EntryPointV {
        EntryPointV {
            color: self.color@,
            creator_address: self.creator_address,
            created_at: self.created_at,
            goal_address: self.goal_address,
        }
    }
}

/// The stored bytes of an entry point.
pub open spec fn spec_encode_entry_point(e: EntryPointV) -> Seq<u8> {
    field_block(e.color) + le8(e.creator_address.id) + le8(e.created_at) + le8(
        e.goal_address.id as u64,
    )
}

/// The entry point stored bytes hold, the whole buffer consumed; a goal
/// address beyond the platform's reach reads as nothing.
pub open spec fn spec_decode_entry_point(b: Seq<u8>) -> Option<EntryPointV> {
    match rd_field(b, 0) {
        None => None,
        Some((color, p1)) => match rd_u64(b, p1) {
            None => None,
            Some((creator, p2)) => match rd_u64(b, p2) {
                None => None,
                Some((created_at, p3)) => match rd_u64(b, p3) {
                    None => None,
                    Some((goal, p4)) => if p4 == b.len() && goal <= usize::MAX as u64 {
                        Some(
                            EntryPointV {
                                color,
                                creator_address: IdentityKey { id: creator },
                                created_at,
                                goal_address: ActionRef { id: goal as usize },
                            },
                        )
                    } else {
                        None
                    },
                },
            },
        },
    }
}

impl EntryPoint {
    /// This entry point's stored bytes.
    pub fn encode(&self) -> (r: Vec<u8>)
        ensures
            r@ == spec_encode_entry_point(self@),
    {
        let mut buf: Vec<u8> = Vec::new();
        write_bytes_field(&mut buf, &self.color);
        write_u64(&mut buf, self.creator_address.id);
        write_u64(&mut buf, self.created_at);
        write_u64(&mut buf, self.goal_address.id as u64);
        proof {
            assert(buf@ =~= spec_encode_entry_point(self@));
        }
        buf
    }

    /// The entry point stored bytes hold, or `DeserializationError` for
    /// bytes no entry point is stored as.
    pub fn decode(b: &Vec<u8>) -> (r: Result<EntryPoint, Error>)
        ensures
            match r {
                Ok(e) => spec_decode_entry_point(b@) == Some(e@),
                Err(e) => e == Error::DeserializationError && spec_decode_entry_point(b@) is None,
            },
    {
        let (color, p1) = match read_bytes_field(b, 0) {
            Some(v) => v,
            None => {
                return Err(Error::DeserializationError);
            },
        };
        let (creator, p2) = match read_u64_at(b, p1) {
            Some(v) => v,
            None => {
                return Err(Error::DeserializationError);
            },
        };
        let (created_at, p3) = match read_u64_at(b, p2) {
            Some(v) => v,
            None => {
                return Err(Error::DeserializationError);
            },
        };
        let (goal, p4) = match read_u64_at(b, p3) {
            Some(v) => v,
            None => {
                return Err(Error::DeserializationError);
            },
        };
        if p4 != b.len() || goal > usize::MAX as u64 {
            return Err(Error::DeserializationError);
        }
        Ok(
            EntryPoint {
                color,
                creator_address: IdentityKey { id: creator },
                created_at,
                goal_address: ActionRef { id: goal as usize },
            },
        )
    }
}

/// Decoding an entry point's stored bytes gives the entry point back, for
/// every entry point whose color fits the wire's length prefix.
pub proof fn lemma_entry_point_codec_round_trip(e: EntryPointV)
    requires
        e.color.len() <= u64::MAX,
    ensures
        spec_decode_entry_point(spec_encode_entry_point(e)) == Some(e),
{
    let b = spec_encode_entry_point(e);
    let a1 = le8(e.creator_address.id) + le8(e.created_at) + le8(e.goal_address.id as u64);
    assert(b =~= Seq::<u8>::empty() + field_block(e.color) + a1);
    lemma_rd_field_of_written(Seq::<u8>::empty(), e.color, a1);
    let c1 = field_block(e.color);
    let a2 = le8(e.created_at) + le8(e.goal_address.id as u64);
    assert(b =~= c1 + le8(e.creator_address.id) + a2);
    lemma_rd_u64_of_written(c1, e.creator_address.id, a2);
    let c2 = c1 + le8(e.creator_address.id);
    let a3 = le8(e.goal_address.id as u64);
    assert(b =~= c2 + le8(e.created_at) + a3);
    lemma_rd_u64_of_written(c2, e.created_at, a3);
    let c3 = c2 + le8(e.created_at);
    assert(b =~= c3 + le8(e.goal_address.id as u64) + Seq::<u8>::empty());
    lemma_rd_u64_of_written(c3, e.goal_address.id as u64, Seq::<u8>::empty());
}

} // verus!
