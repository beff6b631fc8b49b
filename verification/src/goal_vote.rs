//! The goal-vote record type: one agent's weighting of a goal.
//!
//! The wire carries the four weights and the timestamp as 64-bit
//! floating-point values; this layer never computes on them, so they are
//! held and framed as the values' bit patterns.

use vstd::prelude::*;

use crate::codec::{le8, lemma_rd_u64_of_written, rd_u64, read_u64_at, write_u64};
use crate::errors::Error;
use crate::refs::{ActionRef, IdentityKey};

verus! {

broadcast use crate::codec::lemma_le8_len;

/// One agent's vote on a goal: four weights and when they were cast.
#[derive(Clone, Copy, PartialEq, Eq, Structural, Debug)]
pub struct GoalVote {
    pub goal_address: ActionRef,
    pub urgency: u64,
    pub importance: u64,
    pub impact: u64,
    pub effort: u64,
    pub agent_address: IdentityKey,
    pub unix_timestamp: u64,
}

/// The stored bytes of a goal vote: seven scalars.
pub open spec fn spec_encode_goal_vote(g: GoalVote) -> Seq<u8> {
    le8(g.goal_address.id as u64) + le8(g.urgency) + le8(g.importance) + le8(g.impact) + le8(
        g.effort,
    ) + le8(g.agent_address.id) + le8(g.unix_timestamp)
}

/// The goal vote stored bytes hold, the whole buffer consumed; a goal
/// address beyond the platform's reach reads as nothing.
pub open spec fn spec_decode_goal_vote(b: Seq<u8>) -> Option<GoalVote> {
    match rd_u64(b, 0) {
        None => None,
        Some((goal, p1)) => match rd_u64(b, p1) {
            None => None,
            Some((urgency, p2)) => match rd_u64(b, p2) {
                None => None,
                Some((importance, p3)) => match rd_u64(b, p3) {
                    None => None,
                    Some((impact, p4)) => match rd_u64(b, p4) {
                        None => None,
                        Some((effort, p5)) => match rd_u64(b, p5) {
                            None => None,
                            Some((agent, p6)) => match rd_u64(b, p6) {
                                None => None,
                                Some((ts, p7)) => if p7 == b.len() && goal <= usize::MAX as u64 {
                                    Some(
                                        GoalVote {
                                            goal_address: ActionRef { id: goal as usize },
                                            urgency,
                                            importance,
                                            impact,
                                            effort,
                                            agent_address: IdentityKey { id: agent },
                                            unix_timestamp: ts,
                                        },
                                    )
                                } else {
                                    None
                                },
                            },
                        },
                    },
                },
            },
        },
    }
}

impl GoalVote {
    /// This goal vote's stored bytes.
    pub fn encode(&self) -> (r: Vec<u8>)
        ensures
            r@ == spec_encode_goal_vote(*self),
    {
        let mut buf: Vec<u8> = Vec::new();
        write_u64(&mut buf, self.goal_address.id as u64);
        write_u64(&mut buf, self.urgency);
        write_u64(&mut buf, self.importance);
        write_u64(&mut buf, self.impact);
        write_u64(&mut buf, self.effort);
        write_u64(&mut buf, self.agent_address.id);
        write_u64(&mut buf, self.unix_timestamp);
        proof {
            assert(buf@ =~= spec_encode_goal_vote(*self));
        }
        buf
    }

    /// The goal vote stored bytes hold, or `DeserializationError` for bytes
    /// no goal vote is stored as.
    pub fn decode(b: &Vec<u8>) -> (r: Result<GoalVote, Error>)
        ensures
            match r {
                Ok(g) => spec_decode_goal_vote(b@) == Some(g),
                Err(e) => e == Error::DeserializationError && spec_decode_goal_vote(b@) is None,
            },
    {
        let (goal, p1) = match read_u64_at(b, 0) {
            Some(v) => v,
            None => {
                return Err(Error::DeserializationError);
            },
        };
        let (urgency, p2) = match read_u64_at(b, p1) {
            Some(v) => v,
            None => {
                return Err(Error::DeserializationError);
            },
        };
        let (importance, p3) = match read_u64_at(b, p2) {
            Some(v) => v,
            None => {
                return Err(Error::DeserializationError);
            },
        };
        let (impact, p4) = match read_u64_at(b, p3) {
            Some(v) => v,
            None => {
                return Err(Error::DeserializationError);
            },
        };
        let (effort, p5) = match read_u64_at(b, p4) {
            Some(v) => v,
            None => {
                return Err(Error::DeserializationError);
            },
        };
        let (agent, p6) = match read_u64_at(b, p5) {
            Some(v) => v,
            None => {
                return Err(Error::DeserializationError);
            },
        };
        let (ts, p7) = match read_u64_at(b, p6) {
            Some(v) => v,
            None => {
                return Err(Error::DeserializationError);
            },
        };
        if p7 != b.len() || goal > usize::MAX as u64 {
            return Err(Error::DeserializationError);
        }
        Ok(
            GoalVote {
                goal_address: ActionRef { id: goal as usize },
                urgency,
                importance,
                impact,
                effort,
                agent_address: IdentityKey { id: agent },
                unix_timestamp: ts,
            },
        )
    }
}

/// Decoding a goal vote's stored bytes gives the goal vote back, for every
/// goal vote.
pub proof fn lemma_goal_vote_codec_round_trip(g: GoalVote)
    ensures
        spec_decode_goal_vote(spec_encode_goal_vote(g)) == Some(g),
{
    let b = spec_encode_goal_vote(g);
    let c1 = le8(g.goal_address.id as u64);
    let c2 = c1 + le8(g.urgency);
    let c3 = c2 + le8(g.importance);
    let c4 = c3 + le8(g.impact);
    let c5 = c4 + le8(g.effort);
    let c6 = c5 + le8(g.agent_address.id);
    assert(b =~= Seq::<u8>::empty() + le8(g.goal_address.id as u64) + (le8(g.urgency) + le8(
        g.importance,
    ) + le8(g.impact) + le8(g.effort) + le8(g.agent_address.id) + le8(g.unix_timestamp)));
    lemma_rd_u64_of_written(
        Seq::<u8>::empty(),
        g.goal_address.id as u64,
        le8(g.urgency) + le8(g.importance) + le8(g.impact) + le8(g.effort) + le8(
            g.agent_address.id,
        ) + le8(g.unix_timestamp),
    );
    assert(b =~= c1 + le8(g.urgency) + (le8(g.importance) + le8(g.impact) + le8(g.effort) + le8(
        g.agent_address.id,
    ) + le8(g.unix_timestamp)));
    lemma_rd_u64_of_written(
        c1,
        g.urgency,
        le8(g.importance) + le8(g.impact) + le8(g.effort) + le8(g.agent_address.id) + le8(
            g.unix_timestamp,
        ),
    );
    assert(b =~= c2 + le8(g.importance) + (le8(g.impact) + le8(g.effort) + le8(g.agent_address.id)
        + le8(g.unix_timestamp)));
    lemma_rd_u64_of_written(
        c2,
        g.importance,
        le8(g.impact) + le8(g.effort) + le8(g.agent_address.id) + le8(g.unix_timestamp),
    );
    assert(b =~= c3 + le8(g.impact) + (le8(g.effort) + le8(g.agent_address.id) + le8(
        g.unix_timestamp,
    )));
    lemma_rd_u64_of_written(
        c3,
        g.impact,
        le8(g.effort) + le8(g.agent_address.id) + le8(g.unix_timestamp),
    );
    assert(b =~= c4 + le8(g.effort) + (le8(g.agent_address.id) + le8(g.unix_timestamp)));
    lemma_rd_u64_of_written(c4, g.effort, le8(g.agent_address.id) + le8(g.unix_timestamp));
    assert(b =~= c5 + le8(g.agent_address.id) + le8(g.unix_timestamp));
    lemma_rd_u64_of_written(c5, g.agent_address.id, le8(g.unix_timestamp));
    assert(b =~= c6 + le8(g.unix_timestamp) + Seq::<u8>::empty());
    lemma_rd_u64_of_written(c6, g.unix_timestamp, Seq::<u8>::empty());
}

} // verus!
