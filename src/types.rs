//! Messages exchanged by validators.

use vstd::prelude::*;

verus! {

/// The two kinds of vote cast in a round.
#[derive(Clone, Copy, Debug, PartialEq, Eq, Structural)]
pub enum VoteKind {
    Prevote,
    Precommit,
}

/// A vote for a block, or for nothing (`block == None`, the nil vote).
#[derive(Clone, Copy, Debug, PartialEq, Eq, Structural)]
pub struct Vote {
    pub kind: VoteKind,
    pub height: u64,
    pub round: u64,
    pub block: Option<u64>,
    pub validator: u32,
}

/// A block proposed by the leader of a height and round.
#[derive(Clone, Copy, Debug, PartialEq, Eq, Structural)]
pub struct Proposal {
    pub height: u64,
    pub round: u64,
    pub block: u64,
    pub proposer: u32,
}

/// What a validator sends to the others.
#[derive(Clone, Copy, Debug, PartialEq, Eq, Structural)]
pub enum Message {
    Propose(Proposal),
    Cast(Vote),
}

} // verus!
