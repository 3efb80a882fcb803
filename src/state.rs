//! The consensus state, and how each log record transforms it.

use vstd::prelude::*;
use vstd::string::StringExecFns;

use crate::timeout::TimeoutStruct;
use crate::types::{Proposal, Vote, VoteKind};
use crate::wal::{WalEntry, WalRecord, WAL};

verus! {

/// Where the driver stands within a round.
#[derive(Clone, Copy, Debug, PartialEq, Eq, Structural)]
pub enum Phase {
    NewHeight,
    Propose,
    Prevote,
    Precommit,
}

/// The last block finalized, and its height.
#[derive(Clone, Copy, Debug, PartialEq, Eq, Structural)]
pub struct CommitInfo {
    pub height: u64,
    pub block: u64,
}

/// What the driver knows of the agreement, rebuilt from the log on restart.
#[derive(Clone, Copy, Debug, PartialEq, Eq, Structural)]
pub struct ConsensusState {
    pub height: u64,
    pub round: u64,
    pub phase: Phase,
    /// Block locked on by a prevote quorum certificate at this height.
    pub locked: Option<u64>,
    pub last_commit: Option<CommitInfo>,
    /// This validator's proposal in the current round, if it made one.
    pub last_proposal: Option<Proposal>,
    /// This validator's latest vote in the current round.
    pub last_vote: Option<Vote>,
}

pub open spec fn genesis() -> ConsensusState {
    ConsensusState {
        height: 0,
        round: 0,
        phase: Phase::NewHeight,
        locked: None,
        last_commit: None,
        last_proposal: None,
        last_vote: None,
    }
}

/// The height after `h`; the last height has none and stays.
pub open spec fn next_height(h: u64) -> u64 {
    if h < u64::MAX {
        (h + 1) as u64
    } else {
        h
    }
}

/// The state after the transition that `rec` records.
pub open spec fn apply_spec(s: ConsensusState, rec: WalRecord) -> ConsensusState {
    match rec.entry {
        WalEntry::Proposal(p) => ConsensusState {
            height: rec.height,
            round: rec.round,
            phase: Phase::Propose,
            last_proposal: Some(p),
            ..s
        },
        WalEntry::Vote(v) => ConsensusState {
            height: rec.height,
            round: rec.round,
            phase: if v.kind == VoteKind::Prevote {
                Phase::Prevote
            } else {
                Phase::Precommit
            },
            last_vote: Some(v),
            ..s
        },
        WalEntry::LockChange(b) => ConsensusState { locked: Some(b), ..s },
        WalEntry::Commit(b) => ConsensusState {
            height: next_height(rec.height),
            round: 0,
            phase: Phase::NewHeight,
            locked: None,
            last_commit: Some(CommitInfo { height: rec.height, block: b }),
            last_proposal: None,
            last_vote: None,
        },
        WalEntry::ViewChange => ConsensusState {
            height: rec.height,
            round: rec.round,
            phase: Phase::Propose,
            last_proposal: None,
            last_vote: None,
            ..s
        },
    }
}

/// The state that replaying `recs` in order from `s` reconstructs.
pub open spec fn replay_spec(s: ConsensusState, recs: Seq<WalRecord>) -> ConsensusState
    decreases recs.len(),
{
    if recs.len() == 0 {
        s
    } else {
        apply_spec(replay_spec(s, recs.drop_last()), recs.last())
    }
}

/// Replaying a log in two parts is replaying it whole.
pub proof fn lemma_replay_concat(s: ConsensusState, a: Seq<WalRecord>, b: Seq<WalRecord>)
    ensures
        replay_spec(s, a + b) == replay_spec(replay_spec(s, a), b),
    decreases b.len(),
{
    if b.len() == 0 {
        assert(a + b == a);
    } else {
        assert((a + b).drop_last() == a + b.drop_last());
        assert((a + b).last() == b.last());
        lemma_replay_concat(s, a, b.drop_last());
    }
}

/// Everything before a commit record is forgotten by replay.
pub proof fn lemma_replay_from_commit(
    s1: ConsensusState,
    s2: ConsensusState,
    a1: Seq<WalRecord>,
    a2: Seq<WalRecord>,
    c: WalRecord,
    b: Seq<WalRecord>,
)
    requires
        c.entry is Commit,
    ensures
        replay_spec(s1, a1.push(c) + b) == replay_spec(s2, a2.push(c) + b),
{
    lemma_replay_concat(s1, a1.push(c), b);
    lemma_replay_concat(s2, a2.push(c), b);
    assert(a1.push(c).drop_last() == a1);
    assert(a2.push(c).drop_last() == a2);
}

impl ConsensusState {
    pub fn genesis() -> (r: Self)
        ensures
            r == genesis(),
    {
        ConsensusState {
            height: 0,
            round: 0,
            phase: Phase::NewHeight,
            locked: None,
            last_commit: None,
            last_proposal: None,
            last_vote: None,
        }
    }

    /// The state after the transition that `rec` records.
    pub fn apply(&self, rec: &WalRecord) -> (r: Self)
        ensures
            r == apply_spec(*self, *rec),
    {
        match rec.entry {
            WalEntry::Proposal(p) => ConsensusState {
                height: rec.height,
                round: rec.round,
                phase: Phase::Propose,
                last_proposal: Some(p),
                ..*self
            },
            WalEntry::Vote(v) => ConsensusState {
                height: rec.height,
                round: rec.round,
                phase: match v.kind {
                    VoteKind::Prevote => Phase::Prevote,
                    VoteKind::Precommit => Phase::Precommit,
                },
                last_vote: Some(v),
                ..*self
            },
            WalEntry::LockChange(b) => ConsensusState { locked: Some(b), ..*self },
            WalEntry::Commit(b) => ConsensusState {
                height: if rec.height < u64::MAX {
                    rec.height + 1
                } else {
                    rec.height
                },
                round: 0,
                phase: Phase::NewHeight,
                locked: None,
                last_commit: Some(CommitInfo { height: rec.height, block: b }),
                last_proposal: None,
                last_vote: None,
            },
            WalEntry::ViewChange => ConsensusState {
                height: rec.height,
                round: rec.round,
                phase: Phase::Propose,
                last_proposal: None,
                last_vote: None,
                ..*self
            },
        }
    }
}

/// Replays `recs` in order from genesis.
pub fn replay(recs: &Vec<WalRecord>) -> (r: ConsensusState)
    ensures
        r == replay_spec(genesis(), recs@),
{
    let mut s = ConsensusState::genesis();
    let mut i: usize = 0;
    while i < recs.len()
        invariant
            i <= recs@.len(),
            s == replay_spec(genesis(), recs@.subrange(0, i as int)),
        decreases recs@.len() - i,
    {
        proof {
            let next = recs@.subrange(0, i as int + 1);
            assert(next.drop_last() == recs@.subrange(0, i as int));
            assert(next.last() == recs@[i as int]);
        }
        s = s.apply(&recs[i]);
        i = i + 1;
    }
    assert(recs@.subrange(0, recs@.len() as int) == recs@);
    s
}

/// Replaying one log twice gives the same state: the reconstruction
/// depends on the records alone.
pub proof fn lemma_replay_deterministic(a: Seq<WalRecord>, b: Seq<WalRecord>)
    requires
        a == b,
    ensures
        replay_spec(genesis(), a) == replay_spec(genesis(), b),
{
}

pub open spec fn digit_char(d: nat) -> char {
    if d == 0 { '0' } else if d == 1 { '1' } else if d == 2 { '2' } else if d == 3 { '3' }
    else if d == 4 { '4' } else if d == 5 { '5' } else if d == 6 { '6' } else if d == 7 { '7' }
    else if d == 8 { '8' } else { '9' }
}

/// The decimal digits of `n`.
pub open spec fn decimal_spec(n: nat) -> Seq<char>
    decreases n,
{
    if n < 10 {
        seq![digit_char(n)]
    } else {
        decimal_spec(n / 10).push(digit_char(n % 10))
    }
}

pub open spec fn phase_name(p: Phase) -> Seq<char> {
    match p {
        Phase::NewHeight => seq!['n', 'e', 'w', '-', 'h', 'e', 'i', 'g', 'h', 't'],
        Phase::Propose => seq!['p', 'r', 'o', 'p', 'o', 's', 'e'],
        Phase::Prevote => seq!['p', 'r', 'e', 'v', 'o', 't', 'e'],
        Phase::Precommit => seq!['p', 'r', 'e', 'c', 'o', 'm', 'm', 'i', 't'],
    }
}

/// `height <h> round <r> phase <name>`.
pub open spec fn info_spec(c: ConsensusState) -> Seq<char> {
    seq!['h', 'e', 'i', 'g', 'h', 't', ' '] + decimal_spec(c.height as nat) + seq![
        ' ',
        'r',
        'o',
        'u',
        'n',
        'd',
        ' ',
    ] + decimal_spec(c.round as nat) + seq![' ', 'p', 'h', 'a', 's', 'e', ' '] + phase_name(c.phase)
}

fn digit_str(d: u64) -> (r: &'static str)
    requires
        d < 10,
    ensures
        r@ == seq![digit_char(d as nat)],
{
    proof {
        reveal_strlit("0"); reveal_strlit("1"); reveal_strlit("2"); reveal_strlit("3");
        reveal_strlit("4"); reveal_strlit("5"); reveal_strlit("6"); reveal_strlit("7");
        reveal_strlit("8"); reveal_strlit("9");
    }
    if d == 0 { "0" } else if d == 1 { "1" } else if d == 2 { "2" } else if d == 3 { "3" }
    else if d == 4 { "4" } else if d == 5 { "5" } else if d == 6 { "6" } else if d == 7 { "7" }
    else if d == 8 { "8" } else { "9" }
}

/// Appends the decimal digits of `n` to `out`.
pub fn push_decimal(out: &mut String, n: u64)
    ensures
        final(out)@ == old(out)@ + decimal_spec(n as nat),
    decreases n,
{
    if n >= 10 {
        push_decimal(out, n / 10);
    }
    out.append(digit_str(n % 10));
    proof {
        if n >= 10 {
            assert(old(out)@ + decimal_spec(n as nat) == old(out)@ + decimal_spec((n / 10) as nat) + seq![digit_char((n % 10) as nat)]);
        }
    }
}

fn phase_str(p: Phase) -> (r: &'static str)
    ensures
        r@ == phase_name(p),
{
    proof {
        reveal_strlit("new-height"); reveal_strlit("propose"); reveal_strlit("prevote");
        reveal_strlit("precommit");
    }
    match p {
        Phase::NewHeight => "new-height",
        Phase::Propose => "propose",
        Phase::Prevote => "prevote",
        Phase::Precommit => "precommit",
    }
}

/// The durable part of the driver: its consensus state, the timeout of the
/// current round and the write-ahead log that the state is rebuilt from.
pub struct State {
    pub consensus: ConsensusState,
    pub timeout: TimeoutStruct,
    pub wal: WAL,
}

impl State {
    /// A one-line description of where the state stands.
    pub fn print_info(&self) -> (r: String)
        ensures
            r@ == info_spec(self.consensus),
    {
        proof {
            reveal_strlit("height "); reveal_strlit(" round "); reveal_strlit(" phase ");
        }
        let mut out = String::from_str("height ");
        push_decimal(&mut out, self.consensus.height);
        out.append(" round ");
        push_decimal(&mut out, self.consensus.round);
        out.append(" phase ");
        out.append(phase_str(self.consensus.phase));
        out
    }
}

} // verus!
