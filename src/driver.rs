//! The round state machine. It consumes one event at a time and answers
//! with the actions to perform; every message it sends and every commit it
//! announces is written to the log first.

use vstd::prelude::*;

use crate::aggregator::{lemma_tally_grows, submit_outcome, tally_spec, Aggregator, SubmitResult};
use crate::codec::{lemma_log_round_trip, log_bytes, parse_log};
use crate::quorum::{has_id, is_quorum, leader_index, leader_spec, total_power, valid_set, Validator};
use crate::recovery::consistent;
use crate::state::{apply_spec, genesis, replay, replay_spec, CommitInfo, ConsensusState, Phase, State};
use crate::timeout::{Step, TimeoutPolicy, TimeoutScheduler, TimeoutStruct, TimerHandle};
use crate::types::{Message, Proposal, Vote, VoteKind};
use crate::wal::{WalEntry, WalRecord, WAL};

verus! {

/// An input to the driver.
#[derive(Clone, Copy, Debug, PartialEq, Eq, Structural)]
pub enum Event {
    /// A proposal; `valid` says that its signature checks and that the
    /// execution layer accepts its block.
    Proposal { proposal: Proposal, valid: bool },
    /// A vote; `sig_valid` says that its signature checks.
    Vote { vote: Vote, sig_valid: bool },
    /// A timer fired.
    Timeout(TimerHandle),
}

/// What the driver asks its surroundings to do.
#[derive(Clone, Copy, Debug, PartialEq, Eq, Structural)]
pub enum Action {
    Broadcast(Message),
    /// Hand the block finalized at this height to the execution layer.
    Commit(CommitInfo),
    /// Start a timer that fires `handle` after `duration`.
    Arm { handle: TimerHandle, duration: u64 },
    /// A new round or height began: call `start_round` with a candidate block.
    EnterRound { height: u64, round: u64 },
    /// View changes at this height are exhausted: recover from the log.
    Escalate,
    /// The log failed; the driver stopped.
    Halt,
}

/// `a` was preceded by the log record that makes it recoverable.
pub open spec fn logged(recs: Seq<WalRecord>, a: Action) -> bool {
    match a {
        Action::Broadcast(Message::Cast(v)) => exists|i: int|
            0 <= i < recs.len() && (#[trigger] recs[i]).entry == WalEntry::Vote(v),
        Action::Broadcast(Message::Propose(p)) => exists|i: int|
            0 <= i < recs.len() && (#[trigger] recs[i]).entry == WalEntry::Proposal(p),
        Action::Commit(c) => exists|i: int|
            0 <= i < recs.len() && (#[trigger] recs[i]).entry == WalEntry::Commit(c.block)
                && recs[i].height == c.height,
        _ => true,
    }
}

pub open spec fn all_logged(recs: Seq<WalRecord>, acts: Seq<Action>) -> bool {
    forall|k: int| 0 <= k < acts.len() ==> logged(recs, #[trigger] acts[k])
}

pub open spec fn extends(old: Seq<WalRecord>, new: Seq<WalRecord>) -> bool {
    old.len() <= new.len() && new.subrange(0, old.len() as int) == old
}

/// One event moves the driver by at most one round, or to round 0 of the
/// next height.
pub open spec fn advances(o: ConsensusState, n: ConsensusState) -> bool {
    ||| (n.height == o.height && (n.round == o.round || n.round == o.round + 1))
    ||| (n.height == o.height + 1 && n.round == 0)
}

/// Every commit announced is backed by a precommit quorum for its block.
pub open spec fn commits_justified(agg: Aggregator, acts: Seq<Action>) -> bool {
    forall|k: int|
        0 <= k < acts.len() && (#[trigger] acts[k]) is Commit ==> exists|r: u64|
            is_quorum(
                #[trigger] agg.tally_of(acts[k]->Commit_0.height, r, VoteKind::Precommit, Some(acts[k]->Commit_0.block)),
                total_power(agg.vals()),
            )
}

proof fn lemma_logged_extend(r1: Seq<WalRecord>, r2: Seq<WalRecord>, acts: Seq<Action>)
    requires
        extends(r1, r2),
        all_logged(r1, acts),
    ensures
        all_logged(r2, acts),
{
    assert forall|k: int| 0 <= k < acts.len() implies logged(r2, #[trigger] acts[k]) by {
        assert(logged(r1, acts[k]));
        match acts[k] {
            Action::Broadcast(Message::Cast(v)) => {
                let i = choose|i: int| 0 <= i < r1.len() && (#[trigger] r1[i]).entry == WalEntry::Vote(v);
                assert(r2[i] == r1[i]);
            },
            Action::Broadcast(Message::Propose(p)) => {
                let i = choose|i: int|
                    0 <= i < r1.len() && (#[trigger] r1[i]).entry == WalEntry::Proposal(p);
                assert(r2[i] == r1[i]);
            },
            Action::Commit(c) => {
                let i = choose|i: int|
                    0 <= i < r1.len() && (#[trigger] r1[i]).entry == WalEntry::Commit(c.block)
                        && r1[i].height == c.height;
                assert(r2[i] == r1[i]);
            },
            _ => {},
        }
    }
}

proof fn lemma_contains_kept(a: Seq<Action>, b: Seq<Action>, x: Action)
    requires
        keeps_prefix(a, b),
        a.contains(x),
    ensures
        b.contains(x),
{
    let i = choose|i: int| 0 <= i < a.len() && a[i] == x;
    assert(b[i] == b.subrange(0, a.len() as int)[i]);
}

/// This validator's vote of `kind` for `block` at `height` and `round`.
pub open spec fn own_vote(me: u32, kind: VoteKind, height: u64, round: u64, block: Option<u64>) -> Action {
    Action::Broadcast(Message::Cast(Vote { kind, height, round, block, validator: me }))
}

/// `b` holds the votes of `a`, in order, then possibly more.
pub open spec fn votes_grow(a: Seq<Vote>, b: Seq<Vote>) -> bool {
    a.len() <= b.len() && forall|i: int| 0 <= i < a.len() ==> #[trigger] b[i] == a[i]
}

proof fn lemma_extends_trans(a: Seq<WalRecord>, b: Seq<WalRecord>, c: Seq<WalRecord>)
    requires
        extends(a, b),
        extends(b, c),
    ensures
        extends(a, c),
{
    assert(c.subrange(0, a.len() as int) == b.subrange(0, a.len() as int));
}

pub open spec fn no_commits(acts: Seq<Action>) -> bool {
    forall|k: int| 0 <= k < acts.len() ==> !((#[trigger] acts[k]) is Commit)
}

pub open spec fn same_round(o: ConsensusState, n: ConsensusState) -> bool {
    n.height == o.height && n.round == o.round
}

pub open spec fn keeps_prefix(o: Seq<Action>, n: Seq<Action>) -> bool {
    o.len() <= n.len() && n.subrange(0, o.len() as int) == o
}

/// `n` records a commit at the height of `o`, backed by a precommit
/// quorum of the round `o` was in.
pub open spec fn committed_at(agg: Aggregator, n: ConsensusState, o: ConsensusState) -> bool {
    match n.last_commit {
        Some(c) => c.height == o.height && is_quorum(
            agg.tally_of(c.height, o.round, VoteKind::Precommit, Some(c.block)),
            total_power(agg.vals()),
        ),
        None => false,
    }
}

/// Whether validator `me` leads round `round` at height `height`.
pub open spec fn is_leader(vals: Seq<Validator>, height: u64, round: u64, me: u32) -> bool {
    vals.len() > 0 && vals[leader_spec(height, round, vals.len())].id == me
}

/// The block a validator prevotes for on a valid proposal of `block`: the
/// block itself unless it is locked on another one, then nil.
pub open spec fn prevote_choice(locked: Option<u64>, block: u64) -> Option<u64> {
    match locked {
        None => Some(block),
        Some(l) => if l == block {
            Some(block)
        } else {
            None
        },
    }
}

proof fn lemma_own_messages_logged(recs: Seq<WalRecord>)
    ensures
        replay_spec(genesis(), recs).last_vote matches Some(v) ==> exists|i: int|
            0 <= i < recs.len() && (#[trigger] recs[i]).entry == WalEntry::Vote(v),
        replay_spec(genesis(), recs).last_proposal matches Some(p) ==> exists|i: int|
            0 <= i < recs.len() && (#[trigger] recs[i]).entry == WalEntry::Proposal(p),
    decreases recs.len(),
{
    if recs.len() > 0 {
        let rest = recs.drop_last();
        lemma_own_messages_logged(rest);
        if let Some(v) = replay_spec(genesis(), rest).last_vote {
            if exists|i: int| 0 <= i < rest.len() && (#[trigger] rest[i]).entry == WalEntry::Vote(v) {
                let i = choose|i: int| 0 <= i < rest.len() && (#[trigger] rest[i]).entry == WalEntry::Vote(v);
                assert(recs[i] == rest[i]);
            }
        }
        if let Some(p) = replay_spec(genesis(), rest).last_proposal {
            if exists|i: int| 0 <= i < rest.len() && (#[trigger] rest[i]).entry == WalEntry::Proposal(p) {
                let i = choose|i: int| 0 <= i < rest.len() && (#[trigger] rest[i]).entry == WalEntry::Proposal(p);
                assert(recs[i] == rest[i]);
            }
        }
        assert(recs[recs.len() - 1] == recs.last());
    }
}

/// The precommit for a block that `a` sends, if it sends one.
pub open spec fn sent_precommit(a: Action) -> Option<Vote> {
    match a {
        Action::Broadcast(Message::Cast(v)) => if v.kind == VoteKind::Precommit && v.block is Some {
            Some(v)
        } else {
            None
        },
        _ => None,
    }
}

/// Every precommit for a block that is sent is backed by a prevote quorum
/// for that block in its height and round.
pub open spec fn precommits_justified(agg: Aggregator, acts: Seq<Action>) -> bool {
    forall|k: int|
        0 <= k < acts.len() && (#[trigger] sent_precommit(acts[k])) is Some ==> is_quorum(
            agg.tally_of(
                sent_precommit(acts[k])->Some_0.height,
                sent_precommit(acts[k])->Some_0.round,
                VoteKind::Prevote,
                sent_precommit(acts[k])->Some_0.block,
            ),
            total_power(agg.vals()),
        )
}

/// The proposal that `a` sends, if it sends one.
pub open spec fn sent_proposal(a: Action) -> Option<Proposal> {
    match a {
        Action::Broadcast(Message::Propose(p)) => Some(p),
        _ => None,
    }
}

/// Every proposal sent is this validator's own, for a round it leads.
pub open spec fn proposes_as_leader(vals: Seq<Validator>, me: u32, acts: Seq<Action>) -> bool {
    forall|k: int|
        0 <= k < acts.len() && (#[trigger] sent_proposal(acts[k])) is Some ==> sent_proposal(
            acts[k],
        )->Some_0.proposer == me && is_leader(
            vals,
            sent_proposal(acts[k])->Some_0.height,
            sent_proposal(acts[k])->Some_0.round,
            me,
        )
}

/// The votes a restored driver holds: its own latest vote, when it is a
/// member of the set.
pub open spec fn counted_on_restart(last_vote: Option<Vote>, vals: Seq<Validator>) -> Seq<Vote> {
    match last_vote {
        Some(v) => if has_id(vals, v.validator) {
            seq![v]
        } else {
            Seq::empty()
        },
        None => Seq::empty(),
    }
}

/// The timer that guards `phase`.
pub open spec fn step_of(phase: Phase) -> Step {
    match phase {
        Phase::NewHeight | Phase::Propose => Step::Propose,
        Phase::Prevote => Step::Prevote,
        Phase::Precommit => Step::Precommit,
    }
}

/// `taken` is a proposal for the height and round of `p`.
pub open spec fn same_slot(taken: Option<Proposal>, p: Proposal) -> bool {
    match taken {
        Some(q) => q.height == p.height && q.round == p.round,
        None => false,
    }
}

/// The validator's engine: consensus state, log, votes and timers.
pub struct Driver {
    state: State,
    me: u32,
    agg: Aggregator,
    timers: TimeoutScheduler,
    policy: TimeoutPolicy,
    vc_retry_times: u64,
    vc_streak: u64,
    halted: bool,
    /// The proposal acted on in the latest round that took one.
    taken: Option<Proposal>,
    /// Conflicting proposals of one leader for one height and round: the
    /// one acted on, then the other.
    proposal_evidence: Vec<(Proposal, Proposal)>,
}

impl Driver {
    pub closed spec fn cs(&self) -> ConsensusState {
        self.state.consensus
    }

    pub closed spec fn log(&self) -> Seq<WalRecord> {
        self.state.wal.records_view()
    }

    pub closed spec fn aggregator(&self) -> Aggregator {
        self.agg
    }

    pub closed spec fn taken_view(&self) -> Option<Proposal> {
        self.taken
    }

    pub closed spec fn proposal_evidence_view(&self) -> Seq<(Proposal, Proposal)> {
        self.proposal_evidence@
    }

    pub closed spec fn is_halted(&self) -> bool {
        self.halted
    }

    pub closed spec fn identity(&self) -> u32 {
        self.me
    }

    /// Consecutive view changes at the current height.
    pub closed spec fn streak(&self) -> u64 {
        self.vc_streak
    }

    pub closed spec fn retry_limit(&self) -> u64 {
        self.vc_retry_times
    }

    /// Not halted, with `n` log records left to append and neither height
    /// nor round at its last value: an event needing at most `n` records
    /// is handled without halting.
    pub open spec fn room(&self, n: nat) -> bool {
        !self.is_halted() && self.seq_left() >= n && self.cs().height < u64::MAX && self.cs().round
            < u64::MAX
    }

    /// Log records that can still be appended.
    pub closed spec fn seq_left(&self) -> nat {
        (u64::MAX - self.state.wal.next_seq_view()) as nat
    }

    pub closed spec fn policy_view(&self) -> TimeoutPolicy {
        self.policy
    }

    pub closed spec fn live_timer(&self) -> Option<TimerHandle> {
        self.timers.live()
    }

    /// What every event handler keeps: the state is still what the log
    /// replays to, the log only grows, every message and commit was logged
    /// first, every commit is backed by a precommit quorum and every
    /// precommit for a block by a prevote quorum, and the driver moves by
    /// at most one round or to round 0 of the next height, the round
    /// changing only by a view change; the only proposals sent are this
    /// validator's own, for rounds it leads. A halted driver does nothing.
    pub open spec fn step_post(&self, o: &Driver, acts: Seq<Action>) -> bool {
        &&& self.resume_post(o, acts)
        &&& precommits_justified(self.aggregator(), acts)
        &&& proposes_as_leader(self.aggregator().vals(), self.identity(), acts)
    }

    /// What `step_post` says but for the backing of precommits: a driver
    /// rebuilt from its log sends again a precommit whose prevote quorum
    /// it held before the restart.
    pub open spec fn resume_post(&self, o: &Driver, acts: Seq<Action>) -> bool {
        &&& self.wf()
        &&& self.identity() == o.identity()
        &&& self.aggregator().vals() == o.aggregator().vals()
        &&& self.retry_limit() == o.retry_limit()
        &&& extends(o.log(), self.log())
        &&& all_logged(self.log(), acts)
        &&& commits_justified(self.aggregator(), acts)
        &&& advances(o.cs(), self.cs())
        &&& self.cs().height != o.cs().height ==> self.cs().height == o.cs().height + 1
            && self.cs().round == 0 && committed_at(self.aggregator(), self.cs(), o.cs())
        &&& self.cs().height == o.cs().height && self.cs().round != o.cs().round
            ==> self.cs().phase == Phase::Propose
        &&& o.is_halted() ==> *self == *o && acts.len() == 0
    }

    /// The consensus state is exactly what replaying the log gives.
    pub closed spec fn wf(&self) -> bool {
        &&& self.state.wal.wf()
        &&& self.state.consensus == replay_spec(genesis(), self.state.wal.records_view())
        &&& self.state.wal.last_height() <= self.state.consensus.height
        &&& self.agg.wf()
        &&& self.policy.valid()
    }

    spec fn same_parts(&self, o: &Driver) -> bool {
        &&& self.taken == o.taken
        &&& self.proposal_evidence == o.proposal_evidence
        &&& self.me == o.me
        &&& self.policy == o.policy
        &&& self.vc_retry_times == o.vc_retry_times
        &&& self.state.wal.fd_view() == o.state.wal.fd_view()
        &&& self.agg.vals() == o.agg.vals()
    }

    /// Writes a record at the current height, then applies it. A failed
    /// write halts the driver.
    fn record(&mut self, round: u64, entry: WalEntry) -> (ok: bool)
        requires
            old(self).wf(),
        ensures
            final(self).wf(),
            final(self).same_parts(old(self)),
            final(self).agg == old(self).agg,
            final(self).timers == old(self).timers,
            final(self).vc_streak == old(self).vc_streak,
            final(self).state.timeout == old(self).state.timeout,
            ok ==> final(self).halted == old(self).halted,
            ok ==> final(self).log().len() == old(self).log().len() + 1
                && final(self).log().drop_last() == old(self).log()
                && final(self).log().last().height == old(self).cs().height
                && final(self).log().last().round == round
                && final(self).log().last().entry == entry
                && final(self).cs() == apply_spec(old(self).cs(), final(self).log().last()),
            !ok ==> final(self).halted && final(self).log() == old(self).log()
                && final(self).cs() == old(self).cs(),
            extends(old(self).log(), final(self).log()),
            ok <==> old(self).seq_left() > 0,
            ok ==> final(self).seq_left() == old(self).seq_left() - 1,
            !ok ==> final(self).seq_left() == old(self).seq_left(),
    {
        let height = self.state.consensus.height;
        match self.state.wal.append(height, round, entry) {
            Ok(seq) => {
                let rec = WalRecord { seq, height, round, entry };
                self.state.consensus = self.state.consensus.apply(&rec);
                proof {
                    let recs = self.state.wal.records_view();
                    assert(recs.drop_last() == old(self).log());
                    assert(recs.subrange(0, old(self).log().len() as int) == old(self).log());
                }
                true
            },
            Err(_) => {
                self.halted = true;
                assert(self.log().subrange(0, old(self).log().len() as int) == old(self).log());
                false
            },
        }
    }

    /// Cancels the live timer and arms the one for `step` of the current round.
    fn rearm(&mut self, step: Step) -> (a: Action)
        requires
            old(self).wf(),
        ensures
            final(self).wf(),
            final(self).same_parts(old(self)),
            final(self).agg == old(self).agg,
            final(self).state.consensus == old(self).state.consensus,
            final(self).log() == old(self).log(),
            final(self).halted == old(self).halted,
            final(self).vc_streak == old(self).vc_streak,
            final(self).timers.live() == Some(
                TimerHandle { height: old(self).cs().height, round: old(self).cs().round, step },
            ),
            final(self).state.wal == old(self).state.wal,
            a == (Action::Arm {
                handle: TimerHandle { height: old(self).cs().height, round: old(self).cs().round, step },
                duration: old(self).policy.duration_spec(old(self).cs().round as nat) as u64,
            }),
    {
        let _ = self.timers.cancel();
        let h = self.state.consensus.height;
        let r = self.state.consensus.round;
        let handle = self.timers.arm(h, r, step);
        let duration = self.policy.duration(r);
        self.state.timeout = TimeoutStruct { height: h, round: r, duration };
        Action::Arm { handle, duration }
    }

    /// The bookkeeping that every step keeps.
    spec fn moved(&self, o: &Driver, oa: Seq<Action>, na: Seq<Action>) -> bool {
        &&& self.wf()
        &&& self.same_parts(o)
        &&& extends(o.log(), self.log())
        &&& keeps_prefix(oa, na)
        &&& all_logged(self.log(), na)
        &&& precommits_justified(self.agg, na)
        &&& proposes_as_leader(self.agg.vals(), self.me, na)
        &&& votes_grow(o.agg.accepted(), self.agg.accepted())
    }

    /// Casts this validator's vote of `kind` for `block` in the current
    /// round: logs it, counts it, sends it and arms the next timer.
    fn cast(&mut self, kind: VoteKind, block: Option<u64>, acts: &mut Vec<Action>)
        requires
            old(self).wf(),
            !old(self).halted,
            all_logged(old(self).log(), old(acts)@),
            precommits_justified(old(self).agg, old(acts)@),
            proposes_as_leader(old(self).agg.vals(), old(self).me, old(acts)@),
            kind == VoteKind::Precommit && block is Some ==> is_quorum(
                old(self).agg.tally_of(old(self).cs().height, old(self).cs().round, VoteKind::Prevote, block),
                total_power(old(self).agg.vals()),
            ),
            no_commits(old(acts)@),
        ensures
            final(self).moved(old(self), old(acts)@, final(acts)@),
            no_commits(final(acts)@),
            same_round(old(self).cs(), final(self).cs()),
            final(self).vc_streak == old(self).vc_streak,
            final(acts)@.len() > old(acts)@.len(),
            !final(self).halted ==> final(acts)@[old(acts)@.len() as int] == Action::Broadcast(
                Message::Cast(
                    Vote {
                        kind,
                        height: old(self).cs().height,
                        round: old(self).cs().round,
                        block,
                        validator: old(self).me,
                    },
                ),
            ) && final(self).cs().phase == (if kind == VoteKind::Prevote {
                Phase::Prevote
            } else {
                Phase::Precommit
            }),
            old(self).seq_left() > 0 ==> !final(self).halted && final(self).seq_left() == old(self).seq_left() - 1,
            final(self).cs().locked == old(self).cs().locked,
    {
        let h = self.state.consensus.height;
        let r = self.state.consensus.round;
        let vote = Vote { kind, height: h, round: r, block, validator: self.me };
        let ghost acts0 = acts@;
        if !self.record(r, WalEntry::Vote(vote)) {
            acts.push(Action::Halt);
            proof {
                assert(acts@.subrange(0, acts0.len() as int) == acts0);
                assert(forall|k: int| 0 <= k < acts0.len() ==> acts@[k] == acts0[k]);
            }
            return;
        }
        proof {
            lemma_logged_extend(old(self).log(), self.log(), acts0);
        }
        let ghost agg0 = self.agg;
        let _ = self.agg.submit(vote, true);
        proof {
            assert(self.agg.accepted().subrange(0, agg0.accepted().len() as int) == agg0.accepted());
        }
        acts.push(Action::Broadcast(Message::Cast(vote)));
        proof {
            let i = self.log().len() - 1;
            assert(self.log()[i].entry == WalEntry::Vote(vote));
            assert(logged(self.log(), Action::Broadcast(Message::Cast(vote))));
        }
        let step = match kind {
            VoteKind::Prevote => Step::Prevote,
            VoteKind::Precommit => Step::Precommit,
        };
        let a = self.rearm(step);
        acts.push(a);
        proof {
            assert(acts@.subrange(0, acts0.len() as int) == acts0);
            assert(forall|k: int| 0 <= k < acts0.len() ==> acts@[k] == acts0[k]);
            assert forall|k: int|
                0 <= k < acts@.len() && (#[trigger] sent_precommit(acts@[k])) is Some implies is_quorum(
                self.agg.tally_of(
                    sent_precommit(acts@[k])->Some_0.height,
                    sent_precommit(acts@[k])->Some_0.round,
                    VoteKind::Prevote,
                    sent_precommit(acts@[k])->Some_0.block,
                ),
                total_power(self.agg.vals()),
            ) by {
                let v = sent_precommit(acts@[k])->Some_0;
                lemma_tally_grows(
                    agg0.vals(),
                    agg0.accepted(),
                    self.agg.accepted(),
                    v.height,
                    v.round,
                    VoteKind::Prevote,
                    v.block,
                );
                if k < acts0.len() {
                    assert(acts@[k] == acts0[k]);
                }
            }
        }
    }
    /// Acts on a prevote quorum of the current round: locks on its block
    /// and precommits it, or precommits nil for a nil quorum.
    fn on_prevote_quorum(&mut self, acts: &mut Vec<Action>)
        requires
            old(self).wf(),
            !old(self).halted,
            all_logged(old(self).log(), old(acts)@),
            precommits_justified(old(self).agg, old(acts)@),
            proposes_as_leader(old(self).agg.vals(), old(self).me, old(acts)@),
            no_commits(old(acts)@),
        ensures
            final(self).moved(old(self), old(acts)@, final(acts)@),
            no_commits(final(acts)@),
            same_round(old(self).cs(), final(self).cs()),
            final(self).vc_streak == old(self).vc_streak,
            !final(self).halted && final(self).cs().phase != Phase::Precommit ==> final(self).cs()
                == old(self).cs() && final(self).timers == old(self).timers,
            old(self).seq_left() >= 2 ==> !final(self).halted && final(self).seq_left() >= old(self).seq_left() - 2,
            forall|b: u64| #[trigger] is_quorum(
                old(self).agg.tally_of(old(self).cs().height, old(self).cs().round, VoteKind::Prevote, Some(b)),
                total_power(old(self).agg.vals()),
            ) && old(self).seq_left() >= 2 ==> final(self).cs().locked == Some(b) && final(acts)@.contains(
                Action::Broadcast(Message::Cast(Vote {
                    kind: VoteKind::Precommit,
                    height: old(self).cs().height,
                    round: old(self).cs().round,
                    block: Some(b),
                    validator: old(self).me,
                })),
            ),
            is_quorum(
                old(self).agg.tally_of(old(self).cs().height, old(self).cs().round, VoteKind::Prevote, None),
                total_power(old(self).agg.vals()),
            ) && old(self).seq_left() >= 1 ==> final(acts)@.contains(
                Action::Broadcast(Message::Cast(Vote {
                    kind: VoteKind::Precommit,
                    height: old(self).cs().height,
                    round: old(self).cs().round,
                    block: None,
                    validator: old(self).me,
                })),
            ),
    {
        let h = self.state.consensus.height;
        let r = self.state.consensus.round;
        let ghost acts0 = acts@;
        match self.agg.quorum_reached(h, r, VoteKind::Prevote) {
            Some(Some(b)) => {
                if !self.record(r, WalEntry::LockChange(b)) {
                    acts.push(Action::Halt);
                    proof {
                        assert(acts@.subrange(0, acts0.len() as int) == acts0);
                        assert(forall|k: int| 0 <= k < acts0.len() ==> acts@[k] == acts0[k]);
                    }
                    return;
                }
                proof {
                    lemma_logged_extend(old(self).log(), self.log(), acts0);
                }
                let ghost mid = *self;
                self.cast(VoteKind::Precommit, Some(b), acts);
                proof {
                    lemma_extends_trans(old(self).log(), mid.log(), self.log());
                }
            },
            Some(None) => {
                self.cast(VoteKind::Precommit, None, acts);
            },
            None => {
                assert(acts@.subrange(0, acts0.len() as int) == acts0);
                assert(extends(old(self).log(), self.log())) by {
                    assert(self.log().subrange(0, self.log().len() as int) == self.log());
                }
            },
        }
    }

    /// Abandons the current round for the next one, unless the view
    /// changes at this height are exhausted, which asks for recovery.
    fn view_change(&mut self, acts: &mut Vec<Action>)
        requires
            old(self).wf(),
            !old(self).halted,
            all_logged(old(self).log(), old(acts)@),
            precommits_justified(old(self).agg, old(acts)@),
            proposes_as_leader(old(self).agg.vals(), old(self).me, old(acts)@),
            no_commits(old(acts)@),
        ensures
            final(self).moved(old(self), old(acts)@, final(acts)@),
            no_commits(final(acts)@),
            final(self).agg == old(self).agg,
            old(self).vc_streak >= old(self).vc_retry_times ==> final(self).cs() == old(self).cs()
                && final(acts)@ == old(acts)@.push(Action::Escalate),
            old(self).vc_streak < old(self).vc_retry_times && !final(self).halted ==> final(self).cs().height == old(self).cs().height && final(self).cs().round == old(self).cs().round
                + 1 && final(self).cs().phase == Phase::Propose && final(self).vc_streak == old(self).vc_streak + 1,
            final(self).cs().height == old(self).cs().height,
            final(self).cs().round == old(self).cs().round || final(self).cs().round == old(self).cs().round + 1,
            final(self).cs().round != old(self).cs().round ==> final(self).cs().phase == Phase::Propose,
            !final(self).halted && same_round(old(self).cs(), final(self).cs()) ==> final(self).cs()
                == old(self).cs() && final(self).timers == old(self).timers,
            final(self).cs().locked == old(self).cs().locked,
            old(self).seq_left() > 0 && old(self).cs().round < u64::MAX ==> !final(self).halted
                && final(self).seq_left() >= old(self).seq_left() - 1,
            old(self).seq_left() > 0 && old(self).cs().round < u64::MAX && old(self).vc_streak < old(self).vc_retry_times
                ==> final(acts)@ == old(acts)@.push(Action::EnterRound { height: old(self).cs().height, round: (old(self).cs().round + 1) as u64 })
                && final(self).log().last().entry == WalEntry::ViewChange
                && final(self).log().last().height == old(self).cs().height
                && final(self).log().last().round == old(self).cs().round + 1,
    {
        let ghost acts0 = acts@;
        if self.vc_streak >= self.vc_retry_times {
            acts.push(Action::Escalate);
            proof {
                assert(acts@.subrange(0, acts0.len() as int) == acts0);
                assert(forall|k: int| 0 <= k < acts0.len() ==> acts@[k] == acts0[k]);
                assert(self.log().subrange(0, self.log().len() as int) == self.log());
            }
            return;
        }
        let h = self.state.consensus.height;
        let r = self.state.consensus.round;
        if r == u64::MAX {
            self.halted = true;
            acts.push(Action::Halt);
            proof {
                assert(acts@.subrange(0, acts0.len() as int) == acts0);
                assert(forall|k: int| 0 <= k < acts0.len() ==> acts@[k] == acts0[k]);
                assert(self.log().subrange(0, self.log().len() as int) == self.log());
            }
            return;
        }
        if !self.record(r + 1, WalEntry::ViewChange) {
            acts.push(Action::Halt);
            proof {
                assert(acts@.subrange(0, acts0.len() as int) == acts0);
                assert(forall|k: int| 0 <= k < acts0.len() ==> acts@[k] == acts0[k]);
            }
            return;
        }
        proof {
            lemma_logged_extend(old(self).log(), self.log(), acts0);
        }
        self.vc_streak = self.vc_streak + 1;
        let _ = self.timers.cancel();
        acts.push(Action::EnterRound { height: h, round: r + 1 });
        proof {
            assert(acts@.subrange(0, acts0.len() as int) == acts0);
            assert(forall|k: int| 0 <= k < acts0.len() ==> acts@[k] == acts0[k]);
        }
    }

    /// Acts on a precommit quorum of the current round: commits its block
    /// and moves to the next height, or changes view for a nil quorum.
    #[verifier::rlimit(60)]
    fn try_commit(&mut self, acts: &mut Vec<Action>)
        requires
            old(self).wf(),
            !old(self).halted,
            all_logged(old(self).log(), old(acts)@),
            precommits_justified(old(self).agg, old(acts)@),
            proposes_as_leader(old(self).agg.vals(), old(self).me, old(acts)@),
            no_commits(old(acts)@),
        ensures
            final(self).moved(old(self), old(acts)@, final(acts)@),
            commits_justified(final(self).agg, final(acts)@),
            final(self).agg == old(self).agg,
            advances(old(self).cs(), final(self).cs()),
            final(self).cs().height != old(self).cs().height ==> final(self).cs().height == old(self).cs().height + 1
                && final(self).cs().round == 0 && committed_at(final(self).agg, final(self).cs(), old(self).cs()),
            final(self).cs().height == old(self).cs().height && final(self).cs().round != old(self).cs().round ==> final(self).cs().phase == Phase::Propose,
            !final(self).halted && same_round(old(self).cs(), final(self).cs()) ==> final(self).cs()
                == old(self).cs() && final(self).timers == old(self).timers,
            final(self).cs().height == old(self).cs().height ==> final(self).cs().locked == old(self).cs().locked,
            old(self).seq_left() > 0 && old(self).cs().height < u64::MAX && old(self).cs().round < u64::MAX
                ==> !final(self).halted && final(self).seq_left() >= old(self).seq_left() - 1,
            forall|b: u64| #[trigger] is_quorum(
                old(self).agg.tally_of(old(self).cs().height, old(self).cs().round, VoteKind::Precommit, Some(b)),
                total_power(old(self).agg.vals()),
            ) && old(self).seq_left() > 0 && old(self).cs().height < u64::MAX ==> final(self).cs().height
                == old(self).cs().height + 1 && final(self).cs().round == 0
                && final(self).cs().last_commit == Some(CommitInfo { height: old(self).cs().height, block: b })
                && final(acts)@.contains(Action::Commit(CommitInfo { height: old(self).cs().height, block: b })),
            is_quorum(
                old(self).agg.tally_of(old(self).cs().height, old(self).cs().round, VoteKind::Precommit, None),
                total_power(old(self).agg.vals()),
            ) && old(self).seq_left() > 0 && old(self).cs().round < u64::MAX && old(self).vc_streak
                < old(self).vc_retry_times ==> final(self).cs().height == old(self).cs().height
                && final(self).cs().round == old(self).cs().round + 1,
    {
        let h = self.state.consensus.height;
        let r = self.state.consensus.round;
        let ghost acts0 = acts@;
        match self.agg.quorum_reached(h, r, VoteKind::Precommit) {
            Some(Some(b)) => {
                if h == u64::MAX {
                    self.halted = true;
                    acts.push(Action::Halt);
                    proof {
                        assert(acts@.subrange(0, acts0.len() as int) == acts0);
                        assert(forall|k: int| 0 <= k < acts0.len() ==> acts@[k] == acts0[k]);
                        assert(self.log().subrange(0, self.log().len() as int) == self.log());
                    }
                    return;
                }
                if !self.record(r, WalEntry::Commit(b)) {
                    acts.push(Action::Halt);
                    proof {
                        assert(acts@.subrange(0, acts0.len() as int) == acts0);
                        assert(forall|k: int| 0 <= k < acts0.len() ==> acts@[k] == acts0[k]);
                    }
                    return;
                }
                proof {
                    lemma_logged_extend(old(self).log(), self.log(), acts0);
                }
                let _ = self.timers.cancel();
                self.vc_streak = 0;
                let c = CommitInfo { height: h, block: b };
                acts.push(Action::Commit(c));
                proof {
                    let i = self.log().len() - 1;
                    assert(self.log()[i].entry == WalEntry::Commit(b) && self.log()[i].height == h);
                    assert(logged(self.log(), Action::Commit(c)));
                }
                acts.push(Action::EnterRound { height: h + 1, round: 0 });
                proof {
                    assert(acts@.subrange(0, acts0.len() as int) == acts0);
                    assert(forall|k: int| 0 <= k < acts0.len() ==> acts@[k] == acts0[k]);
                    assert forall|k: int|
                        0 <= k < acts@.len() && (#[trigger] acts@[k]) is Commit implies exists|r2: u64|
                        is_quorum(
                            #[trigger] self.agg.tally_of(acts@[k]->Commit_0.height, r2, VoteKind::Precommit, Some(acts@[k]->Commit_0.block)),
                            total_power(self.agg.vals()),
                        ) by {
                        assert(k == acts0.len());
                        assert(is_quorum(self.agg.tally_of(h, r, VoteKind::Precommit, Some(b)), total_power(self.agg.vals())));
                    }
                    assert(acts@[acts0.len() as int] == Action::Commit(c));
                    assert forall|b2: u64| #[trigger] is_quorum(
                        old(self).agg.tally_of(h, r, VoteKind::Precommit, Some(b2)),
                        total_power(old(self).agg.vals()),
                    ) implies b2 == b by {
                        assert(is_quorum(self.agg.tally_of(h, r, VoteKind::Precommit, Some(b2)), total_power(self.agg.vals())));
                    }
                }
            },
            Some(None) => {
                self.view_change(acts);
                proof {
                    assert forall|b2: u64| !is_quorum(
                        old(self).agg.tally_of(h, r, VoteKind::Precommit, Some(b2)),
                        total_power(old(self).agg.vals()),
                    ) by {
                        if is_quorum(old(self).agg.tally_of(h, r, VoteKind::Precommit, Some(b2)), total_power(old(self).agg.vals())) {
                            assert(Some(b2) == None::<u64>);
                        }
                    }
                }
            },
            None => {
                assert(acts@.subrange(0, acts0.len() as int) == acts0);
                assert(self.log().subrange(0, self.log().len() as int) == self.log());
                proof {
                    assert forall|b2: u64| !is_quorum(
                        old(self).agg.tally_of(h, r, VoteKind::Precommit, Some(b2)),
                        total_power(old(self).agg.vals()),
                    ) by {
                        assert(!is_quorum(old(self).agg.tally_of(h, r, VoteKind::Precommit, Some(b2)), total_power(old(self).agg.vals())));
                    }
                }
            },
        }
    }

    /// Acts on whatever quorum the current round has reached.
    fn progress(&mut self, acts: &mut Vec<Action>)
        requires
            old(self).wf(),
            all_logged(old(self).log(), old(acts)@),
            precommits_justified(old(self).agg, old(acts)@),
            proposes_as_leader(old(self).agg.vals(), old(self).me, old(acts)@),
            no_commits(old(acts)@),
        ensures
            final(self).moved(old(self), old(acts)@, final(acts)@),
            commits_justified(final(self).agg, final(acts)@),
            advances(old(self).cs(), final(self).cs()),
            final(self).cs().height != old(self).cs().height ==> final(self).cs().height == old(self).cs().height + 1
                && final(self).cs().round == 0 && committed_at(final(self).agg, final(self).cs(), old(self).cs()),
            final(self).cs().height == old(self).cs().height && final(self).cs().round != old(self).cs().round ==> final(self).cs().phase == Phase::Propose,
            old(self).halted ==> *final(self) == *old(self) && final(acts)@ == old(acts)@,
            !final(self).halted && final(self).cs().phase != Phase::Precommit && same_round(old(self).cs(), final(self).cs())
                ==> final(self).cs() == old(self).cs() && final(self).timers == old(self).timers,
            old(self).room(3) ==> !final(self).halted && final(self).seq_left() >= old(self).seq_left() - 3,
            forall|b: u64| #[trigger] is_quorum(
                old(self).agg.tally_of(old(self).cs().height, old(self).cs().round, VoteKind::Precommit, Some(b)),
                total_power(old(self).agg.vals()),
            ) && old(self).room(3) && old(self).cs().phase == Phase::Precommit ==> final(self).cs().height
                == old(self).cs().height + 1 && final(self).cs().round == 0
                && final(self).cs().last_commit == Some(CommitInfo { height: old(self).cs().height, block: b })
                && final(acts)@.contains(Action::Commit(CommitInfo { height: old(self).cs().height, block: b })),
            is_quorum(
                old(self).agg.tally_of(old(self).cs().height, old(self).cs().round, VoteKind::Precommit, None),
                total_power(old(self).agg.vals()),
            ) && old(self).room(3) && old(self).cs().phase == Phase::Precommit && old(self).vc_streak
                < old(self).vc_retry_times ==> final(self).cs().height == old(self).cs().height
                && final(self).cs().round == old(self).cs().round + 1,
            forall|b: u64| #[trigger] is_quorum(
                old(self).agg.tally_of(old(self).cs().height, old(self).cs().round, VoteKind::Prevote, Some(b)),
                total_power(old(self).agg.vals()),
            ) && old(self).room(3) && old(self).cs().phase != Phase::Precommit ==> final(acts)@.contains(
                own_vote(old(self).me, VoteKind::Precommit, old(self).cs().height, old(self).cs().round, Some(b)),
            ) && (final(self).cs().height == old(self).cs().height ==> final(self).cs().locked == Some(b)),
            is_quorum(
                old(self).agg.tally_of(old(self).cs().height, old(self).cs().round, VoteKind::Prevote, None),
                total_power(old(self).agg.vals()),
            ) && old(self).room(3) && old(self).cs().phase != Phase::Precommit ==> final(acts)@.contains(
                own_vote(old(self).me, VoteKind::Precommit, old(self).cs().height, old(self).cs().round, None),
            ),
    {
        let ghost acts0 = acts@;
        if self.halted {
            assert(acts@.subrange(0, acts0.len() as int) == acts0);
            assert(self.log().subrange(0, self.log().len() as int) == self.log());
            return;
        }
        let ghost start = *self;
        match self.state.consensus.phase {
            Phase::NewHeight | Phase::Propose | Phase::Prevote => {
                self.on_prevote_quorum(acts);
            },
            Phase::Precommit => {
                assert(acts@.subrange(0, acts0.len() as int) == acts0);
                assert(self.log().subrange(0, self.log().len() as int) == self.log());
            },
        }
        let ghost mid = *self;
        let ghost acts1 = acts@;
        if !self.halted {
            match self.state.consensus.phase {
                Phase::Precommit => {
                    self.try_commit(acts);
                    proof {
                        lemma_extends_trans(start.log(), mid.log(), self.log());
                        assert(acts@.subrange(0, acts0.len() as int) == acts0) by {
                            assert(acts@.subrange(0, acts0.len() as int) == acts@.subrange(0, acts1.len() as int).subrange(0, acts0.len() as int));
                        }
                        assert forall|x: Action| acts1.contains(x) implies acts@.contains(x) by {
                            lemma_contains_kept(acts1, acts@, x);
                        }
                    }
                },
                _ => {
                    assert(commits_justified(self.agg, acts@));
                },
            }
        } else {
            assert(commits_justified(self.agg, acts@));
        }
    }

    /// A driver at genesis with an empty log kept in the file `fd`.
    pub fn new(
        me: u32,
        validators: Vec<Validator>,
        policy: TimeoutPolicy,
        vc_retry_times: u64,
        fd: String,
    ) -> (r: Driver)
        requires
            valid_set(validators@),
            policy.valid(),
        ensures
            r.wf(),
            r.cs() == genesis(),
            r.log() == Seq::<WalRecord>::empty(),
            !r.is_halted(),
            r.identity() == me,
            r.aggregator().vals() == validators@,
            r.aggregator().accepted() == Seq::<Vote>::empty(),
            r.retry_limit() == vc_retry_times,
            r.streak() == 0,
            r.live_timer() is None,
    {
        let wal = WAL::new(fd);
        let state = State {
            consensus: ConsensusState::genesis(),
            timeout: TimeoutStruct { height: 0, round: 0, duration: 0 },
            wal,
        };
        Driver {
            state,
            me,
            agg: Aggregator::new(validators),
            timers: TimeoutScheduler::new(),
            policy,
            vc_retry_times,
            vc_streak: 0,
            halted: false,
            taken: None,
            proposal_evidence: Vec::new(),
        }
    }

    /// A driver rebuilt from a log: its state is what replaying the log
    /// gives, and its own latest vote is counted again. `None` when the log
    /// holds records above the height its replay reaches.
    pub fn restore(
        me: u32,
        validators: Vec<Validator>,
        policy: TimeoutPolicy,
        vc_retry_times: u64,
        wal: WAL,
    ) -> (r: Option<Driver>)
        requires
            valid_set(validators@),
            policy.valid(),
            wal.wf(),
        ensures
            r is Some <==> wal.last_height() <= replay_spec(genesis(), wal.records_view()).height,
            r matches Some(d) ==> d.wf() && d.cs() == replay_spec(genesis(), wal.records_view())
                && d.log() == wal.records_view() && !d.is_halted() && d.identity() == me
                && d.aggregator().vals() == validators@ && d.retry_limit() == vc_retry_times
                && d.streak() == 0 && d.live_timer() is None
                && d.aggregator().accepted() == counted_on_restart(
                replay_spec(genesis(), wal.records_view()).last_vote,
                validators@,
            ),
    {
        let consensus = replay(wal.records());
        let n = wal.len();
        if n > 0 && wal.records()[n - 1].height > consensus.height {
            return None;
        }
        let mut agg = Aggregator::new(validators);
        if let Some(v) = consensus.last_vote {
            let _ = agg.submit(v, true);
        }
        let state = State {
            consensus,
            timeout: TimeoutStruct { height: consensus.height, round: consensus.round, duration: 0 },
            wal,
        };
        Some(Driver {
            state,
            me,
            agg,
            timers: TimeoutScheduler::new(),
            policy,
            vc_retry_times,
            vc_streak: 0,
            halted: false,
            taken: None,
            proposal_evidence: Vec::new(),
        })
    }

    /// The consensus state.
    pub fn consensus(&self) -> (r: ConsensusState)
        ensures
            r == self.cs(),
    {
        self.state.consensus
    }

    pub fn wal(&self) -> (r: &WAL)
        ensures
            r.records_view() == self.log(),
    {
        &self.state.wal
    }

    pub fn aggregator_ref(&self) -> (r: &Aggregator)
        ensures
            *r == self.aggregator(),
    {
        &self.agg
    }

    pub fn halted(&self) -> (r: bool)
        ensures
            r == self.is_halted(),
    {
        self.halted
    }

    /// Conflicting proposals seen so far.
    pub fn proposal_evidence(&self) -> (r: &Vec<(Proposal, Proposal)>)
        ensures
            r@ == self.proposal_evidence_view(),
    {
        &self.proposal_evidence
    }

    /// The consensus state, the timeout of the round last timed and the log.
    pub fn state(&self) -> (r: &State)
        ensures
            r.consensus == self.cs(),
            r.wal.records_view() == self.log(),
    {
        &self.state
    }

    fn leads(&self) -> (r: bool)
        ensures
            r == is_leader(self.agg.vals(), self.cs().height, self.cs().round, self.me),
    {
        let n = self.agg.validators().len();
        if n == 0 {
            return false;
        }
        let i = leader_index(self.state.consensus.height, self.state.consensus.round, n);
        self.agg.validators()[i].id == self.me
    }

    /// What `start_round` guarantees.
    pub open spec fn start_round_post(&self, o: &Driver, candidate: u64, acts: Seq<Action>) -> bool {
        let h = o.cs().height;
        let r = o.cs().round;
        let awaiting = o.cs().phase == Phase::NewHeight || o.cs().phase == Phase::Propose;
        &&& self.step_post(o, acts)
        &&& proposes_as_leader(o.aggregator().vals(), o.identity(), acts)
        &&& o.room(4) && awaiting ==> !self.is_halted()
        &&& !o.is_halted() && !self.is_halted() && same_round(o.cs(), self.cs()) && awaiting
            && (self.cs().phase == Phase::NewHeight || self.cs().phase == Phase::Propose) ==> {
            &&& self.live_timer() == Some(TimerHandle { height: h, round: r, step: Step::Propose })
            &&& acts.contains(
                Action::Arm {
                    handle: TimerHandle { height: h, round: r, step: Step::Propose },
                    duration: o.policy_view().duration_spec(r as nat) as u64,
                },
            )
            &&& o.cs().last_proposal is None && is_leader(o.aggregator().vals(), h, r, o.identity())
                ==> acts.contains(
                Action::Broadcast(
                    Message::Propose(
                        Proposal {
                            height: h,
                            round: r,
                            block: match o.cs().locked {
                                Some(b) => b,
                                None => candidate,
                            },
                            proposer: o.identity(),
                        },
                    ),
                ),
            )
        }
    }

    /// Enters the current round: acts on any quorum already gathered for
    /// it, then, while still awaiting a proposal, arms the proposal timer
    /// and, when this validator leads the round and has not proposed yet,
    /// proposes the locked block or else `candidate`.
    #[verifier::rlimit(60)]
    pub fn start_round(&mut self, candidate: u64) -> (acts: Vec<Action>)
        requires
            old(self).wf(),
        ensures
            final(self).start_round_post(old(self), candidate, acts@),
    {
        let mut acts: Vec<Action> = Vec::new();
        if self.halted {
            assert(self.log().subrange(0, self.log().len() as int) == self.log());
            return acts;
        }
        match self.state.consensus.phase {
            Phase::NewHeight | Phase::Propose => {},
            _ => {
                assert(self.log().subrange(0, self.log().len() as int) == self.log());
                return acts;
            },
        }
        let h = self.state.consensus.height;
        let r = self.state.consensus.round;
        self.progress(&mut acts);
        if self.halted || self.state.consensus.height != h || self.state.consensus.round != r {
            return acts;
        }
        match self.state.consensus.phase {
            Phase::NewHeight | Phase::Propose => {},
            _ => {
                return acts;
            },
        }
        let ghost mid = *self;
        let ghost acts0 = acts@;
        let a = self.rearm(Step::Propose);
        acts.push(a);
        proof {
            assert(acts@.subrange(0, acts0.len() as int) == acts0);
            assert(forall|k: int| 0 <= k < acts0.len() ==> acts@[k] == acts0[k]);
            assert(self.log().subrange(0, self.log().len() as int) == self.log());
            assert(acts@[acts0.len() as int] == a);
            assert(acts@.contains(a));
        }
        if self.state.consensus.last_proposal.is_none() && self.leads() {
            let block = match self.state.consensus.locked {
                Some(b) => b,
                None => candidate,
            };
            let p = Proposal {
                height: self.state.consensus.height,
                round: self.state.consensus.round,
                block,
                proposer: self.me,
            };
            let ghost acts1 = acts@;
            let ghost before = *self;
            if !self.record(p.round, WalEntry::Proposal(p)) {
                acts.push(Action::Halt);
                proof {
                    assert(forall|k: int| 0 <= k < acts1.len() ==> acts@[k] == acts1[k]);
                    lemma_extends_trans(old(self).log(), mid.log(), self.log());
                }
                return acts;
            }
            proof {
                lemma_logged_extend(before.log(), self.log(), acts1);
            }
            acts.push(Action::Broadcast(Message::Propose(p)));
            proof {
                let i = self.log().len() - 1;
                assert(self.log()[i].entry == WalEntry::Proposal(p));
                assert(logged(self.log(), Action::Broadcast(Message::Propose(p))));
                assert(acts@[acts1.len() as int] == Action::Broadcast(Message::Propose(p)));
                assert(forall|k: int| 0 <= k < acts1.len() ==> acts@[k] == acts1[k]);
                lemma_extends_trans(old(self).log(), mid.log(), self.log());
                assert(acts@[acts0.len() as int] == a);
                assert(acts@.contains(a));
                assert(acts@.contains(Action::Broadcast(Message::Propose(p))));
            }
        }
        acts
    }

    pub open spec fn on_proposal_post(&self, o: &Driver, proposal: Proposal, valid: bool, acts: Seq<Action>) -> bool {
        &&& self.step_post(o, acts)
        &&& !(!o.is_halted() && valid && proposal.height == o.cs().height
            && proposal.round == o.cs().round
            && is_leader(o.aggregator().vals(), proposal.height, proposal.round, proposal.proposer))
            ==> *self == *o && acts.len() == 0
        &&& !o.is_halted() && valid && proposal.height == o.cs().height
            && proposal.round == o.cs().round
            && is_leader(o.aggregator().vals(), proposal.height, proposal.round, proposal.proposer)
            && same_slot(o.taken_view(), proposal) ==> self.cs() == o.cs()
            && self.log() == o.log() && acts.len() == 0
            && self.proposal_evidence_view() == if o.taken_view()->Some_0.block != proposal.block {
                o.proposal_evidence_view().push((o.taken_view()->Some_0, proposal))
            } else {
                o.proposal_evidence_view()
            }
        &&& !o.is_halted() && valid && proposal.height == o.cs().height
            && proposal.round == o.cs().round
            && is_leader(o.aggregator().vals(), proposal.height, proposal.round, proposal.proposer)
            && !same_slot(o.taken_view(), proposal)
            && !(o.cs().phase == Phase::NewHeight || o.cs().phase == Phase::Propose)
            ==> *self == *o && acts.len() == 0
        &&& !o.is_halted() && valid && proposal.height == o.cs().height
            && proposal.round == o.cs().round
            && is_leader(o.aggregator().vals(), proposal.height, proposal.round, proposal.proposer)
            && !same_slot(o.taken_view(), proposal)
            && (o.cs().phase == Phase::NewHeight || o.cs().phase == Phase::Propose)
            && o.room(4) ==> !self.is_halted() && self.taken_view() == Some(proposal)
            && self.proposal_evidence_view() == o.proposal_evidence_view()
            && acts.len() > 0 && acts[0] == Action::Broadcast(
            Message::Cast(
                Vote {
                    kind: VoteKind::Prevote,
                    height: proposal.height,
                    round: proposal.round,
                    block: prevote_choice(o.cs().locked, proposal.block),
                    validator: o.identity(),
                },
            ),
        )
    }

    /// Handles a proposal. It is taken only when it is valid, is for the
    /// current height and round, comes from that round's leader, arrives
    /// before this validator prevoted and no proposal of the round was
    /// taken yet; then the validator prevotes. A valid proposal of the
    /// leader that differs from the one taken in its round is kept as
    /// evidence.
    pub fn on_proposal(&mut self, proposal: Proposal, valid: bool) -> (acts: Vec<Action>)
        requires
            old(self).wf(),
        ensures
            final(self).on_proposal_post(old(self), proposal, valid, acts@),
    {
        let mut acts: Vec<Action> = Vec::new();
        assert(self.log().subrange(0, self.log().len() as int) == self.log());
        if self.halted || !valid || proposal.height != self.state.consensus.height
            || proposal.round != self.state.consensus.round {
            return acts;
        }
        let n = self.agg.validators().len();
        if n == 0 {
            return acts;
        }
        let i = leader_index(proposal.height, proposal.round, n);
        if self.agg.validators()[i].id != proposal.proposer {
            return acts;
        }
        if let Some(q) = self.taken {
            if q.height == proposal.height && q.round == proposal.round {
                if q.block != proposal.block {
                    self.proposal_evidence.push((q, proposal));
                }
                return acts;
            }
        }
        match self.state.consensus.phase {
            Phase::NewHeight | Phase::Propose => {},
            _ => {
                return acts;
            },
        }
        self.taken = Some(proposal);
        let block = match self.state.consensus.locked {
            None => Some(proposal.block),
            Some(l) => if l == proposal.block {
                Some(proposal.block)
            } else {
                None
            },
        };
        let ghost start = *self;
        self.cast(VoteKind::Prevote, block, &mut acts);
        let ghost mid = *self;
        let ghost acts1 = acts@;
        if !self.halted {
            self.progress(&mut acts);
            proof {
                lemma_extends_trans(start.log(), mid.log(), self.log());
                assert(acts@[0] == acts1[0]);
            }
        }
        acts
    }

    /// The accepted votes after `vote` is submitted to `o`'s aggregator.
    pub open spec fn accepted_after(o: &Driver, vote: Vote, sig_valid: bool) -> Seq<Vote> {
        if submit_outcome(o.aggregator().vals(), o.aggregator().accepted(), vote, sig_valid)
            == SubmitResult::Accepted {
            o.aggregator().accepted().push(vote)
        } else {
            o.aggregator().accepted()
        }
    }

    /// Power at the current height and round of `o` for `x`, of kind
    /// `kind`, once `vote` is counted.
    pub open spec fn tally_after(o: &Driver, vote: Vote, sig_valid: bool, kind: VoteKind, x: Option<u64>) -> nat {
        tally_spec(o.aggregator().vals(), Self::accepted_after(o, vote, sig_valid), o.cs().height, o.cs().round, kind, x)
    }

    /// What `on_vote` guarantees.
    pub open spec fn on_vote_post(&self, o: &Driver, vote: Vote, sig_valid: bool, acts: Seq<Action>) -> bool {
        let t = total_power(o.aggregator().vals());
        let h = o.cs().height;
        let r = o.cs().round;
        &&& self.step_post(o, acts)
        &&& !o.is_halted() ==> votes_grow(Self::accepted_after(o, vote, sig_valid), self.aggregator().accepted())
        &&& vote.height != h || vote.round != r ==> self.cs() == o.cs() && self.log() == o.log()
            && acts.len() == 0 && (!o.is_halted() ==> self.aggregator().accepted() == Self::accepted_after(o, vote, sig_valid))
        &&& vote.height == h && vote.round == r && o.room(3) ==> {
            &&& !self.is_halted()
            &&& forall|b: u64| #[trigger] is_quorum(Self::tally_after(o, vote, sig_valid, VoteKind::Precommit, Some(b)), t)
                && o.cs().phase == Phase::Precommit ==> self.cs().height == h + 1 && self.cs().round == 0
                && self.cs().last_commit == Some(CommitInfo { height: h, block: b })
                && acts.contains(Action::Commit(CommitInfo { height: h, block: b }))
            &&& is_quorum(Self::tally_after(o, vote, sig_valid, VoteKind::Precommit, None), t)
                && o.cs().phase == Phase::Precommit && o.streak() < o.retry_limit()
                ==> self.cs().height == h && self.cs().round == r + 1
            &&& forall|b: u64| #[trigger] is_quorum(Self::tally_after(o, vote, sig_valid, VoteKind::Prevote, Some(b)), t)
                && o.cs().phase != Phase::Precommit ==> acts.contains(
                own_vote(o.identity(), VoteKind::Precommit, h, r, Some(b)),
            ) && (self.cs().height == h ==> self.cs().locked == Some(b))
            &&& is_quorum(Self::tally_after(o, vote, sig_valid, VoteKind::Prevote, None), t)
                && o.cs().phase != Phase::Precommit ==> acts.contains(
                own_vote(o.identity(), VoteKind::Precommit, h, r, None),
            )
        }
    }

    /// Handles a vote: the aggregator records it, and a vote of the current
    /// height and round may complete a quorum, which the driver acts on. A
    /// vote of any other height or round changes neither the state nor the
    /// log, so a quorum certificate delivered again after its commit does
    /// nothing.
    pub fn on_vote(&mut self, vote: Vote, sig_valid: bool) -> (acts: Vec<Action>)
        requires
            old(self).wf(),
        ensures
            final(self).on_vote_post(old(self), vote, sig_valid, acts@),
    {
        let mut acts: Vec<Action> = Vec::new();
        if self.halted {
            assert(self.log().subrange(0, self.log().len() as int) == self.log());
            return acts;
        }
        let _ = self.agg.submit(vote, sig_valid);
        assert(self.log().subrange(0, self.log().len() as int) == self.log());
        if vote.height != self.state.consensus.height || vote.round != self.state.consensus.round {
            return acts;
        }
        let ghost mid = *self;
        proof {
            assert(mid.agg.accepted() == Self::accepted_after(old(self), vote, sig_valid));
            assert forall|k: VoteKind, x: Option<u64>|
                #[trigger] Self::tally_after(old(self), vote, sig_valid, k, x) == mid.agg.tally_of(
                    mid.cs().height,
                    mid.cs().round,
                    k,
                    x,
                ) by {}
        }
        self.progress(&mut acts);
        proof {
            let t = total_power(old(self).aggregator().vals());
            assert forall|b: u64| #[trigger] is_quorum(Self::tally_after(old(self), vote, sig_valid, VoteKind::Precommit, Some(b)), t)
                implies is_quorum(mid.agg.tally_of(mid.cs().height, mid.cs().round, VoteKind::Precommit, Some(b)), t) by {}
            assert forall|b: u64| #[trigger] is_quorum(Self::tally_after(old(self), vote, sig_valid, VoteKind::Prevote, Some(b)), t)
                implies is_quorum(mid.agg.tally_of(mid.cs().height, mid.cs().round, VoteKind::Prevote, Some(b)), t) by {}
        }
        acts
    }

    /// `handle` is the live timer of the current round, in a phase where
    /// its firing changes view.
    pub open spec fn changes_view(&self, handle: TimerHandle) -> bool {
        &&& self.live_timer() == Some(handle)
        &&& handle.height == self.cs().height && handle.round == self.cs().round
        &&& (handle.step == Step::Propose && (self.cs().phase == Phase::NewHeight
            || self.cs().phase == Phase::Propose)) || (handle.step == Step::Precommit
            && self.cs().phase == Phase::Precommit)
    }

    /// What `on_timeout` guarantees.
    pub open spec fn on_timeout_post(&self, o: &Driver, handle: TimerHandle, acts: Seq<Action>) -> bool {
        &&& self.step_post(o, acts)
        &&& o.live_timer() != Some(handle) ==> self.cs() == o.cs() && self.log() == o.log() && acts.len() == 0
        &&& !o.is_halted() && o.changes_view(handle) && o.streak() >= o.retry_limit()
            ==> self.cs() == o.cs() && acts == seq![Action::Escalate]
        &&& !o.is_halted() && o.changes_view(handle) && o.streak() < o.retry_limit()
            && !self.is_halted() ==> self.cs().height == o.cs().height && self.cs().round == o.cs().round + 1
            && self.streak() == o.streak() + 1
        &&& o.room(1) && o.changes_view(handle) && o.streak() < o.retry_limit() ==> !self.is_halted()
            && self.cs().height == o.cs().height && self.cs().round == o.cs().round + 1
            && self.cs().phase == Phase::Propose && self.streak() == o.streak() + 1
            && self.log().last().entry == WalEntry::ViewChange && self.log().last().height == o.cs().height
            && self.log().last().round == o.cs().round + 1
            && acts == seq![Action::EnterRound { height: o.cs().height, round: (o.cs().round + 1) as u64 }]
        &&& o.room(4) && o.live_timer() == Some(handle) && handle.height == o.cs().height
            && handle.round == o.cs().round && handle.step == Step::Prevote && o.cs().phase == Phase::Prevote
            ==> !self.is_halted() && acts.len() > 0
            && acts[0] == own_vote(o.identity(), VoteKind::Precommit, handle.height, handle.round, None)
    }

    /// Handles a timer firing. Stale firings are ignored. The proposal and
    /// precommit timeouts change view; the prevote timeout precommits nil.
    pub fn on_timeout(&mut self, handle: TimerHandle) -> (acts: Vec<Action>)
        requires
            old(self).wf(),
        ensures
            final(self).on_timeout_post(old(self), handle, acts@),
    {
        let mut acts: Vec<Action> = Vec::new();
        assert(self.log().subrange(0, self.log().len() as int) == self.log());
        if self.halted {
            return acts;
        }
        if !self.timers.fire(handle) {
            return acts;
        }
        if handle.height != self.state.consensus.height || handle.round != self.state.consensus.round {
            return acts;
        }
        let phase = self.state.consensus.phase;
        match handle.step {
            Step::Propose => {
                match phase {
                    Phase::NewHeight | Phase::Propose => {
                        self.view_change(&mut acts);
                    },
                    _ => {},
                }
            },
            Step::Prevote => {
                match phase {
                    Phase::Prevote => {
                        let ghost start = *self;
                        self.cast(VoteKind::Precommit, None, &mut acts);
                        let ghost mid = *self;
                        if !self.halted {
                            self.progress(&mut acts);
                            proof {
                                lemma_extends_trans(start.log(), mid.log(), self.log());
                            }
                        }
                    },
                    _ => {},
                }
            },
            Step::Precommit => {
                match phase {
                    Phase::Precommit => {
                        self.view_change(&mut acts);
                    },
                    _ => {},
                }
            },
        }
        acts
    }

    /// Handles one event, as the handler of its kind does.
    pub fn handle(&mut self, event: Event) -> (acts: Vec<Action>)
        requires
            old(self).wf(),
        ensures
            final(self).step_post(old(self), acts@),
            match event {
                Event::Proposal { proposal, valid } => final(self).on_proposal_post(old(self), proposal, valid, acts@),
                Event::Vote { vote, sig_valid } => final(self).on_vote_post(old(self), vote, sig_valid, acts@),
                Event::Timeout(handle) => final(self).on_timeout_post(old(self), handle, acts@),
            },
    {
        match event {
            Event::Proposal { proposal, valid } => self.on_proposal(proposal, valid),
            Event::Vote { vote, sig_valid } => self.on_vote(vote, sig_valid),
            Event::Timeout(handle) => self.on_timeout(handle),
        }
    }

    /// After a restart: sends again this validator's proposal and latest
    /// vote of the current round, which the log already holds, and arms
    /// the timer of the phase it resumes in.
    pub fn resume(&mut self) -> (acts: Vec<Action>)
        requires
            old(self).wf(),
        ensures
            final(self).resume_post(old(self), acts@),
            final(self).cs() == old(self).cs(),
            final(self).log() == old(self).log(),
            !old(self).is_halted() ==> (old(self).cs().last_vote matches Some(v) ==> acts@.contains(
                Action::Broadcast(Message::Cast(v)),
            )),
            !old(self).is_halted() ==> (old(self).cs().last_proposal matches Some(p) ==> acts@.contains(
                Action::Broadcast(Message::Propose(p)),
            )),
            forall|k: int| 0 <= k < acts@.len() && (#[trigger] acts@[k]) is Broadcast ==> match acts@[k]->Broadcast_0 {
                Message::Cast(w) => old(self).cs().last_vote == Some(w),
                Message::Propose(p) => old(self).cs().last_proposal == Some(p),
            },
            !old(self).is_halted() ==> final(self).live_timer() == Some(
                TimerHandle {
                    height: old(self).cs().height,
                    round: old(self).cs().round,
                    step: step_of(old(self).cs().phase),
                },
            ),
    {
        let mut acts: Vec<Action> = Vec::new();
        assert(self.log().subrange(0, self.log().len() as int) == self.log());
        if self.halted {
            return acts;
        }
        proof {
            lemma_own_messages_logged(self.log());
        }
        if let Some(p) = self.state.consensus.last_proposal {
            acts.push(Action::Broadcast(Message::Propose(p)));
        }
        let ghost k = acts@.len();
        if let Some(v) = self.state.consensus.last_vote {
            acts.push(Action::Broadcast(Message::Cast(v)));
        }
        let step = match self.state.consensus.phase {
            Phase::NewHeight | Phase::Propose => Step::Propose,
            Phase::Prevote => Step::Prevote,
            Phase::Precommit => Step::Precommit,
        };
        assert(step == step_of(self.state.consensus.phase));
        let ghost before = acts@;
        let a = self.rearm(step);
        acts.push(a);
        proof {
            assert(acts@[before.len() as int] == a);
            if let Some(p) = old(self).cs().last_proposal {
                assert(acts@[0] == before[0]);
                assert(acts@[0] == Action::Broadcast(Message::Propose(p)));
            }
            if let Some(v) = old(self).cs().last_vote {
                assert(acts@[k as int] == before[k as int]);
                assert(acts@[k as int] == Action::Broadcast(Message::Cast(v)));
            }
        }
        acts
    }

    /// The log written so far reads back to itself, is one that recovery
    /// accepts, and replays to the driver's current state: a restart
    /// resumes exactly where the driver stood.
    pub proof fn lemma_restart_restores(&self)
        requires
            self.wf(),
        ensures
            parse_log(log_bytes(self.log())) == Some(self.log()),
            consistent(self.log()),
            replay_spec(genesis(), self.log()) == self.cs(),
    {
        lemma_log_round_trip(self.log());
        let recs = self.log();
        if recs.len() > 0 {
            assert(recs.last() == recs[recs.len() - 1]);
        }
    }
}

} // verus!
