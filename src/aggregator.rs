//! Vote validation, deduplication, equivocation evidence and tallies.

use vstd::prelude::*;

use crate::quorum::{
    find_validator, has_id, has_quorum, is_quorum, lemma_prefix_le_total, lemma_weight_ext,
    lemma_weight_mono, lemma_weight_union, lemma_weight_witness, total_power, total_power_of,
    valid_set, weight, weight_upto, Validator,
};
use crate::types::{Vote, VoteKind};

verus! {

/// How a submitted vote was handled.
#[derive(Clone, Copy, Debug, PartialEq, Eq, Structural)]
pub enum SubmitResult {
    Accepted,
    DuplicateIgnored,
    EquivocationDetected,
    Rejected,
}

/// Two votes by one validator for one height, round and kind.
pub open spec fn same_key(a: Vote, b: Vote) -> bool {
    a.validator == b.validator && a.height == b.height && a.round == b.round && a.kind == b.kind
}

pub open spec fn in_round(v: Vote, height: u64, round: u64, kind: VoteKind) -> bool {
    v.height == height && v.round == round && v.kind == kind
}

/// Validator `id` has an accepted vote for `block` at the given height, round and kind.
pub open spec fn voted(
    votes: Seq<Vote>,
    id: u32,
    height: u64,
    round: u64,
    kind: VoteKind,
    block: Option<u64>,
) -> bool {
    exists|j: int|
        0 <= j < votes.len() && #[trigger] votes[j].validator == id && in_round(
            votes[j],
            height,
            round,
            kind,
        ) && votes[j].block == block
}

/// Power of the validators that voted for `block`; each validator counts once.
pub open spec fn tally_spec(
    vals: Seq<Validator>,
    votes: Seq<Vote>,
    height: u64,
    round: u64,
    kind: VoteKind,
    block: Option<u64>,
) -> nat {
    weight(vals, |i: int| voted(votes, vals[i].id, height, round, kind, block))
}

pub open spec fn has_key(votes: Seq<Vote>, v: Vote) -> bool {
    exists|j: int| 0 <= j < votes.len() && same_key(#[trigger] votes[j], v)
}

/// How `submit` classifies `v`.
pub open spec fn submit_outcome(
    vals: Seq<Validator>,
    votes: Seq<Vote>,
    v: Vote,
    sig_valid: bool,
) -> SubmitResult {
    if !sig_valid || !has_id(vals, v.validator) {
        SubmitResult::Rejected
    } else if votes.contains(v) {
        SubmitResult::DuplicateIgnored
    } else if has_key(votes, v) {
        SubmitResult::EquivocationDetected
    } else {
        SubmitResult::Accepted
    }
}

/// Collects the votes of a fixed validator set.
pub struct Aggregator {
    validators: Vec<Validator>,
    votes: Vec<Vote>,
    evidence: Vec<(Vote, Vote)>,
}

impl Aggregator {
    pub closed spec fn vals(&self) -> Seq<Validator> {
        self.validators@
    }

    /// The accepted votes, in order of arrival.
    pub closed spec fn accepted(&self) -> Seq<Vote> {
        self.votes@
    }

    /// Conflicting pairs: the vote held first, then the one that contradicted it.
    pub closed spec fn evidence_view(&self) -> Seq<(Vote, Vote)> {
        self.evidence@
    }

    /// The set is valid, every accepted vote comes from a member, and no two
    /// accepted votes share validator, height, round and kind.
    pub open spec fn wf(&self) -> bool {
        &&& valid_set(self.vals())
        &&& forall|j: int|
            0 <= j < self.accepted().len() ==> has_id(self.vals(), #[trigger] self.accepted()[j].validator)
        &&& forall|j: int, k: int|
            0 <= j < self.accepted().len() && 0 <= k < self.accepted().len() && j != k
                ==> !same_key(#[trigger] self.accepted()[j], #[trigger] self.accepted()[k])
    }

    pub open spec fn tally_of(&self, height: u64, round: u64, kind: VoteKind, block: Option<u64>) -> nat {
        tally_spec(self.vals(), self.accepted(), height, round, kind, block)
    }

    /// An empty aggregator for the validator set `validators`.
    pub fn new(validators: Vec<Validator>) -> (r: Self)
        requires
            valid_set(validators@),
        ensures
            r.wf(),
            r.vals() == validators@,
            r.accepted() == Seq::<Vote>::empty(),
            r.evidence_view() == Seq::<(Vote, Vote)>::empty(),
    {
        Aggregator { validators, votes: Vec::new(), evidence: Vec::new() }
    }

    pub fn validators(&self) -> (r: &Vec<Validator>)
        ensures
            r@ == self.vals(),
    {
        &self.validators
    }

    pub fn votes(&self) -> (r: &Vec<Vote>)
        ensures
            r@ == self.accepted(),
    {
        &self.votes
    }

    /// The equivocation evidence gathered so far.
    pub fn evidence(&self) -> (r: &Vec<(Vote, Vote)>)
        ensures
            r@ == self.evidence_view(),
    {
        &self.evidence
    }

    fn find_key(&self, v: Vote) -> (r: Option<usize>)
        ensures
            match r {
                Some(j) => j < self.accepted().len() && same_key(self.accepted()[j as int], v),
                None => !has_key(self.accepted(), v),
            },
    {
        let mut j: usize = 0;
        while j < self.votes.len()
            invariant
                j <= self.votes@.len(),
                forall|k: int| 0 <= k < j ==> !same_key(#[trigger] self.votes@[k], v),
            decreases self.votes@.len() - j,
        {
            let w = self.votes[j];
            if w.validator == v.validator && w.height == v.height && w.round == v.round && w.kind
                == v.kind {
                return Some(j);
            }
            j = j + 1;
        }
        None
    }

    /// Validates, deduplicates and records `vote`. `sig_valid` is the outcome
    /// of checking the vote's signature.
    pub fn submit(&mut self, vote: Vote, sig_valid: bool) -> (r: SubmitResult)
        requires
            old(self).wf(),
        ensures
            final(self).wf(),
            r == submit_outcome(old(self).vals(), old(self).accepted(), vote, sig_valid),
            final(self).vals() == old(self).vals(),
            r == SubmitResult::Accepted ==> final(self).accepted() == old(self).accepted().push(
                vote,
            ),
            r != SubmitResult::Accepted ==> final(self).accepted() == old(self).accepted(),
            r == SubmitResult::EquivocationDetected ==> exists|j: int|
                0 <= j < old(self).accepted().len() && same_key(
                    #[trigger] old(self).accepted()[j],
                    vote,
                ) && final(self).evidence_view() == old(self).evidence_view().push(
                    (old(self).accepted()[j], vote),
                ),
            r != SubmitResult::EquivocationDetected ==> final(self).evidence_view() == old(
                self,
            ).evidence_view(),
    {
        if !sig_valid {
            return SubmitResult::Rejected;
        }
        if find_validator(&self.validators, vote.validator).is_none() {
            return SubmitResult::Rejected;
        }
        match self.find_key(vote) {
            Some(j) => {
                let held = self.votes[j];
                if held.block == vote.block {
                    assert(held == vote);
                    assert(self.votes@.contains(vote));
                    SubmitResult::DuplicateIgnored
                } else {
                    assert(!self.votes@.contains(vote)) by {
                        if self.votes@.contains(vote) {
                            let k = choose|k: int| 0 <= k < self.votes@.len() && self.votes@[k] == vote;
                            assert(same_key(self.votes@[k], self.votes@[j as int]));
                        }
                    }
                    self.evidence.push((held, vote));
                    SubmitResult::EquivocationDetected
                }
            },
            None => {
                assert(!self.votes@.contains(vote)) by {
                    if self.votes@.contains(vote) {
                        let k = choose|k: int| 0 <= k < self.votes@.len() && self.votes@[k] == vote;
                        assert(same_key(self.votes@[k], vote));
                    }
                }
                self.votes.push(vote);
                assert(forall|j: int| 0 <= j < self.votes@.len() - 1 ==> #[trigger] self.votes@[j] == old(self).votes@[j]);
                SubmitResult::Accepted
            },
        }
    }

    fn has_vote_from(&self, id: u32, height: u64, round: u64, kind: VoteKind, block: Option<u64>) -> (r: bool)
        ensures
            r == voted(self.accepted(), id, height, round, kind, block),
    {
        let mut j: usize = 0;
        while j < self.votes.len()
            invariant
                j <= self.votes@.len(),
                forall|k: int|
                    0 <= k < j ==> !(#[trigger] self.votes@[k].validator == id && in_round(
                        self.votes@[k],
                        height,
                        round,
                        kind,
                    ) && self.votes@[k].block == block),
            decreases self.votes@.len() - j,
        {
            let w = self.votes[j];
            if w.validator == id && w.height == height && w.round == round && w.kind == kind
                && w.block == block {
                return true;
            }
            j = j + 1;
        }
        false
    }

    /// Power of the validators whose accepted vote at (`height`, `round`,
    /// `kind`) is for `block`.
    pub fn tally(&self, height: u64, round: u64, kind: VoteKind, block: Option<u64>) -> (r: u64)
        requires
            self.wf(),
        ensures
            r == self.tally_of(height, round, kind, block),
    {
        let ghost vals = self.vals();
        let ghost p = |i: int| voted(self.accepted(), vals[i].id, height, round, kind, block);
        let mut sum: u64 = 0;
        let mut i: usize = 0;
        while i < self.validators.len()
            invariant
                i <= vals.len(),
                vals == self.validators@,
                self.wf(),
                p == (|i: int| voted(self.accepted(), vals[i].id, height, round, kind, block)),
                sum == weight_upto(vals, p, i as int),
            decreases vals.len() - i,
        {
            proof {
                lemma_weight_mono(vals, p, |k: int| true, i as int + 1);
                lemma_prefix_le_total(vals, |k: int| true, i as int + 1);
            }
            let v = &self.validators[i];
            if self.has_vote_from(v.id, height, round, kind, block) {
                sum = sum + v.power;
            }
            i = i + 1;
        }
        sum
    }

    /// The block (or nil) that gathered more than two thirds of the power
    /// at (`height`, `round`, `kind`); `None` while no value has.
    pub fn quorum_reached(&self, height: u64, round: u64, kind: VoteKind) -> (r: Option<Option<u64>>)
        requires
            self.wf(),
        ensures
            match r {
                Some(b) => is_quorum(self.tally_of(height, round, kind, b), total_power(self.vals()))
                    && forall|b2: Option<u64>|
                    is_quorum(#[trigger] self.tally_of(height, round, kind, b2), total_power(self.vals()))
                        ==> b2 == b,
                None => forall|b: Option<u64>|
                    !is_quorum(#[trigger] self.tally_of(height, round, kind, b), total_power(self.vals())),
            },
    {
        let total = total_power_of(&self.validators);
        let mut j: usize = 0;
        while j < self.votes.len()
            invariant
                j <= self.votes@.len(),
                self.wf(),
                total == total_power(self.vals()),
                forall|k: int|
                    0 <= k < j && in_round(#[trigger] self.votes@[k], height, round, kind) ==> !is_quorum(
                        self.tally_of(height, round, kind, self.votes@[k].block),
                        total as nat,
                    ),
            decreases self.votes@.len() - j,
        {
            let w = self.votes[j];
            if w.height == height && w.round == round && w.kind == kind {
                let t = self.tally(height, round, kind, w.block);
                if has_quorum(t, total) {
                    proof {
                        assert forall|b2: Option<u64>|
                            is_quorum(#[trigger] self.tally_of(height, round, kind, b2), total as nat)
                            implies b2 == w.block by {
                            self.lemma_single_quorum(height, round, kind, w.block, b2);
                        }
                    }
                    return Some(w.block);
                }
            }
            j = j + 1;
        }
        proof {
            assert forall|b: Option<u64>|
                !is_quorum(#[trigger] self.tally_of(height, round, kind, b), total as nat) by {
                if is_quorum(self.tally_of(height, round, kind, b), total as nat) {
                    let vals = self.vals();
                    let p = |i: int| voted(self.accepted(), vals[i].id, height, round, kind, b);
                    lemma_weight_witness(vals, p, vals.len() as int);
                    let i = choose|i: int| 0 <= i < vals.len() && #[trigger] p(i);
                    let k = choose|k: int|
                        0 <= k < self.votes@.len() && #[trigger] self.votes@[k].validator == vals[i].id
                            && in_round(self.votes@[k], height, round, kind) && self.votes@[k].block == b;
                    assert(in_round(self.votes@[k], height, round, kind));
                }
            }
        }
        None
    }

    /// At most one value reaches quorum at a height, round and kind.
    pub proof fn lemma_single_quorum(
        &self,
        height: u64,
        round: u64,
        kind: VoteKind,
        b1: Option<u64>,
        b2: Option<u64>,
    )
        requires
            self.wf(),
            is_quorum(self.tally_of(height, round, kind, b1), total_power(self.vals())),
            is_quorum(self.tally_of(height, round, kind, b2), total_power(self.vals())),
        ensures
            b1 == b2,
    {
        if b1 != b2 {
            let vals = self.vals();
            let votes = self.accepted();
            let n = vals.len() as int;
            let a = |i: int| voted(votes, vals[i].id, height, round, kind, b1);
            let b = |i: int| voted(votes, vals[i].id, height, round, kind, b2);
            let both = |i: int| a(i) && b(i);
            let none = |i: int| false;
            assert forall|i: int| 0 <= i < n implies #[trigger] both(i) == none(i) by {
                if a(i) && b(i) {
                    let j = choose|j: int|
                        0 <= j < votes.len() && #[trigger] votes[j].validator == vals[i].id && in_round(
                            votes[j],
                            height,
                            round,
                            kind,
                        ) && votes[j].block == b1;
                    let k = choose|k: int|
                        0 <= k < votes.len() && #[trigger] votes[k].validator == vals[i].id && in_round(
                            votes[k],
                            height,
                            round,
                            kind,
                        ) && votes[k].block == b2;
                    assert(same_key(votes[j], votes[k]));
                }
            }
            lemma_weight_ext(vals, both, none, n);
            lemma_weight_zero(vals, n);
            lemma_weight_union(vals, a, b, n);
            lemma_weight_mono(vals, |i: int| a(i) || b(i), |i: int| true, n);
        }
    }
}

proof fn lemma_weight_zero(vals: Seq<Validator>, n: int)
    ensures
        weight_upto(vals, |i: int| false, n) == 0,
    decreases n,
{
    if n > 0 {
        lemma_weight_zero(vals, n - 1);
    }
}

/// Agreement within a round: two validators' aggregators over one set,
/// each holding a precommit quorum at the same height and round, hold it
/// for the same value, provided the faulty validators have less than a
/// third of the power and every other validator precommits at most one
/// value per height and round.
pub proof fn lemma_precommit_quorums_agree(
    a1: Aggregator,
    a2: Aggregator,
    height: u64,
    round: u64,
    b1: Option<u64>,
    b2: Option<u64>,
    faulty: spec_fn(int) -> bool,
)
    requires
        a1.vals() == a2.vals(),
        is_quorum(a1.tally_of(height, round, VoteKind::Precommit, b1), total_power(a1.vals())),
        is_quorum(a2.tally_of(height, round, VoteKind::Precommit, b2), total_power(a2.vals())),
        3 * weight(a1.vals(), faulty) < total_power(a1.vals()),
        forall|i: int, x: Option<u64>, y: Option<u64>|
            0 <= i < a1.vals().len() && !faulty(i) && #[trigger] voted(
                a1.accepted(),
                a1.vals()[i].id,
                height,
                round,
                VoteKind::Precommit,
                x,
            ) && #[trigger] voted(a2.accepted(), a1.vals()[i].id, height, round, VoteKind::Precommit, y)
                ==> x == y,
    ensures
        b1 == b2,
{
    let vals = a1.vals();
    let a = |i: int| voted(a1.accepted(), vals[i].id, height, round, VoteKind::Precommit, b1);
    let b = |i: int| voted(a2.accepted(), vals[i].id, height, round, VoteKind::Precommit, b2);
    crate::quorum::lemma_quorums_share_correct_validator(vals, a, b, faulty);
    let i = choose|i: int| 0 <= i < vals.len() && #[trigger] a(i) && b(i) && !faulty(i);
    assert(voted(a1.accepted(), vals[i].id, height, round, VoteKind::Precommit, b1));
    assert(voted(a2.accepted(), vals[i].id, height, round, VoteKind::Precommit, b2));
}

/// A tally never shrinks as votes are added.
pub proof fn lemma_tally_grows(
    vals: Seq<Validator>,
    a: Seq<Vote>,
    b: Seq<Vote>,
    height: u64,
    round: u64,
    kind: VoteKind,
    block: Option<u64>,
)
    requires
        a.len() <= b.len(),
        b.subrange(0, a.len() as int) == a,
    ensures
        tally_spec(vals, a, height, round, kind, block) <= tally_spec(vals, b, height, round, kind, block),
{
    let p = |i: int| voted(a, vals[i].id, height, round, kind, block);
    let q = |i: int| voted(b, vals[i].id, height, round, kind, block);
    assert forall|i: int| 0 <= i < vals.len() && #[trigger] p(i) implies q(i) by {
        let j = choose|j: int|
            0 <= j < a.len() && #[trigger] a[j].validator == vals[i].id && in_round(a[j], height, round, kind)
                && a[j].block == block;
        assert(b[j] == b.subrange(0, a.len() as int)[j]);
    }
    lemma_weight_mono(vals, p, q, vals.len() as int);
}

} // verus!
