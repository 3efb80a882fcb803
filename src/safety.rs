//! Agreement across rounds. Over the votes cast at one height, a validator
//! that follows the locking rules never lets two different blocks both
//! gather a precommit quorum, as long as the faulty validators hold less
//! than a third of the power. `pv(i, r, x)` and `pc(i, r, x)` say that the
//! validator at position `i` prevoted and precommitted `x` in round `r`.

use vstd::prelude::*;

use crate::quorum::{is_quorum, lemma_quorums_share_correct_validator, total_power, weight, Validator};

verus! {

pub open spec fn vote_quorum(
    vals: Seq<Validator>,
    votes: spec_fn(int, nat, Option<u64>) -> bool,
    r: nat,
    x: Option<u64>,
) -> bool {
    is_quorum(weight(vals, |i: int| votes(i, r, x)), total_power(vals))
}

/// The rules a correct validator keeps: one vote of each kind per round;
/// a precommit for a block only once that block has a prevote quorum in
/// the round; and after precommitting a block, a prevote for another block
/// only once its lock moved, by precommitting yet another block in between.
pub open spec fn follows_locking(
    vals: Seq<Validator>,
    pv: spec_fn(int, nat, Option<u64>) -> bool,
    pc: spec_fn(int, nat, Option<u64>) -> bool,
    i: int,
) -> bool {
    &&& forall|r: nat, x: Option<u64>, y: Option<u64>| #[trigger] pc(i, r, x) && #[trigger] pc(i, r, y) ==> x == y
    &&& forall|r: nat, b: u64| #[trigger] pc(i, r, Some(b)) ==> vote_quorum(vals, pv, r, Some(b))
    &&& forall|r1: nat, b1: u64, r2: nat, b2: u64|
        #[trigger] pc(i, r1, Some(b1)) && #[trigger] pv(i, r2, Some(b2)) && r1 < r2 && b1 != b2
            ==> exists|r3: nat, c: u64| r1 < r3 < r2 && c != b1 && #[trigger] pc(i, r3, Some(c))
}

pub open spec fn correct_follow(
    vals: Seq<Validator>,
    pv: spec_fn(int, nat, Option<u64>) -> bool,
    pc: spec_fn(int, nat, Option<u64>) -> bool,
    faulty: spec_fn(int) -> bool,
) -> bool {
    forall|i: int| 0 <= i < vals.len() && !faulty(i) ==> #[trigger] follows_locking(vals, pv, pc, i)
}

/// After a precommit quorum for `b` in round `r1`, no later round reaches
/// a prevote quorum for another block.
proof fn lemma_no_conflicting_prevote_quorum(
    vals: Seq<Validator>,
    pv: spec_fn(int, nat, Option<u64>) -> bool,
    pc: spec_fn(int, nat, Option<u64>) -> bool,
    faulty: spec_fn(int) -> bool,
    r1: nat,
    b: u64,
    r: nat,
    c: u64,
)
    requires
        correct_follow(vals, pv, pc, faulty),
        3 * weight(vals, faulty) < total_power(vals),
        vote_quorum(vals, pc, r1, Some(b)),
        r1 < r,
        vote_quorum(vals, pv, r, Some(c)),
    ensures
        c == b,
    decreases r - r1,
{
    if c != b {
        let locked = |i: int| pc(i, r1, Some(b));
        let backers = |i: int| pv(i, r, Some(c));
        lemma_quorums_share_correct_validator(vals, locked, backers, faulty);
        let j = choose|j: int| 0 <= j < vals.len() && #[trigger] locked(j) && backers(j) && !faulty(j);
        assert(follows_locking(vals, pv, pc, j));
        assert(pc(j, r1, Some(b)) && pv(j, r, Some(c)));
        let (r3, c3) = choose|r3: nat, c3: u64| r1 < r3 < r && c3 != b && #[trigger] pc(j, r3, Some(c3));
        assert(vote_quorum(vals, pv, r3, Some(c3)));
        lemma_no_conflicting_prevote_quorum(vals, pv, pc, faulty, r1, b, r3, c3);
    }
}

/// Agreement at one height: when the faulty validators hold less than a
/// third of the power and the others keep the locking rules, any two
/// precommit quorums for blocks, in any rounds, are for the same block.
pub proof fn lemma_committed_blocks_agree(
    vals: Seq<Validator>,
    pv: spec_fn(int, nat, Option<u64>) -> bool,
    pc: spec_fn(int, nat, Option<u64>) -> bool,
    faulty: spec_fn(int) -> bool,
    r1: nat,
    b1: u64,
    r2: nat,
    b2: u64,
)
    requires
        correct_follow(vals, pv, pc, faulty),
        3 * weight(vals, faulty) < total_power(vals),
        vote_quorum(vals, pc, r1, Some(b1)),
        vote_quorum(vals, pc, r2, Some(b2)),
    ensures
        b1 == b2,
{
    if r1 == r2 {
        let a = |i: int| pc(i, r1, Some(b1));
        let b = |i: int| pc(i, r2, Some(b2));
        lemma_quorums_share_correct_validator(vals, a, b, faulty);
        let k = choose|k: int| 0 <= k < vals.len() && #[trigger] a(k) && b(k) && !faulty(k);
        assert(follows_locking(vals, pv, pc, k));
        assert(pc(k, r1, Some(b1)) && pc(k, r1, Some(b2)));
    } else {
        let (lo, blo, hi, bhi) = if r1 < r2 {
            (r1, b1, r2, b2)
        } else {
            (r2, b2, r1, b1)
        };
        let a = |i: int| pc(i, hi, Some(bhi));
        lemma_quorums_share_correct_validator(vals, a, a, faulty);
        let k = choose|k: int| 0 <= k < vals.len() && #[trigger] a(k) && a(k) && !faulty(k);
        assert(follows_locking(vals, pv, pc, k));
        assert(pc(k, hi, Some(bhi)));
        assert(vote_quorum(vals, pv, hi, Some(bhi)));
        lemma_no_conflicting_prevote_quorum(vals, pv, pc, faulty, lo, blo, hi, bhi);
    }
}

} // verus!
