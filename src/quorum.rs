//! Validators, voting power and the two-thirds quorum rule.

use vstd::prelude::*;

verus! {

/// A member of the fixed validator set.
#[derive(Debug)]
pub struct Validator {
    pub id: u32,
    pub public_key: Vec<u8>,
    pub power: u64,
}

/// Voting power of the validators among the first `n` positions of `vals`
/// whose position satisfies `p`.
pub open spec fn weight_upto(vals: Seq<Validator>, p: spec_fn(int) -> bool, n: int) -> nat
    decreases n,
{
    if n <= 0 {
        0
    } else {
        weight_upto(vals, p, n - 1) + if p(n - 1) {
            vals[n - 1].power as nat
        } else {
            0nat
        }
    }
}

/// Voting power of the validators whose position satisfies `p`.
pub open spec fn weight(vals: Seq<Validator>, p: spec_fn(int) -> bool) -> nat {
    weight_upto(vals, p, vals.len() as int)
}

/// Voting power of the whole set.
pub open spec fn total_power(vals: Seq<Validator>) -> nat {
    weight(vals, |i: int| true)
}

/// A tally reaches quorum when it exceeds two thirds of the total power.
pub open spec fn is_quorum(w: nat, total: nat) -> bool {
    3 * w > 2 * total
}

/// The smallest tally that reaches quorum.
pub open spec fn threshold(total: nat) -> nat {
    2 * total / 3 + 1
}

/// Position of the validator with identity `id`, if any.
pub open spec fn has_id(vals: Seq<Validator>, id: u32) -> bool {
    exists|i: int| 0 <= i < vals.len() && #[trigger] vals[i].id == id
}

/// Validator identities are distinct and the total power fits in a `u64`.
pub open spec fn valid_set(vals: Seq<Validator>) -> bool {
    &&& forall|i: int, j: int|
        0 <= i < vals.len() && 0 <= j < vals.len() && i != j ==> #[trigger] vals[i].id
            != #[trigger] vals[j].id
    &&& total_power(vals) <= u64::MAX
}

/// The leader of round `round` at height `height` among `n` validators.
pub open spec fn leader_spec(height: u64, round: u64, n: nat) -> int {
    ((height as int) + (round as int)) % (n as int)
}

pub proof fn lemma_weight_mono(
    vals: Seq<Validator>,
    p: spec_fn(int) -> bool,
    q: spec_fn(int) -> bool,
    n: int,
)
    requires
        forall|i: int| 0 <= i < n && #[trigger] p(i) ==> q(i),
    ensures
        weight_upto(vals, p, n) <= weight_upto(vals, q, n),
    decreases n,
{
    if n > 0 {
        lemma_weight_mono(vals, p, q, n - 1);
    }
}

pub proof fn lemma_weight_ext(
    vals: Seq<Validator>,
    p: spec_fn(int) -> bool,
    q: spec_fn(int) -> bool,
    n: int,
)
    requires
        forall|i: int| 0 <= i < n ==> #[trigger] p(i) == q(i),
    ensures
        weight_upto(vals, p, n) == weight_upto(vals, q, n),
    decreases n,
{
    if n > 0 {
        lemma_weight_ext(vals, p, q, n - 1);
    }
}

pub proof fn lemma_weight_union(
    vals: Seq<Validator>,
    p: spec_fn(int) -> bool,
    q: spec_fn(int) -> bool,
    n: int,
)
    ensures
        weight_upto(vals, p, n) + weight_upto(vals, q, n) == weight_upto(
            vals,
            |i: int| p(i) || q(i),
            n,
        ) + weight_upto(vals, |i: int| p(i) && q(i), n),
    decreases n,
{
    if n > 0 {
        lemma_weight_union(vals, p, q, n - 1);
    }
}

pub proof fn lemma_weight_witness(vals: Seq<Validator>, p: spec_fn(int) -> bool, n: int)
    requires
        weight_upto(vals, p, n) > 0,
    ensures
        exists|i: int| 0 <= i < n && #[trigger] p(i),
    decreases n,
{
    if n > 0 && !p(n - 1) {
        lemma_weight_witness(vals, p, n - 1);
    }
}

/// Any two quorums of one validator set overlap in more than a third of
/// the total power.
pub proof fn lemma_quorums_intersect(
    vals: Seq<Validator>,
    a: spec_fn(int) -> bool,
    b: spec_fn(int) -> bool,
)
    requires
        is_quorum(weight(vals, a), total_power(vals)),
        is_quorum(weight(vals, b), total_power(vals)),
    ensures
        3 * weight(vals, |i: int| a(i) && b(i)) > total_power(vals),
{
    let n = vals.len() as int;
    lemma_weight_union(vals, a, b, n);
    lemma_weight_mono(vals, |i: int| a(i) || b(i), |i: int| true, n);
}

/// Safety core: when the faulty validators hold less than a third of the
/// power, any two quorums share a validator that is not faulty. Since a
/// correct validator casts one vote of each kind per height and round, two
/// quorums for different blocks cannot both form in one round.
pub proof fn lemma_quorums_share_correct_validator(
    vals: Seq<Validator>,
    a: spec_fn(int) -> bool,
    b: spec_fn(int) -> bool,
    faulty: spec_fn(int) -> bool,
)
    requires
        is_quorum(weight(vals, a), total_power(vals)),
        is_quorum(weight(vals, b), total_power(vals)),
        3 * weight(vals, faulty) < total_power(vals),
    ensures
        exists|i: int| 0 <= i < vals.len() && #[trigger] a(i) && b(i) && !faulty(i),
{
    let n = vals.len() as int;
    let both = |i: int| a(i) && b(i);
    let good = |i: int| a(i) && b(i) && !faulty(i);
    lemma_quorums_intersect(vals, a, b);
    lemma_weight_union(vals, good, faulty, n);
    lemma_weight_mono(vals, both, |i: int| good(i) || faulty(i), n);
    assert(weight_upto(vals, good, n) > 0);
    lemma_weight_witness(vals, good, n);
    let i = choose|i: int| 0 <= i < n && #[trigger] good(i);
    assert(0 <= i < n && a(i) && b(i) && !faulty(i));
}

/// A tally reaches quorum exactly when it is at least the threshold: two
/// thirds of the total (rounded down) plus one unit.
pub proof fn lemma_quorum_threshold(w: nat, total: nat)
    ensures
        is_quorum(w, total) <==> w >= threshold(total),
        !is_quorum((threshold(total) - 1) as nat, total),
        is_quorum(threshold(total), total),
{
    assert(is_quorum(w, total) <==> w >= threshold(total)) by (nonlinear_arith);
    assert(!is_quorum((threshold(total) - 1) as nat, total)) by (nonlinear_arith);
    assert(is_quorum(threshold(total), total)) by (nonlinear_arith);
}

/// Whether a tally of `w` out of `total` reaches quorum.
pub fn has_quorum(w: u64, total: u64) -> (r: bool)
    ensures
        r == is_quorum(w as nat, total as nat),
{
    3 * (w as u128) > 2 * (total as u128)
}

/// The smallest tally that reaches quorum out of `total`.
pub fn quorum_threshold(total: u64) -> (r: u64)
    ensures
        r == threshold(total as nat),
        is_quorum(r as nat, total as nat),
        !is_quorum((r - 1) as nat, total as nat),
{
    proof {
        lemma_quorum_threshold(0, total as nat);
    }
    let t: u128 = 2 * (total as u128) / 3 + 1;
    assert(t <= u64::MAX) by (nonlinear_arith)
        requires t == 2 * (total as u128) / 3 + 1, total <= u64::MAX;
    t as u64
}

/// Sum of the voting power of `vals`.
pub fn total_power_of(vals: &Vec<Validator>) -> (r: u64)
    requires
        total_power(vals@) <= u64::MAX,
    ensures
        r == total_power(vals@),
{
    let mut sum: u64 = 0;
    let mut i: usize = 0;
    while i < vals.len()
        invariant
            i <= vals.len(),
            sum == weight_upto(vals@, |k: int| true, i as int),
            total_power(vals@) <= u64::MAX,
        decreases vals.len() - i,
    {
        proof {
            lemma_weight_mono(vals@, |k: int| true, |k: int| true, i as int + 1);
            lemma_prefix_le_total(vals@, |k: int| true, i as int + 1);
        }
        sum = sum + vals[i].power;
        i = i + 1;
    }
    sum
}

pub proof fn lemma_prefix_le_total(vals: Seq<Validator>, p: spec_fn(int) -> bool, n: int)
    requires
        0 <= n <= vals.len(),
    ensures
        weight_upto(vals, p, n) <= weight(vals, p),
    decreases vals.len() - n,
{
    if n < vals.len() {
        lemma_prefix_le_total(vals, p, n + 1);
    }
}

/// Position of the validator that leads round `round` at height `height`:
/// round-robin over the set's order.
pub fn leader_index(height: u64, round: u64, n: usize) -> (r: usize)
    requires
        n > 0,
    ensures
        r as int == leader_spec(height, round, n as nat),
        r < n,
{
    let a: u64 = height % (n as u64);
    let b: u64 = round % (n as u64);
    proof {
        vstd::arithmetic::div_mod::lemma_add_mod_noop(height as int, round as int, n as int);
    }
    (((a as u128) + (b as u128)) % (n as u128)) as usize
}

/// Position of the validator with identity `id`.
pub fn find_validator(vals: &Vec<Validator>, id: u32) -> (r: Option<usize>)
    ensures
        match r {
            Some(i) => i < vals@.len() && vals@[i as int].id == id,
            None => !has_id(vals@, id),
        },
{
    let mut i: usize = 0;
    while i < vals.len()
        invariant
            i <= vals.len(),
            forall|k: int| 0 <= k < i ==> #[trigger] vals@[k].id != id,
        decreases vals.len() - i,
    {
        if vals[i].id == id {
            return Some(i);
        }
        i = i + 1;
    }
    None
}

} // verus!
