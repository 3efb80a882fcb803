//! Round deadlines with exponential backoff, and the scheduler that tells
//! live timer firings from stale ones.

use vstd::prelude::*;
use vstd::arithmetic::power::pow;

verus! {

/// A round's timeout: the height and round it guards and how long it lasts.
#[derive(Clone, Copy, Debug, PartialEq, Eq, Structural)]
pub struct TimeoutStruct {
    pub height: u64,
    pub round: u64,
    pub duration: u64,
}

/// The phase of a round that a timer guards.
#[derive(Clone, Copy, Debug, PartialEq, Eq, Structural)]
pub enum Step {
    Propose,
    Prevote,
    Precommit,
}

/// Identifies an armed timer.
#[derive(Clone, Copy, Debug, PartialEq, Eq, Structural)]
pub struct TimerHandle {
    pub height: u64,
    pub round: u64,
    pub step: Step,
}

/// Timeout for round `r` is `base * factor^r`, capped at `max`.
#[derive(Clone, Copy, Debug, PartialEq, Eq, Structural)]
pub struct TimeoutPolicy {
    pub base: u64,
    pub factor: u64,
    pub max: u64,
}

impl TimeoutPolicy {
    /// A policy whose durations grow strictly until the cap.
    pub open spec fn valid(&self) -> bool {
        1 <= self.base <= self.max && self.factor >= 2
    }

    pub open spec fn duration_spec(&self, round: nat) -> int {
        let full = self.base * pow(self.factor as int, round);
        if full <= self.max {
            full
        } else {
            self.max as int
        }
    }

    proof fn lemma_step(&self, round: nat)
        requires
            self.factor >= 1,
        ensures
            self.base * pow(self.factor as int, round + 1) == (self.base * pow(
                self.factor as int,
                round,
            )) * self.factor,
            self.base * pow(self.factor as int, round) >= 0,
            self.duration_spec(round + 1) == if self.duration_spec(round) * self.factor
                <= self.max {
                self.duration_spec(round) * self.factor
            } else {
                self.max as int
            },
    {
        let f = self.factor as int;
        let p = pow(f, round);
        vstd::arithmetic::power::lemma_pow_positive(f, round);
        vstd::arithmetic::power::lemma_pow_adds(f, round, 1);
        vstd::arithmetic::power::lemma_pow1(f);
        assert(pow(f, round + 1) == p * f);
        let full = self.base * p;
        assert(self.base * pow(f, round + 1) == full * f) by (nonlinear_arith)
            requires
                pow(f, round + 1) == p * f,
                full == self.base * p,
        ;
        assert(full >= 0) by (nonlinear_arith)
            requires full == self.base * p, p > 0, self.base >= 0;
        if full > self.max {
            assert(full * f >= full) by (nonlinear_arith)
                requires f >= 1, full >= 0;
            assert(self.max * f >= self.max) by (nonlinear_arith)
                requires f >= 1, self.max >= 0;
        }
    }

    proof fn lemma_capped_stays(&self, i: nat, j: nat)
        requires
            self.factor >= 1,
            i <= j,
            self.duration_spec(i) == self.max,
        ensures
            self.duration_spec(j) == self.max,
        decreases j - i,
    {
        if i < j {
            self.lemma_step(i);
            assert(self.max * self.factor >= self.max) by (nonlinear_arith)
                requires self.factor >= 1, self.max >= 0;
            self.lemma_capped_stays(i + 1, j);
        }
    }

    /// Timeout for `round`.
    pub fn duration(&self, round: u64) -> (r: u64)
        requires
            self.factor >= 1,
        ensures
            r == self.duration_spec(round as nat),
    {
        let mut d: u64 = if self.base <= self.max {
            self.base
        } else {
            self.max
        };
        let mut i: u64 = 0;
        proof {
            vstd::arithmetic::power::lemma_pow0(self.factor as int);
            assert(self.base * pow(self.factor as int, 0) == self.base);
        }
        while i < round
            invariant
                i <= round,
                self.factor >= 1,
                d == self.duration_spec(i as nat),
            decreases round - i,
        {
            if d == self.max {
                proof {
                    self.lemma_capped_stays(i as nat, round as nat);
                }
                return d;
            }
            proof {
                self.lemma_step(i as nat);
            }
            assert((d as u128) * (self.factor as u128) <= u128::MAX) by (nonlinear_arith)
                requires d <= u64::MAX, self.factor <= u64::MAX;
            let next: u128 = (d as u128) * (self.factor as u128);
            d = if next <= self.max as u128 {
                next as u64
            } else {
                self.max
            };
            i = i + 1;
        }
        d
    }

    /// Later rounds never wait less, and wait strictly longer until the cap.
    pub proof fn lemma_backoff_grows(&self, round: nat)
        requires
            self.valid(),
        ensures
            self.duration_spec(round) <= self.duration_spec(round + 1),
            self.duration_spec(round) < self.max ==> self.duration_spec(round) < self.duration_spec(
                round + 1,
            ),
    {
        self.lemma_step(round);
        let f = self.factor as int;
        let d = self.duration_spec(round);
        vstd::arithmetic::power::lemma_pow_positive(f, round);
        let p = pow(f, round);
        assert(self.base * p >= 1) by (nonlinear_arith)
            requires self.base >= 1, p >= 1;
        assert(d >= 1);
        assert(d * f > d) by (nonlinear_arith)
            requires f >= 2, d >= 1;
    }
}

/// Holds the one live timer. A firing of any other handle is stale.
pub struct TimeoutScheduler {
    armed: Option<TimerHandle>,
}

impl TimeoutScheduler {
    pub closed spec fn live(&self) -> Option<TimerHandle> {
        self.armed
    }

    pub fn new() -> (r: Self)
        ensures
            r.live() is None,
    {
        TimeoutScheduler { armed: None }
    }

    /// Arms the timer for `step` of (`height`, `round`); the previous one
    /// must have been cancelled.
    pub fn arm(&mut self, height: u64, round: u64, step: Step) -> (r: TimerHandle)
        requires
            old(self).live() is None,
        ensures
            r == (TimerHandle { height, round, step }),
            final(self).live() == Some(r),
    {
        let h = TimerHandle { height, round, step };
        self.armed = Some(h);
        h
    }

    /// Cancels whatever timer is armed.
    pub fn cancel(&mut self) -> (r: Option<TimerHandle>)
        ensures
            r == old(self).live(),
            final(self).live() is None,
    {
        let r = self.armed;
        self.armed = None;
        r
    }

    /// A firing of `handle`: live when it is the armed timer, which is then
    /// spent; stale otherwise, and nothing changes.
    pub fn fire(&mut self, handle: TimerHandle) -> (r: bool)
        ensures
            r == (old(self).live() == Some(handle)),
            r ==> final(self).live() is None,
            !r ==> final(self).live() == old(self).live(),
    {
        match self.armed {
            Some(h) => {
                if h.height == handle.height && h.round == handle.round && h.step == handle.step {
                    self.armed = None;
                    true
                } else {
                    false
                }
            },
            None => false,
        }
    }
}

} // verus!
