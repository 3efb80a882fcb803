//! Rebuilding the consensus state from the bytes of the log, with a bounded
//! number of failed attempts before the engine halts.

use vstd::prelude::*;

use crate::codec::{decode_log, parse_log};
use crate::state::{genesis, lemma_replay_from_commit, replay, replay_spec, ConsensusState};
use crate::wal::{at_or_above, has_checkpoint, ordered, WalRecord, WAL};

verus! {

/// Why recovery failed.
#[derive(Clone, Copy, Debug, PartialEq, Eq, Structural)]
pub enum RecoveryError {
    /// The bytes are not a log: truncated, malformed or failing a checksum.
    Corrupt,
    /// The records are out of order, or run past the height they replay to.
    Inconsistent,
    /// Recovery failed too often; the engine must stop.
    Halted,
}

/// A log that recovery accepts: ordered, with a sequence number left to
/// append with, and no record above the height that it replays to.
pub open spec fn consistent(recs: Seq<WalRecord>) -> bool {
    &&& ordered(recs)
    &&& recs.len() > 0 ==> recs.last().seq < u64::MAX
    &&& recs.len() > 0 ==> recs.last().height <= replay_spec(genesis(), recs).height
}

/// Bytes that hold a log recovery accepts.
pub open spec fn recoverable(bytes: Seq<u8>) -> bool {
    parse_log(bytes) matches Some(recs) && consistent(recs)
}

/// Replays the log read back from storage, counting failed attempts.
pub struct RecoveryManager {
    failures: u64,
    limit: u64,
    halted: bool,
}

fn is_ordered(recs: &Vec<WalRecord>) -> (r: bool)
    ensures
        r == ordered(recs@),
{
    let n = recs.len();
    if n == 0 {
        return true;
    }
    let mut i: usize = 1;
    while i < n
        invariant
            1 <= i <= n,
            n == recs@.len(),
            ordered(recs@.subrange(0, i as int)),
        decreases n - i,
    {
        let a = recs[i - 1];
        let b = recs[i];
        if !(a.seq < b.seq && a.height <= b.height) {
            assert(!ordered(recs@)) by {
                assert(recs@[i - 1] == a && recs@[i as int] == b);
            }
            return false;
        }
        proof {
            let s = recs@.subrange(0, i as int + 1);
            let t = recs@.subrange(0, i as int);
            assert forall|x: int, y: int| 0 <= x < y < s.len() implies #[trigger] s[x].seq
                < #[trigger] s[y].seq && s[x].height <= s[y].height by {
                if y < i {
                    assert(s[x] == t[x] && s[y] == t[y]);
                } else if x < i - 1 {
                    assert(s[x] == t[x] && t[i - 1] == a);
                    assert(t[x].seq < t[i - 1].seq);
                }
            }
        }
        i = i + 1;
    }
    assert(recs@.subrange(0, n as int) == recs@);
    true
}

impl RecoveryManager {
    pub closed spec fn failures_view(&self) -> u64 {
        self.failures
    }

    pub closed spec fn limit_view(&self) -> u64 {
        self.limit
    }

    pub closed spec fn is_halted(&self) -> bool {
        self.halted
    }

    /// A manager that halts at the `recovery_retry_times`-th failure.
    pub fn new(recovery_retry_times: u64) -> (r: Self)
        ensures
            r.failures_view() == 0,
            r.limit_view() == recovery_retry_times,
            !r.is_halted(),
    {
        RecoveryManager { failures: 0, limit: recovery_retry_times, halted: false }
    }

    pub fn halted(&self) -> (r: bool)
        ensures
            r == self.is_halted(),
    {
        self.halted
    }

    /// Rebuilds the state from `bytes`, the contents of the log file `fd`.
    /// On success returns the replayed state and the log to continue; a
    /// failure is counted, and the failure that reaches the limit halts.
    pub fn recover(&mut self, fd: String, bytes: &[u8]) -> (r: Result<(ConsensusState, WAL), RecoveryError>)
        ensures
            final(self).limit_view() == old(self).limit_view(),
            old(self).is_halted() ==> r == Err::<(ConsensusState, WAL), RecoveryError>(RecoveryError::Halted)
                && *final(self) == *old(self),
            !old(self).is_halted() && recoverable(bytes@) ==> (r matches Ok((s, w))
                && s == replay_spec(genesis(), parse_log(bytes@)->Some_0) && w.wf()
                && w.records_view() == parse_log(bytes@)->Some_0 && w.fd_view() == fd@)
                && final(self).failures_view() == 0 && !final(self).is_halted(),
            !old(self).is_halted() && !recoverable(bytes@) ==> final(self).failures_view() == (
                if old(self).failures_view() < u64::MAX {
                    old(self).failures_view() + 1
                } else {
                    old(self).failures_view() as int
                }) && final(self).is_halted() == (final(self).failures_view() >= final(self).limit_view())
                && r == Err::<(ConsensusState, WAL), RecoveryError>(if final(self).is_halted() {
                    RecoveryError::Halted
                } else if parse_log(bytes@) is None {
                    RecoveryError::Corrupt
                } else {
                    RecoveryError::Inconsistent
                }),
    {
        if self.halted {
            return Err(RecoveryError::Halted);
        }
        let err = match decode_log(bytes) {
            Some(recs) => {
                let state = replay(&recs);
                let n = recs.len();
                if is_ordered(&recs) && (n == 0 || (recs[n - 1].seq < u64::MAX && recs[n - 1].height
                    <= state.height)) {
                    self.failures = 0;
                    return Ok((state, WAL::from_records(fd, recs)));
                }
                RecoveryError::Inconsistent
            },
            None => RecoveryError::Corrupt,
        };
        if self.failures < u64::MAX {
            self.failures = self.failures + 1;
        }
        if self.failures >= self.limit {
            self.halted = true;
            return Err(RecoveryError::Halted);
        }
        Err(err)
    }
}

proof fn lemma_filter_keeps_all(s: Seq<WalRecord>, p: spec_fn(WalRecord) -> bool)
    requires
        forall|i: int| 0 <= i < s.len() ==> p(#[trigger] s[i]),
    ensures
        s.filter(p) == s,
    decreases s.len(),
{
    reveal(Seq::filter);
    if s.len() > 0 {
        lemma_filter_keeps_all(s.drop_last(), p);
        assert(s.drop_last().push(s.last()) == s);
    }
}

/// Truncating the log below a height that a kept commit covers does not
/// change the state it replays to.
pub proof fn lemma_truncate_keeps_replay(recs: Seq<WalRecord>, height: u64)
    requires
        ordered(recs),
        has_checkpoint(recs, height),
    ensures
        replay_spec(genesis(), recs.filter(at_or_above(height))) == replay_spec(genesis(), recs),
{
    let k = choose|k: int|
        0 <= k < recs.len() && (#[trigger] recs[k]).entry is Commit && recs[k].height >= height;
    let p = at_or_above(height);
    let a = recs.subrange(0, k);
    let c = recs[k];
    let b = recs.subrange(k + 1, recs.len() as int);
    assert(recs == a.push(c) + b);
    assert forall|i: int| 0 <= i < b.len() implies p(#[trigger] b[i]) by {
        assert(b[i] == recs[k + 1 + i]);
        assert(recs[k].seq < recs[k + 1 + i].seq && recs[k].height <= recs[k + 1 + i].height);
    }
    lemma_filter_keeps_all(b, p);
    Seq::filter_distributes_over_add(a.push(c), b, p);
    Seq::filter_distributes_over_add(a, seq![c], p);
    assert(a + seq![c] == a.push(c));
    reveal(Seq::filter);
    assert(seq![c].drop_last() == Seq::<WalRecord>::empty());
    assert(seq![c].filter(p) == seq![c]);
    assert(a.filter(p) + seq![c] == a.filter(p).push(c));
    lemma_replay_from_commit(genesis(), genesis(), a.filter(p), a, c, b);
}

} // verus!
