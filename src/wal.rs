//! The write-ahead log: an ordered, append-only record of every state
//! transition of the driver.

use vstd::prelude::*;

use crate::types::{Proposal, Vote};

verus! {

/// What a log record holds.
#[derive(Clone, Copy, Debug, PartialEq, Eq, Structural)]
pub enum WalEntry {
    Proposal(Proposal),
    Vote(Vote),
    LockChange(u64),
    Commit(u64),
    ViewChange,
}

/// One log record, at the height and round it was written in.
#[derive(Clone, Copy, Debug, PartialEq, Eq, Structural)]
pub struct WalRecord {
    pub seq: u64,
    pub height: u64,
    pub round: u64,
    pub entry: WalEntry,
}

/// Why the log refused an operation.
#[derive(Clone, Copy, Debug, PartialEq, Eq, Structural)]
pub enum WalError {
    /// Every sequence number has been used.
    SequenceExhausted,
    /// No commit at or above the requested height is kept to recover from.
    NoCheckpoint,
}

/// Sequence numbers strictly increase and heights never decrease.
pub open spec fn ordered(recs: Seq<WalRecord>) -> bool {
    forall|i: int, j: int|
        0 <= i < j < recs.len() ==> #[trigger] recs[i].seq < #[trigger] recs[j].seq && recs[i].height
            <= recs[j].height
}

/// A commit record at or above `height`, from which recovery can start.
pub open spec fn has_checkpoint(recs: Seq<WalRecord>, height: u64) -> bool {
    exists|k: int|
        0 <= k < recs.len() && (#[trigger] recs[k]).entry is Commit && recs[k].height >= height
}

pub open spec fn at_or_above(height: u64) -> spec_fn(WalRecord) -> bool {
    |r: WalRecord| r.height >= height
}

/// The write-ahead log. `fd` names the file that holds its bytes.
pub struct WAL {
    fd: String,
    records: Vec<WalRecord>,
    next_seq: u64,
}

impl WAL {
    pub closed spec fn records_view(&self) -> Seq<WalRecord> {
        self.records@
    }

    pub closed spec fn next_seq_view(&self) -> u64 {
        self.next_seq
    }

    pub closed spec fn fd_view(&self) -> Seq<char> {
        self.fd@
    }

    pub open spec fn wf(&self) -> bool {
        &&& ordered(self.records_view())
        &&& forall|i: int|
            0 <= i < self.records_view().len() ==> (#[trigger] self.records_view()[i]).seq
                < self.next_seq_view()
    }

    /// Height of the last record, 0 for an empty log.
    pub open spec fn last_height(&self) -> u64 {
        if self.records_view().len() == 0 {
            0
        } else {
            self.records_view().last().height
        }
    }

    /// An empty log kept in the file `fd`.
    pub fn new(fd: String) -> (r: Self)
        ensures
            r.wf(),
            r.records_view() == Seq::<WalRecord>::empty(),
            r.next_seq_view() == 0,
            r.fd_view() == fd@,
    {
        WAL { fd, records: Vec::new(), next_seq: 0 }
    }

    /// A log that continues from `records`, as read back from its file.
    pub fn from_records(fd: String, records: Vec<WalRecord>) -> (r: Self)
        requires
            ordered(records@),
            records@.len() > 0 ==> records@.last().seq < u64::MAX,
        ensures
            r.wf(),
            r.records_view() == records@,
            r.fd_view() == fd@,
    {
        let next_seq: u64 = if records.len() == 0 {
            0
        } else {
            records[records.len() - 1].seq + 1
        };
        proof {
            let rs = records@;
            assert forall|i: int| 0 <= i < rs.len() implies (#[trigger] rs[i]).seq < next_seq by {
                if i < rs.len() - 1 {
                    assert(rs[i].seq < rs[rs.len() - 1].seq);
                }
            }
        }
        WAL { fd, records, next_seq }
    }

    pub fn fd(&self) -> (r: &String)
        ensures
            r@ == self.fd_view(),
    {
        &self.fd
    }

    pub fn records(&self) -> (r: &Vec<WalRecord>)
        ensures
            r@ == self.records_view(),
    {
        &self.records
    }

    pub fn len(&self) -> (r: usize)
        ensures
            r == self.records_view().len(),
    {
        self.records.len()
    }

    /// Appends a record and returns its sequence number.
    pub fn append(&mut self, height: u64, round: u64, entry: WalEntry) -> (r: Result<u64, WalError>)
        requires
            old(self).wf(),
            height >= old(self).last_height(),
        ensures
            final(self).wf(),
            final(self).fd_view() == old(self).fd_view(),
            match r {
                Ok(seq) => seq == old(self).next_seq_view() && final(self).records_view() == old(
                    self,
                ).records_view().push(WalRecord { seq, height, round, entry }),
                Err(e) => e == WalError::SequenceExhausted && old(self).next_seq_view() == u64::MAX
                    && *final(self) == *old(self),
            },
            r is Err <==> old(self).next_seq_view() == u64::MAX,
            r is Ok ==> final(self).next_seq_view() == old(self).next_seq_view() + 1,
    {
        if self.next_seq == u64::MAX {
            return Err(WalError::SequenceExhausted);
        }
        let seq = self.next_seq;
        let ghost before = self.records@;
        self.records.push(WalRecord { seq, height, round, entry });
        self.next_seq = seq + 1;
        proof {
            let rs = self.records@;
            assert forall|i: int, j: int| 0 <= i < j < rs.len() implies #[trigger] rs[i].seq
                < #[trigger] rs[j].seq && rs[i].height <= rs[j].height by {
                if j < rs.len() - 1 {
                    assert(before[i] == rs[i] && before[j] == rs[j]);
                } else {
                    assert(before[i] == rs[i]);
                    if before.len() > 0 {
                        if i < before.len() - 1 {
                            assert(before[i].height <= before[before.len() - 1].height);
                        }
                    }
                }
            }
            assert forall|i: int| 0 <= i < rs.len() implies (#[trigger] rs[i]).seq < self.next_seq by {
                if i < rs.len() - 1 {
                    assert(before[i] == rs[i]);
                }
            }
        }
        Ok(seq)
    }

    /// Drops the records of heights below `height`. Refused unless a commit
    /// record at or above `height` is kept, from which recovery can start.
    pub fn truncate(&mut self, height: u64) -> (r: Result<(), WalError>)
        requires
            old(self).wf(),
        ensures
            final(self).wf(),
            final(self).fd_view() == old(self).fd_view(),
            final(self).next_seq_view() == old(self).next_seq_view(),
            r is Ok <==> has_checkpoint(old(self).records_view(), height),
            r is Ok ==> final(self).records_view() == old(self).records_view().filter(
                at_or_above(height),
            ),
            r is Err ==> r == Err::<(), WalError>(WalError::NoCheckpoint) && *final(self) == *old(self),
    {
        let ghost recs = self.records@;
        let mut found = false;
        let mut i: usize = 0;
        while i < self.records.len()
            invariant
                i <= recs.len(),
                recs == self.records@,
                found == exists|k: int|
                    0 <= k < i && (#[trigger] recs[k]).entry is Commit && recs[k].height >= height,
            decreases recs.len() - i,
        {
            let rec = self.records[i];
            if rec.height >= height {
                match rec.entry {
                    WalEntry::Commit(_) => {
                        found = true;
                    },
                    _ => {},
                }
            }
            i = i + 1;
        }
        if !found {
            return Err(WalError::NoCheckpoint);
        }
        let mut kept: Vec<WalRecord> = Vec::new();
        let mut j: usize = 0;
        while j < self.records.len()
            invariant
                j <= recs.len(),
                recs == self.records@,
                ordered(recs),
                kept@ == recs.subrange(0, j as int).filter(at_or_above(height)),
            decreases recs.len() - j,
        {
            let rec = self.records[j];
            proof {
                reveal(Seq::filter);
                let pre = recs.subrange(0, j as int);
                let next = recs.subrange(0, j as int + 1);
                assert(next.drop_last() == pre);
                assert(next.last() == rec);
            }
            if rec.height >= height {
                kept.push(rec);
            }
            j = j + 1;
        }
        proof {
            assert(recs.subrange(0, recs.len() as int) == recs);
            let f = recs.filter(at_or_above(height));
            assert(ordered(f)) by {
                assert forall|a: int, b: int| 0 <= a < b < f.len() implies #[trigger] f[a].seq
                    < #[trigger] f[b].seq && f[a].height <= f[b].height by {
                    lemma_filter_order(recs, at_or_above(height), a, b);
                }
            }
            assert forall|a: int| 0 <= a < f.len() implies (#[trigger] f[a]).seq < self.next_seq by {
                assert(f.contains(f[a]));
                recs.lemma_filter_contains_rev(at_or_above(height), f[a]);
            }
        }
        self.records = kept;
        Ok(())
    }
}

/// Filtering keeps the relative order of what it keeps.
proof fn lemma_filter_order(s: Seq<WalRecord>, p: spec_fn(WalRecord) -> bool, a: int, b: int)
    requires
        ordered(s),
        0 <= a < b < s.filter(p).len(),
    ensures
        s.filter(p)[a].seq < s.filter(p)[b].seq,
        s.filter(p)[a].height <= s.filter(p)[b].height,
    decreases s.len(),
{
    reveal(Seq::filter);
    let rest = s.drop_last();
    assert(ordered(rest)) by {
        assert forall|i: int, j: int| 0 <= i < j < rest.len() implies #[trigger] rest[i].seq
            < #[trigger] rest[j].seq && rest[i].height <= rest[j].height by {
            assert(rest[i] == s[i] && rest[j] == s[j]);
        }
    }
    if p(s.last()) {
        let f = rest.filter(p);
        assert(s.filter(p) == f.push(s.last()));
        if b < f.len() {
            lemma_filter_order(rest, p, a, b);
        } else {
            assert(f.contains(f[a]));
            rest.lemma_filter_contains_rev(p, f[a]);
            let k = choose|k: int| 0 <= k < rest.len() && rest[k] == f[a];
            assert(s[k] == f[a]);
            assert(s[k].seq < s[s.len() - 1].seq);
        }
    } else {
        assert(s.filter(p) == rest.filter(p));
        lemma_filter_order(rest, p, a, b);
    }
}

} // verus!
