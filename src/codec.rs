//! The byte layout of the write-ahead log. Each record is its body's length
//! (`u32`), the body, and an FNV checksum of the body (`u32`), all
//! little-endian. A body is `seq`, `height`, `round` (`u64` each), a kind
//! byte and the entry's payload.

use vstd::prelude::*;
use vstd::bytes::{
    lemma_auto_spec_u32_to_from_le_bytes, lemma_auto_spec_u64_to_from_le_bytes,
    spec_u32_from_le_bytes, spec_u32_to_le_bytes, spec_u64_from_le_bytes, spec_u64_to_le_bytes,
    u32_from_le_bytes, u32_to_le_bytes, u64_from_le_bytes, u64_to_le_bytes,
};
use vstd::slice::slice_subrange;

use crate::pow::{fnv_hash, fnv_spec};
use crate::types::{Proposal, Vote, VoteKind};
use crate::wal::{WalEntry, WalRecord};

verus! {

pub const FNV_OFFSET: u32 = 0x811c9dc5;

/// FNV checksum of `s`.
pub open spec fn checksum_spec(s: Seq<u8>) -> u32
    decreases s.len(),
{
    if s.len() == 0 {
        FNV_OFFSET
    } else {
        fnv_spec(checksum_spec(s.drop_last()), s.last() as u32)
    }
}

pub open spec fn le64(x: u64) -> Seq<u8> {
    spec_u64_to_le_bytes(x)
}

pub open spec fn le32(x: u32) -> Seq<u8> {
    spec_u32_to_le_bytes(x)
}

pub open spec fn kind_byte(k: VoteKind) -> u8 {
    match k {
        VoteKind::Prevote => 0,
        VoteKind::Precommit => 1,
    }
}

pub open spec fn tag(e: WalEntry) -> u8 {
    match e {
        WalEntry::Proposal(_) => 0,
        WalEntry::Vote(_) => 1,
        WalEntry::LockChange(_) => 2,
        WalEntry::Commit(_) => 3,
        WalEntry::ViewChange => 4,
    }
}

pub open spec fn payload(e: WalEntry) -> Seq<u8> {
    match e {
        WalEntry::Proposal(p) => le64(p.height) + le64(p.round) + le64(p.block) + le32(p.proposer),
        WalEntry::Vote(v) => seq![kind_byte(v.kind)] + le64(v.height) + le64(v.round) + match v.block {
            Some(b) => seq![1u8] + le64(b),
            None => seq![0u8] + le64(0),
        } + le32(v.validator),
        WalEntry::LockChange(b) => le64(b),
        WalEntry::Commit(b) => le64(b),
        WalEntry::ViewChange => Seq::empty(),
    }
}

pub open spec fn body(r: WalRecord) -> Seq<u8> {
    le64(r.seq) + le64(r.height) + le64(r.round) + seq![tag(r.entry)] + payload(r.entry)
}

/// The bytes of one record.
pub open spec fn record_bytes(r: WalRecord) -> Seq<u8> {
    le32(body(r).len() as u32) + body(r) + le32(checksum_spec(body(r)))
}

/// The bytes of a log: its records' bytes, in order.
pub open spec fn log_bytes(recs: Seq<WalRecord>) -> Seq<u8>
    decreases recs.len(),
{
    if recs.len() == 0 {
        Seq::empty()
    } else {
        record_bytes(recs[0]) + log_bytes(recs.skip(1))
    }
}

pub open spec fn u64_at(s: Seq<u8>, i: int) -> u64 {
    spec_u64_from_le_bytes(s.subrange(i, i + 8))
}

pub open spec fn u32_at(s: Seq<u8>, i: int) -> u32 {
    spec_u32_from_le_bytes(s.subrange(i, i + 4))
}

/// The entry that tag `t` and payload `p` encode, if any.
pub open spec fn parse_entry(t: u8, p: Seq<u8>) -> Option<WalEntry> {
    if t == 0 && p.len() == 28 {
        Some(
            WalEntry::Proposal(
                Proposal {
                    height: u64_at(p, 0),
                    round: u64_at(p, 8),
                    block: u64_at(p, 16),
                    proposer: u32_at(p, 24),
                },
            ),
        )
    } else if t == 1 && p.len() == 30 && p[0] <= 1 && p[17] <= 1 && (p[17] == 0 ==> u64_at(p, 18)
        == 0) {
        Some(
            WalEntry::Vote(
                Vote {
                    kind: if p[0] == 0 {
                        VoteKind::Prevote
                    } else {
                        VoteKind::Precommit
                    },
                    height: u64_at(p, 1),
                    round: u64_at(p, 9),
                    block: if p[17] == 1 {
                        Some(u64_at(p, 18))
                    } else {
                        None
                    },
                    validator: u32_at(p, 26),
                },
            ),
        )
    } else if t == 2 && p.len() == 8 {
        Some(WalEntry::LockChange(u64_at(p, 0)))
    } else if t == 3 && p.len() == 8 {
        Some(WalEntry::Commit(u64_at(p, 0)))
    } else if t == 4 && p.len() == 0 {
        Some(WalEntry::ViewChange)
    } else {
        None
    }
}

/// The record that body `b` encodes, if any.
pub open spec fn parse_body(b: Seq<u8>) -> Option<WalRecord> {
    if b.len() < 25 {
        None
    } else {
        match parse_entry(b[24], b.subrange(25, b.len() as int)) {
            Some(e) => Some(
                WalRecord { seq: u64_at(b, 0), height: u64_at(b, 8), round: u64_at(b, 16), entry: e },
            ),
            None => None,
        }
    }
}

/// The records that `bytes` encodes, or `None` when they are not a log:
/// a length runs past the end, a checksum does not match, or a body is
/// malformed.
pub open spec fn parse_log(bytes: Seq<u8>) -> Option<Seq<WalRecord>>
    decreases bytes.len(),
{
    if bytes.len() == 0 {
        Some(Seq::empty())
    } else if bytes.len() < 8 {
        None
    } else {
        let n = u32_at(bytes, 0) as int;
        if bytes.len() < 8 + n {
            None
        } else {
            let b = bytes.subrange(4, 4 + n);
            if u32_at(bytes, 4 + n) != checksum_spec(b) {
                None
            } else {
                match parse_body(b) {
                    Some(r) => match parse_log(bytes.subrange(8 + n, bytes.len() as int)) {
                        Some(rest) => Some(seq![r] + rest),
                        None => None,
                    },
                    None => None,
                }
            }
        }
    }
}

proof fn lemma_u64_at(a: Seq<u8>, x: u64, c: Seq<u8>)
    ensures
        u64_at(a + le64(x) + c, a.len() as int) == x,
        le64(x).len() == 8,
{
    lemma_auto_spec_u64_to_from_le_bytes();
    let s = a + le64(x) + c;
    assert(s.subrange(a.len() as int, a.len() as int + 8) == le64(x));
}

proof fn lemma_u32_at(a: Seq<u8>, x: u32, c: Seq<u8>)
    ensures
        u32_at(a + le32(x) + c, a.len() as int) == x,
        le32(x).len() == 4,
{
    lemma_auto_spec_u32_to_from_le_bytes();
    let s = a + le32(x) + c;
    assert(s.subrange(a.len() as int, a.len() as int + 4) == le32(x));
}

proof fn lemma_entry_round_trip(e: WalEntry)
    ensures
        parse_entry(tag(e), payload(e)) == Some(e),
        payload(e).len() <= 30,
{
    lemma_auto_spec_u64_to_from_le_bytes();
    lemma_auto_spec_u32_to_from_le_bytes();
    let p = payload(e);
    let z = Seq::<u8>::empty();
    match e {
        WalEntry::Proposal(q) => {
            let a = le64(q.height);
            let b = le64(q.round);
            let c = le64(q.block);
            let d = le32(q.proposer);
            assert(p == z + a + (b + c + d));
            lemma_u64_at(z, q.height, b + c + d);
            assert(p == a + b + (c + d));
            lemma_u64_at(a, q.round, c + d);
            assert(p == (a + b) + c + d);
            lemma_u64_at(a + b, q.block, d);
            assert(p == (a + b + c) + d + z);
            lemma_u32_at(a + b + c, q.proposer, z);
        },
        WalEntry::Vote(v) => {
            let k = seq![kind_byte(v.kind)];
            let h = le64(v.height);
            let r = le64(v.round);
            let (f, bb) = match v.block {
                Some(b) => (seq![1u8], le64(b)),
                None => (seq![0u8], le64(0)),
            };
            let bv: u64 = match v.block {
                Some(b) => b,
                None => 0,
            };
            let w = le32(v.validator);
            assert(p == k + h + (r + f + bb + w));
            lemma_u64_at(k, v.height, r + f + bb + w);
            assert(p == (k + h) + r + (f + bb + w));
            lemma_u64_at(k + h, v.round, f + bb + w);
            assert(p == (k + h + r + f) + bb + w);
            lemma_u64_at(k + h + r + f, bv, w);
            assert(p == (k + h + r + f + bb) + w + z);
            lemma_u32_at(k + h + r + f + bb, v.validator, z);
            assert(p[0] == kind_byte(v.kind));
            assert(p[17] == f[0]);
        },
        WalEntry::LockChange(b) => {
            assert(p == z + le64(b) + z);
            lemma_u64_at(z, b, z);
        },
        WalEntry::Commit(b) => {
            assert(p == z + le64(b) + z);
            lemma_u64_at(z, b, z);
        },
        WalEntry::ViewChange => {},
    }
}

proof fn lemma_body_round_trip(r: WalRecord)
    ensures
        parse_body(body(r)) == Some(r),
        25 <= body(r).len() <= 55,
{
    lemma_entry_round_trip(r.entry);
    let s = le64(r.seq);
    let h = le64(r.height);
    let d = le64(r.round);
    let t = seq![tag(r.entry)];
    let p = payload(r.entry);
    let b = body(r);
    lemma_u64_at(Seq::empty(), r.seq, h + d + t + p);
    assert(b == Seq::<u8>::empty() + s + (h + d + t + p));
    lemma_u64_at(s, r.height, d + t + p);
    assert(b == s + h + (d + t + p));
    lemma_u64_at(s + h, r.round, t + p);
    assert(b == (s + h) + d + (t + p));
    assert(b[24] == tag(r.entry));
    assert(b.subrange(25, b.len() as int) == p);
}

proof fn lemma_log_bytes_push(recs: Seq<WalRecord>, r: WalRecord)
    ensures
        log_bytes(recs.push(r)) == log_bytes(recs) + record_bytes(r),
    decreases recs.len(),
{
    if recs.len() == 0 {
        assert(recs.push(r).skip(1) == Seq::<WalRecord>::empty());
        assert(recs.push(r)[0] == r);
        assert(log_bytes(Seq::<WalRecord>::empty()) == Seq::<u8>::empty());
        assert(log_bytes(recs.push(r)) == record_bytes(r) + Seq::<u8>::empty());
        assert(record_bytes(r) + Seq::<u8>::empty() == record_bytes(r));
        assert(Seq::<u8>::empty() + record_bytes(r) == record_bytes(r));
    } else {
        lemma_log_bytes_push(recs.skip(1), r);
        assert(recs.push(r).skip(1) == recs.skip(1).push(r));
        assert(recs.push(r)[0] == recs[0]);
    }
}

/// Reading back the bytes of a log gives the log itself.
pub proof fn lemma_log_round_trip(recs: Seq<WalRecord>)
    ensures
        parse_log(log_bytes(recs)) == Some(recs),
    decreases recs.len(),
{
    if recs.len() > 0 {
        let r = recs[0];
        let b = body(r);
        let rest = log_bytes(recs.skip(1));
        let bytes = log_bytes(recs);
        lemma_body_round_trip(r);
        lemma_auto_spec_u32_to_from_le_bytes();
        let n = b.len() as int;
        let lenb = le32(b.len() as u32);
        let ck = le32(checksum_spec(b));
        assert(bytes == lenb + b + ck + rest);
        lemma_u32_at(Seq::empty(), b.len() as u32, b + ck + rest);
        assert(bytes == Seq::<u8>::empty() + lenb + (b + ck + rest));
        assert(u32_at(bytes, 0) as int == n);
        lemma_u32_at(lenb + b, checksum_spec(b), rest);
        assert(bytes == (lenb + b) + ck + rest);
        assert(bytes.subrange(4, 4 + n) == b);
        assert(bytes.subrange(8 + n, bytes.len() as int) == rest);
        lemma_log_round_trip(recs.skip(1));
        assert(seq![r] + recs.skip(1) == recs);
    }
}

/// Appends `src` to `buf`.
pub fn extend_bytes(buf: &mut Vec<u8>, src: &[u8])
    ensures
        final(buf)@ == old(buf)@ + src@,
{
    let mut i: usize = 0;
    while i < src.len()
        invariant
            i <= src@.len(),
            buf@ == old(buf)@ + src@.subrange(0, i as int),
        decreases src@.len() - i,
    {
        buf.push(src[i]);
        i = i + 1;
        assert(src@.subrange(0, i as int) == src@.subrange(0, i as int - 1).push(src@[i as int - 1]));
    }
    assert(src@.subrange(0, src@.len() as int) == src@);
}

/// FNV checksum of `s`.
pub fn checksum(s: &[u8]) -> (r: u32)
    ensures
        r == checksum_spec(s@),
{
    let mut h: u32 = FNV_OFFSET;
    let mut i: usize = 0;
    while i < s.len()
        invariant
            i <= s@.len(),
            h == checksum_spec(s@.subrange(0, i as int)),
        decreases s@.len() - i,
    {
        proof {
            let next = s@.subrange(0, i as int + 1);
            assert(next.drop_last() == s@.subrange(0, i as int));
            assert(next.last() == s@[i as int]);
        }
        h = fnv_hash(h, s[i] as u32);
        i = i + 1;
    }
    assert(s@.subrange(0, s@.len() as int) == s@);
    h
}

fn put_u64(buf: &mut Vec<u8>, x: u64)
    ensures
        final(buf)@ == old(buf)@ + le64(x),
{
    let b = u64_to_le_bytes(x);
    extend_bytes(buf, b.as_slice());
}

fn put_u32(buf: &mut Vec<u8>, x: u32)
    ensures
        final(buf)@ == old(buf)@ + le32(x),
{
    let b = u32_to_le_bytes(x);
    extend_bytes(buf, b.as_slice());
}

fn encode_body(r: &WalRecord) -> (b: Vec<u8>)
    ensures
        b@ == body(*r),
{
    let mut b: Vec<u8> = Vec::new();
    put_u64(&mut b, r.seq);
    put_u64(&mut b, r.height);
    put_u64(&mut b, r.round);
    let ghost head = b@;
    match r.entry {
        WalEntry::Proposal(p) => {
            b.push(0);
            put_u64(&mut b, p.height);
            put_u64(&mut b, p.round);
            put_u64(&mut b, p.block);
            put_u32(&mut b, p.proposer);
        },
        WalEntry::Vote(v) => {
            b.push(1);
            match v.kind {
                VoteKind::Prevote => b.push(0),
                VoteKind::Precommit => b.push(1),
            }
            put_u64(&mut b, v.height);
            put_u64(&mut b, v.round);
            match v.block {
                Some(x) => {
                    b.push(1);
                    put_u64(&mut b, x);
                },
                None => {
                    b.push(0);
                    put_u64(&mut b, 0);
                },
            }
            put_u32(&mut b, v.validator);
        },
        WalEntry::LockChange(x) => {
            b.push(2);
            put_u64(&mut b, x);
        },
        WalEntry::Commit(x) => {
            b.push(3);
            put_u64(&mut b, x);
        },
        WalEntry::ViewChange => {
            b.push(4);
        },
    }
    assert(b@ == head + seq![tag(r.entry)] + payload(r.entry));
    b
}

/// Appends the bytes of record `r` to `out`.
pub fn encode_record(r: &WalRecord, out: &mut Vec<u8>)
    ensures
        final(out)@ == old(out)@ + record_bytes(*r),
{
    let b = encode_body(r);
    proof {
        lemma_body_round_trip(*r);
    }
    put_u32(out, b.len() as u32);
    extend_bytes(out, b.as_slice());
    let c = checksum(b.as_slice());
    put_u32(out, c);
    assert(final(out)@ == old(out)@ + record_bytes(*r)) by {
        assert(out@ == old(out)@ + le32(b@.len() as u32) + b@ + le32(c));
    }
}

/// The bytes of the log `recs`.
pub fn encode_log(recs: &Vec<WalRecord>) -> (r: Vec<u8>)
    ensures
        r@ == log_bytes(recs@),
{
    let mut out: Vec<u8> = Vec::new();
    let mut i: usize = 0;
    while i < recs.len()
        invariant
            i <= recs@.len(),
            out@ == log_bytes(recs@.subrange(0, i as int)),
        decreases recs@.len() - i,
    {
        proof {
            lemma_log_bytes_push(recs@.subrange(0, i as int), recs@[i as int]);
            assert(recs@.subrange(0, i as int + 1) == recs@.subrange(0, i as int).push(recs@[i as int]));
        }
        encode_record(&recs[i], &mut out);
        i = i + 1;
    }
    assert(recs@.subrange(0, recs@.len() as int) == recs@);
    out
}

fn get_u64(s: &[u8], i: usize) -> (r: u64)
    requires
        i + 8 <= s@.len(),
    ensures
        r == u64_at(s@, i as int),
{
    let n = s.len();
    assert(i + 8 <= n);
    u64_from_le_bytes(slice_subrange(s, i, i + 8))
}

fn get_u32(s: &[u8], i: usize) -> (r: u32)
    requires
        i + 4 <= s@.len(),
    ensures
        r == u32_at(s@, i as int),
{
    let n = s.len();
    assert(i + 4 <= n);
    u32_from_le_bytes(slice_subrange(s, i, i + 4))
}

fn decode_entry(t: u8, p: &[u8]) -> (r: Option<WalEntry>)
    ensures
        r == parse_entry(t, p@),
{
    let n = p.len();
    if t == 0 && n == 28 {
        Some(
            WalEntry::Proposal(
                Proposal {
                    height: get_u64(p, 0),
                    round: get_u64(p, 8),
                    block: get_u64(p, 16),
                    proposer: get_u32(p, 24),
                },
            ),
        )
    } else if t == 1 && n == 30 {
        if p[0] > 1 || p[17] > 1 {
            return None;
        }
        let b = get_u64(p, 18);
        if p[17] == 0 && b != 0 {
            return None;
        }
        let kind = if p[0] == 0 {
            VoteKind::Prevote
        } else {
            VoteKind::Precommit
        };
        let block = if p[17] == 1 {
            Some(b)
        } else {
            None
        };
        Some(
            WalEntry::Vote(
                Vote {
                    kind,
                    height: get_u64(p, 1),
                    round: get_u64(p, 9),
                    block,
                    validator: get_u32(p, 26),
                },
            ),
        )
    } else if t == 2 && n == 8 {
        Some(WalEntry::LockChange(get_u64(p, 0)))
    } else if t == 3 && n == 8 {
        Some(WalEntry::Commit(get_u64(p, 0)))
    } else if t == 4 && n == 0 {
        Some(WalEntry::ViewChange)
    } else {
        None
    }
}

fn decode_body(b: &[u8]) -> (r: Option<WalRecord>)
    ensures
        r == parse_body(b@),
{
    let n = b.len();
    if n < 25 {
        return None;
    }
    match decode_entry(b[24], slice_subrange(b, 25, n)) {
        Some(e) => Some(
            WalRecord { seq: get_u64(b, 0), height: get_u64(b, 8), round: get_u64(b, 16), entry: e },
        ),
        None => None,
    }
}

pub open spec fn prepend(a: Seq<WalRecord>, o: Option<Seq<WalRecord>>) -> Option<Seq<WalRecord>> {
    match o {
        Some(x) => Some(a + x),
        None => None,
    }
}

/// The records that `bytes` encodes; `None` when they are not a log.
pub fn decode_log(bytes: &[u8]) -> (r: Option<Vec<WalRecord>>)
    ensures
        match r {
            Some(v) => parse_log(bytes@) == Some(v@),
            None => parse_log(bytes@) is None,
        },
{
    let len = bytes.len();
    let mut acc: Vec<WalRecord> = Vec::new();
    let mut pos: usize = 0;
    assert(bytes@.subrange(0, len as int) == bytes@);
    assert(acc@ + Seq::<WalRecord>::empty() == acc@);
    while pos < len
        invariant
            pos <= len,
            len == bytes@.len(),
            parse_log(bytes@) == prepend(acc@, parse_log(bytes@.subrange(pos as int, len as int))),
        decreases len - pos,
    {
        let ghost suffix = bytes@.subrange(pos as int, len as int);
        let rem: usize = len - pos;
        if rem < 8 {
            return None;
        }
        let n = get_u32(bytes, pos);
        assert(suffix.subrange(0, 4) == bytes@.subrange(pos as int, pos as int + 4));
        if (rem as u64) < 8 + (n as u64) {
            return None;
        }
        let nn = n as usize;
        let b = slice_subrange(bytes, pos + 4, pos + 4 + nn);
        assert(b@ == suffix.subrange(4, 4 + nn as int));
        let c = get_u32(bytes, pos + 4 + nn);
        assert(suffix.subrange(4 + nn as int, 8 + nn as int) == bytes@.subrange(pos + 4 + nn as int, pos + 8 + nn as int));
        if c != checksum(b) {
            return None;
        }
        match decode_body(b) {
            Some(rec) => {
                let ghost tail = bytes@.subrange(pos + 8 + nn as int, len as int);
                assert(suffix.subrange(8 + nn as int, suffix.len() as int) == tail);
                proof {
                    match parse_log(tail) {
                        Some(x) => {
                            assert(acc@ + (seq![rec] + x) == acc@.push(rec) + x);
                        },
                        None => {},
                    }
                }
                acc.push(rec);
                pos = pos + 8 + nn;
            },
            None => {
                return None;
            },
        }
    }
    assert(bytes@.subrange(len as int, len as int) == Seq::<u8>::empty());
    assert(acc@ + Seq::<WalRecord>::empty() == acc@);
    Some(acc)
}

} // verus!
