use gbft::codec::{checksum, decode_log, encode_log, encode_record, FNV_OFFSET};
use gbft::recovery::{RecoveryError, RecoveryManager};
use gbft::state::{replay, Phase};
use gbft::types::{Proposal, Vote, VoteKind};
use gbft::wal::{WalEntry, WalError, WalRecord, WAL};

fn sample_log() -> WAL {
    let mut wal = WAL::new(String::from("a.wal"));
    let p = Proposal { height: 0, round: 0, block: 42, proposer: 0 };
    assert_eq!(wal.append(0, 0, WalEntry::Proposal(p)), Ok(0));
    let v = Vote { kind: VoteKind::Prevote, height: 0, round: 0, block: Some(42), validator: 0 };
    assert_eq!(wal.append(0, 0, WalEntry::Vote(v)), Ok(1));
    assert_eq!(wal.append(0, 0, WalEntry::LockChange(42)), Ok(2));
    assert_eq!(wal.append(0, 0, WalEntry::Commit(42)), Ok(3));
    assert_eq!(wal.append(1, 1, WalEntry::ViewChange), Ok(4));
    let n = Vote { kind: VoteKind::Precommit, height: 1, round: 1, block: None, validator: 0 };
    assert_eq!(wal.append(1, 1, WalEntry::Vote(n)), Ok(5));
    wal
}

#[test]
fn record_layout() {
    let rec = WalRecord { seq: 1, height: 2, round: 3, entry: WalEntry::Commit(0x0102) };
    let mut out = Vec::new();
    encode_record(&rec, &mut out);
    assert_eq!(out.len(), 4 + 33 + 4);
    assert_eq!(&out[0..4], &[33, 0, 0, 0]);
    assert_eq!(&out[4..12], &[1, 0, 0, 0, 0, 0, 0, 0]);
    assert_eq!(out[28], 3);
    assert_eq!(&out[29..31], &[2, 1]);
    let sum = checksum(&out[4..37]);
    assert_eq!(&out[37..41], &sum.to_le_bytes());
    assert_eq!(checksum(&[]), FNV_OFFSET);
    assert_ne!(checksum(&[1]), checksum(&[2]));
}

#[test]
fn log_bytes_round_trip() {
    let wal = sample_log();
    let bytes = encode_log(wal.records());
    assert_eq!(decode_log(&bytes), Some(wal.records().clone()));
    assert_eq!(decode_log(&[]), Some(Vec::new()));
    let state = replay(wal.records());
    assert_eq!(state.height, 1);
    assert_eq!(state.round, 1);
    assert_eq!(state.phase, Phase::Precommit);
    assert_eq!(state.locked, None);
}

#[test]
fn corrupt_or_truncated_logs_are_refused() {
    let wal = sample_log();
    let bytes = encode_log(wal.records());
    let mut flipped = bytes.clone();
    flipped[10] ^= 0x40;
    assert_eq!(decode_log(&flipped), None);
    assert_eq!(decode_log(&bytes[..bytes.len() - 1]), None);
    assert_eq!(decode_log(&bytes[..5]), None);
}

#[test]
fn recovery_halts_after_its_retries() {
    let wal = sample_log();
    let bytes = encode_log(wal.records());
    let bad = &bytes[..bytes.len() - 3];
    let mut m = RecoveryManager::new(2);
    assert_eq!(m.recover(String::from("a.wal"), bad).err(), Some(RecoveryError::Corrupt));
    assert!(!m.halted());
    assert_eq!(m.recover(String::from("a.wal"), bad).err(), Some(RecoveryError::Halted));
    assert!(m.halted());
    assert_eq!(m.recover(String::from("a.wal"), &bytes).err(), Some(RecoveryError::Halted));
}

#[test]
fn recovery_resets_its_count_on_success() {
    let wal = sample_log();
    let bytes = encode_log(wal.records());
    let mut m = RecoveryManager::new(2);
    assert_eq!(m.recover(String::from("a.wal"), &bytes[..7]).err(), Some(RecoveryError::Corrupt));
    let (state, restored) = m.recover(String::from("a.wal"), &bytes).unwrap();
    assert_eq!(state, replay(wal.records()));
    assert_eq!(restored.records(), wal.records());
    assert_eq!(restored.fd(), "a.wal");
    assert_eq!(m.recover(String::from("a.wal"), &bytes[..7]).err(), Some(RecoveryError::Corrupt));
}

#[test]
fn inconsistent_log_is_refused() {
    let recs = vec![
        WalRecord { seq: 5, height: 0, round: 0, entry: WalEntry::ViewChange },
        WalRecord { seq: 4, height: 0, round: 1, entry: WalEntry::ViewChange },
    ];
    let bytes = encode_log(&recs);
    let mut m = RecoveryManager::new(5);
    assert_eq!(m.recover(String::from("b.wal"), &bytes).err(), Some(RecoveryError::Inconsistent));
}

#[test]
fn truncate_needs_a_checkpoint_and_keeps_replay() {
    let mut wal = sample_log();
    let before = replay(wal.records());
    assert_eq!(wal.truncate(2), Err(WalError::NoCheckpoint));
    assert_eq!(wal.len(), 6);
    assert_eq!(wal.truncate(0), Ok(()));
    assert_eq!(wal.len(), 6);
    let mut wal2 = sample_log();
    let mut extra = wal2.append(1, 1, WalEntry::Commit(9));
    assert_eq!(extra, Ok(6));
    extra = wal2.append(2, 0, WalEntry::ViewChange);
    assert_eq!(extra, Ok(7));
    let full = replay(wal2.records());
    assert_eq!(wal2.truncate(1), Ok(()));
    assert!(wal2.records().iter().all(|r| r.height >= 1));
    assert_eq!(wal2.len(), 4);
    assert_eq!(replay(wal2.records()), full);
    assert_eq!(wal2.append(2, 0, WalEntry::ViewChange), Ok(8));
    assert_ne!(before, full);
}
