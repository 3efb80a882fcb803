use gbft::aggregator::{Aggregator, SubmitResult};
use gbft::quorum::{has_quorum, leader_index, quorum_threshold, total_power_of, Validator};
use gbft::types::{Vote, VoteKind};

fn weighted(powers: &[u64]) -> Vec<Validator> {
    powers
        .iter()
        .enumerate()
        .map(|(i, p)| Validator { id: i as u32, public_key: vec![i as u8], power: *p })
        .collect()
}

fn prevote(h: u64, r: u64, block: Option<u64>, who: u32) -> Vote {
    Vote { kind: VoteKind::Prevote, height: h, round: r, block, validator: who }
}

#[test]
fn threshold_arithmetic() {
    assert_eq!(quorum_threshold(30), 21);
    assert!(!has_quorum(19, 30));
    assert!(!has_quorum(20, 30));
    assert!(has_quorum(21, 30));
    assert_eq!(quorum_threshold(4), 3);
    assert!(!has_quorum(2, 4));
    assert!(has_quorum(3, 4));
    assert_eq!(quorum_threshold(0), 1);
    assert!(!has_quorum(0, 0));
    assert_eq!(quorum_threshold(u64::MAX), 12297829382473034411);
}

#[test]
fn two_thirds_minus_one_is_no_quorum() {
    let mut agg = Aggregator::new(weighted(&[10, 9, 1, 10]));
    assert_eq!(total_power_of(agg.validators()), 30);
    assert_eq!(agg.submit(prevote(1, 0, Some(4), 0), true), SubmitResult::Accepted);
    assert_eq!(agg.submit(prevote(1, 0, Some(4), 1), true), SubmitResult::Accepted);
    assert_eq!(agg.tally(1, 0, VoteKind::Prevote, Some(4)), 19);
    assert_eq!(agg.quorum_reached(1, 0, VoteKind::Prevote), None);
    assert_eq!(agg.submit(prevote(1, 0, Some(4), 2), true), SubmitResult::Accepted);
    assert_eq!(agg.tally(1, 0, VoteKind::Prevote, Some(4)), 20);
    assert_eq!(agg.quorum_reached(1, 0, VoteKind::Prevote), None);
    assert_eq!(agg.submit(prevote(1, 0, Some(4), 3), true), SubmitResult::Accepted);
    assert_eq!(agg.quorum_reached(1, 0, VoteKind::Prevote), Some(Some(4)));
}

#[test]
fn nil_quorum_differs_from_no_quorum() {
    let mut agg = Aggregator::new(weighted(&[1, 1, 1, 1]));
    assert_eq!(agg.quorum_reached(3, 2, VoteKind::Prevote), None);
    for who in 0..3 {
        assert_eq!(agg.submit(prevote(3, 2, None, who), true), SubmitResult::Accepted);
    }
    assert_eq!(agg.quorum_reached(3, 2, VoteKind::Prevote), Some(None));
    assert_eq!(agg.quorum_reached(3, 2, VoteKind::Precommit), None);
    assert_eq!(agg.quorum_reached(3, 1, VoteKind::Prevote), None);
}

#[test]
fn equivocation_is_detected_and_not_counted() {
    let mut agg = Aggregator::new(weighted(&[1, 1, 1, 1]));
    assert_eq!(agg.submit(prevote(5, 0, Some(11), 2), true), SubmitResult::Accepted);
    assert_eq!(agg.submit(prevote(5, 0, Some(12), 2), true), SubmitResult::EquivocationDetected);
    assert_eq!(agg.tally(5, 0, VoteKind::Prevote, Some(11)), 1);
    assert_eq!(agg.tally(5, 0, VoteKind::Prevote, Some(12)), 0);
    assert_eq!(agg.votes().len(), 1);
    assert_eq!(agg.evidence().len(), 1);
    assert_eq!(agg.evidence()[0], (prevote(5, 0, Some(11), 2), prevote(5, 0, Some(12), 2)));
    assert_eq!(agg.submit(prevote(5, 0, Some(12), 2), true), SubmitResult::EquivocationDetected);
    assert_eq!(agg.evidence().len(), 2);
    assert_eq!(agg.tally(5, 0, VoteKind::Prevote, Some(11)), 1);
}

#[test]
fn duplicates_and_rejections() {
    let mut agg = Aggregator::new(weighted(&[3, 3, 3]));
    assert_eq!(agg.submit(prevote(1, 0, Some(1), 0), true), SubmitResult::Accepted);
    assert_eq!(agg.submit(prevote(1, 0, Some(1), 0), true), SubmitResult::DuplicateIgnored);
    assert_eq!(agg.submit(prevote(1, 0, Some(1), 1), false), SubmitResult::Rejected);
    assert_eq!(agg.submit(prevote(1, 0, Some(1), 9), true), SubmitResult::Rejected);
    assert_eq!(agg.tally(1, 0, VoteKind::Prevote, Some(1)), 3);
    assert_eq!(agg.votes().len(), 1);
    let precommit = Vote { kind: VoteKind::Precommit, height: 1, round: 0, block: Some(1), validator: 0 };
    assert_eq!(agg.submit(precommit, true), SubmitResult::Accepted);
    assert_eq!(agg.tally(1, 0, VoteKind::Prevote, Some(1)), 3);
}

#[test]
fn leader_rotation() {
    assert_eq!(leader_index(0, 0, 4), 0);
    assert_eq!(leader_index(1, 0, 4), 1);
    assert_eq!(leader_index(2, 1, 4), 3);
    assert_eq!(leader_index(3, 3, 4), 2);
    assert_eq!(leader_index(u64::MAX, u64::MAX, 7), ((u64::MAX as u128 * 2) % 7) as usize);
}
