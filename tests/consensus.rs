use std::collections::VecDeque;

use gbft::aggregator::SubmitResult;
use gbft::codec::{decode_log, encode_log};
use gbft::driver::{Action, Driver};
use gbft::quorum::Validator;
use gbft::recovery::{RecoveryError, RecoveryManager};
use gbft::state::{replay, CommitInfo, Phase};
use gbft::timeout::{Step, TimeoutPolicy, TimerHandle};
use gbft::types::{Message, Proposal, Vote, VoteKind};
use gbft::wal::WalEntry;

fn validators(n: u32) -> Vec<Validator> {
    (0..n).map(|i| Validator { id: i, public_key: vec![i as u8; 4], power: 1 }).collect()
}

fn policy() -> TimeoutPolicy {
    TimeoutPolicy { base: 100, factor: 2, max: 10_000 }
}

struct Net {
    drivers: Vec<Driver>,
    online: Vec<bool>,
    armed: Vec<Option<TimerHandle>>,
    commits: Vec<(usize, CommitInfo)>,
    escalations: usize,
    candidate: u64,
}

impl Net {
    fn new(n: u32, vc_retry_times: u64) -> Net {
        let drivers = (0..n)
            .map(|i| Driver::new(i, validators(n), policy(), vc_retry_times, format!("v{}.wal", i)))
            .collect();
        Net {
            drivers,
            online: vec![true; n as usize],
            armed: vec![None; n as usize],
            commits: Vec::new(),
            escalations: 0,
            candidate: 0,
        }
    }

    fn run(&mut self, start: Vec<(usize, Vec<Action>)>) {
        let mut queue: VecDeque<(usize, Action)> = VecDeque::new();
        for (from, acts) in start {
            for a in acts {
                queue.push_back((from, a));
            }
        }
        while let Some((from, action)) = queue.pop_front() {
            if !self.online[from] {
                continue;
            }
            match action {
                Action::Broadcast(msg) => {
                    for j in 0..self.drivers.len() {
                        if !self.online[j] {
                            continue;
                        }
                        let acts = match msg {
                            Message::Propose(p) => self.drivers[j].on_proposal(p, true),
                            Message::Cast(v) => self.drivers[j].on_vote(v, true),
                        };
                        for a in acts {
                            queue.push_back((j, a));
                        }
                    }
                }
                Action::Commit(c) => self.commits.push((from, c)),
                Action::Arm { handle, .. } => self.armed[from] = Some(handle),
                Action::EnterRound { round: 0, .. } => {}
                Action::EnterRound { .. } => {
                    let acts = self.drivers[from].start_round(self.candidate);
                    for a in acts {
                        queue.push_back((from, a));
                    }
                }
                Action::Escalate => self.escalations += 1,
                Action::Halt => panic!("a driver halted"),
            }
        }
    }

    fn start_all(&mut self, candidate: u64) {
        self.candidate = candidate;
        let mut start = Vec::new();
        for i in 0..self.drivers.len() {
            if self.online[i] {
                let acts = self.drivers[i].start_round(candidate);
                start.push((i, acts));
            }
        }
        self.run(start);
    }

    fn fire_all(&mut self) {
        let mut start = Vec::new();
        for i in 0..self.drivers.len() {
            if let (true, Some(h)) = (self.online[i], self.armed[i]) {
                let acts = self.drivers[i].on_timeout(h);
                start.push((i, acts));
            }
        }
        self.run(start);
    }
}

fn commit_round(d: &Driver) -> u64 {
    let recs = d.wal().records();
    let last = recs.iter().rev().find(|r| matches!(r.entry, WalEntry::Commit(_))).unwrap();
    last.round
}

#[test]
fn scenario_all_honest_commit_in_one_round() {
    let mut net = Net::new(4, 5);
    net.start_all(100);
    for d in &net.drivers {
        assert_eq!(d.consensus().height, 1);
    }
    net.commits.clear();
    net.start_all(101);
    for d in &net.drivers {
        let cs = d.consensus();
        assert_eq!(cs.height, 2);
        assert_eq!(cs.round, 0);
        assert_eq!(cs.phase, Phase::NewHeight);
        assert_eq!(cs.last_commit, Some(CommitInfo { height: 1, block: 101 }));
        assert_eq!(commit_round(d), 0);
    }
    assert_eq!(net.commits.len(), 4);
    assert!(net.commits.iter().all(|(_, c)| *c == CommitInfo { height: 1, block: 101 }));
    let proposal_by = net.drivers[0]
        .wal()
        .records()
        .iter()
        .filter_map(|r| match r.entry {
            WalEntry::Proposal(p) => Some(p.proposer),
            _ => None,
        })
        .count();
    assert_eq!(proposal_by, 1);
    assert!(net.drivers[1].wal().records().iter().any(|r| r.entry
        == WalEntry::Proposal(Proposal { height: 1, round: 0, block: 101, proposer: 1 })));
}

#[test]
fn scenario_offline_leader_view_change() {
    let mut net = Net::new(4, 5);
    net.start_all(100);
    net.start_all(101);
    assert!(net.drivers.iter().all(|d| d.consensus().height == 2));
    net.online[2] = false;
    net.commits.clear();
    net.start_all(102);
    for i in [0usize, 1, 3] {
        assert_eq!(net.drivers[i].consensus().height, 2);
        assert_eq!(net.drivers[i].consensus().round, 0);
        assert_eq!(net.armed[i], Some(TimerHandle { height: 2, round: 0, step: Step::Propose }));
    }
    net.fire_all();
    for i in [0usize, 1, 3] {
        let cs = net.drivers[i].consensus();
        assert_eq!(cs.height, 3);
        assert_eq!(cs.last_commit, Some(CommitInfo { height: 2, block: 102 }));
        assert_eq!(commit_round(&net.drivers[i]), 1);
        assert!(net.drivers[i].wal().records().iter().any(|r| r.entry == WalEntry::ViewChange && r.round == 1));
    }
    assert_eq!(net.commits.len(), 3);
    assert!(net.drivers[3].wal().records().iter().any(|r| r.entry
        == WalEntry::Proposal(Proposal { height: 2, round: 1, block: 102, proposer: 3 })));
}

#[test]
fn scenario_crash_after_logging_precommit() {
    let mut net = Net::new(4, 5);
    net.start_all(100);
    net.candidate = 200;
    // Height 1: the leader proposes; every validator prevotes, but validator 0
    // sees the prevote quorum, logs its precommit and crashes before sending it.
    let acts = net.drivers[1].start_round(200);
    let mut prevotes: Vec<Vote> = Vec::new();
    let proposal = acts
        .iter()
        .find_map(|a| match a {
            Action::Broadcast(Message::Propose(p)) => Some(*p),
            _ => None,
        })
        .unwrap();
    for j in 0..4 {
        let acts = net.drivers[j].on_proposal(proposal, true);
        match acts[0] {
            Action::Broadcast(Message::Cast(v)) => prevotes.push(v),
            _ => panic!("expected a prevote"),
        }
    }
    let mut precommit: Option<Vote> = None;
    for v in &prevotes {
        for a in net.drivers[0].on_vote(*v, true) {
            if let Action::Broadcast(Message::Cast(p)) = a {
                precommit = Some(p);
            }
        }
    }
    let precommit = precommit.unwrap();
    assert_eq!(precommit.kind, VoteKind::Precommit);
    assert_eq!(precommit.block, Some(200));
    assert_eq!(net.drivers[0].consensus().phase, Phase::Precommit);

    let bytes = encode_log(net.drivers[0].wal().records());
    let mut manager = RecoveryManager::new(3);
    let (state, wal) = manager.recover(String::from("v0.wal"), &bytes).unwrap();
    assert_eq!(state, net.drivers[0].consensus());
    assert_eq!(state.phase, Phase::Precommit);
    assert_eq!(state.locked, Some(200));
    let mut restarted = Driver::restore(0, validators(4), policy(), 5, wal).unwrap();
    assert_eq!(restarted.consensus(), state);
    let acts = restarted.resume();
    assert!(acts.contains(&Action::Broadcast(Message::Cast(precommit))));
    assert_eq!(restarted.aggregator_ref().tally(1, 0, VoteKind::Precommit, Some(200)), 1);
    assert!(restarted.on_vote(precommit, true).is_empty());
    assert_eq!(restarted.aggregator_ref().tally(1, 0, VoteKind::Precommit, Some(200)), 1);
    let mut agg = restarted.aggregator_ref().votes().clone();
    agg.dedup();
    assert_eq!(agg.len(), 1);
}

#[test]
fn scenario_equivocating_prevotes() {
    let mut net = Net::new(4, 5);
    let first = Vote { kind: VoteKind::Prevote, height: 5, round: 0, block: Some(1), validator: 3 };
    let second = Vote { kind: VoteKind::Prevote, height: 5, round: 0, block: Some(2), validator: 3 };
    net.drivers[0].on_vote(first, true);
    net.drivers[0].on_vote(second, true);
    let agg = net.drivers[0].aggregator_ref();
    assert_eq!(agg.evidence().len(), 1);
    assert_eq!(agg.evidence()[0], (first, second));
    assert_eq!(agg.tally(5, 0, VoteKind::Prevote, Some(1)), 1);
    assert_eq!(agg.tally(5, 0, VoteKind::Prevote, Some(2)), 0);
    let mut direct = gbft::aggregator::Aggregator::new(validators(4));
    assert_eq!(direct.submit(first, true), SubmitResult::Accepted);
    assert_eq!(direct.submit(second, true), SubmitResult::EquivocationDetected);
}

#[test]
fn redelivered_commit_quorum_is_idempotent() {
    let mut net = Net::new(4, 5);
    net.start_all(100);
    let precommits: Vec<Vote> = (0..4)
        .map(|i| Vote { kind: VoteKind::Precommit, height: 0, round: 0, block: Some(100), validator: i })
        .collect();
    let before = net.drivers[2].consensus();
    let log_len = net.drivers[2].wal().records().len();
    assert_eq!(before.height, 1);
    for v in &precommits {
        assert!(net.drivers[2].on_vote(*v, true).is_empty());
    }
    assert_eq!(net.drivers[2].consensus(), before);
    assert_eq!(net.drivers[2].wal().records().len(), log_len);
}

#[test]
fn rounds_only_grow_and_view_changes_escalate() {
    let mut net = Net::new(4, 2);
    for i in 0..4 {
        net.online[i] = i == 0;
    }
    net.start_all(9);
    assert_eq!(net.drivers[0].consensus().phase, Phase::Prevote);
    net.fire_all();
    assert_eq!(net.drivers[0].consensus().phase, Phase::Precommit);
    assert_eq!(net.drivers[0].consensus().round, 0);
    net.fire_all();
    assert_eq!(net.drivers[0].consensus().round, 1);
    assert_eq!(net.drivers[0].consensus().phase, Phase::Propose);
    net.fire_all();
    assert_eq!(net.drivers[0].consensus().round, 2);
    assert_eq!(net.escalations, 0);
    net.fire_all();
    assert_eq!(net.drivers[0].consensus().round, 2);
    assert_eq!(net.escalations, 1);
    assert_eq!(net.drivers[0].consensus().height, 0);
}

#[test]
fn stale_timeout_changes_nothing() {
    let mut d = Driver::new(0, validators(4), policy(), 5, String::from("x.wal"));
    let acts = d.start_round(1);
    assert!(acts.contains(&Action::Broadcast(Message::Propose(Proposal { height: 0, round: 0, block: 1, proposer: 0 }))));
    assert!(acts.contains(&Action::Arm { handle: TimerHandle { height: 0, round: 0, step: Step::Propose }, duration: 100 }));
    let before = d.consensus();
    let stale = TimerHandle { height: 0, round: 0, step: Step::Precommit };
    assert!(d.on_timeout(stale).is_empty());
    assert_eq!(d.consensus(), before);
    assert!(d.start_round(2).iter().all(|a| !matches!(a, Action::Broadcast(_))));
}

#[test]
fn proposal_from_wrong_leader_is_ignored() {
    let mut d = Driver::new(2, validators(4), policy(), 5, String::from("y.wal"));
    let bad = Proposal { height: 0, round: 0, block: 5, proposer: 1 };
    assert!(d.on_proposal(bad, true).is_empty());
    let good = Proposal { height: 0, round: 0, block: 5, proposer: 0 };
    assert!(d.on_proposal(good, false).is_empty());
    let acts = d.on_proposal(good, true);
    assert_eq!(acts[0], Action::Broadcast(Message::Cast(Vote { kind: VoteKind::Prevote, height: 0, round: 0, block: Some(5), validator: 2 })));
    assert!(d.on_proposal(good, true).is_empty());
    assert!(d.proposal_evidence().is_empty());
    let conflicting = Proposal { height: 0, round: 0, block: 6, proposer: 0 };
    assert!(d.on_proposal(conflicting, true).is_empty());
    assert_eq!(d.proposal_evidence().len(), 1);
    assert_eq!(d.proposal_evidence()[0], (good, conflicting));
    assert_eq!(d.wal().records().len(), 1);
}

#[test]
fn locked_validator_prevotes_nil_for_another_block() {
    let mut d = Driver::new(3, validators(4), policy(), 5, String::from("z.wal"));
    let p = Proposal { height: 0, round: 0, block: 7, proposer: 0 };
    d.on_proposal(p, true);
    for i in 0..3 {
        d.on_vote(Vote { kind: VoteKind::Prevote, height: 0, round: 0, block: Some(7), validator: i }, true);
    }
    assert_eq!(d.consensus().locked, Some(7));
    assert_eq!(d.consensus().phase, Phase::Precommit);
    for i in 0..3 {
        d.on_vote(Vote { kind: VoteKind::Precommit, height: 0, round: 0, block: None, validator: i }, true);
    }
    assert_eq!(d.consensus().round, 1);
    assert_eq!(d.consensus().locked, Some(7));
    let p1 = Proposal { height: 0, round: 1, block: 8, proposer: 1 };
    let acts = d.on_proposal(p1, true);
    assert_eq!(acts[0], Action::Broadcast(Message::Cast(Vote { kind: VoteKind::Prevote, height: 0, round: 1, block: None, validator: 3 })));
}

#[test]
fn replaying_a_log_twice_gives_the_same_state() {
    let mut net = Net::new(4, 5);
    net.start_all(100);
    net.start_all(101);
    let recs = net.drivers[1].wal().records().clone();
    let bytes = encode_log(&recs);
    let once = replay(&decode_log(&bytes).unwrap());
    let twice = replay(&decode_log(&bytes).unwrap());
    assert_eq!(once, twice);
    assert_eq!(once, net.drivers[1].consensus());
    assert_eq!(decode_log(&bytes).unwrap(), recs);
}

#[test]
fn view_change_arms_a_longer_timer() {
    let mut d = Driver::new(1, validators(4), policy(), 5, String::from("w.wal"));
    let acts = d.start_round(3);
    let first = TimerHandle { height: 0, round: 0, step: Step::Propose };
    assert_eq!(acts, vec![Action::Arm { handle: first, duration: 100 }]);
    let acts = d.on_timeout(first);
    assert_eq!(acts, vec![Action::EnterRound { height: 0, round: 1 }]);
    let last = *d.wal().records().last().unwrap();
    assert_eq!((last.height, last.round, last.entry), (0, 1, WalEntry::ViewChange));
    let acts = d.start_round(3);
    let second = TimerHandle { height: 0, round: 1, step: Step::Propose };
    assert!(acts.contains(&Action::Arm { handle: second, duration: 200 }));
    assert!(acts.contains(&Action::Broadcast(Message::Propose(Proposal { height: 0, round: 1, block: 3, proposer: 1 }))));
}
