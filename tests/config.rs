use gbft::config::{GBFTConfig, GPBFInitlizer};
use gbft::quorum::Validator;
use gbft::state::{CommitInfo, ConsensusState, Phase, State};
use gbft::timeout::{TimeoutPolicy, TimeoutStruct};
use gbft::wal::WAL;

#[test]
fn test_get_version() {
    let config = GBFTConfig {
        version: String::from("1.0.1"),
        vc_retry_times: 10,
        recovery_retry_times: 12,
    };

    assert_eq!(config.get_version(), "1.0.1");
}

#[test]
fn initializer_starts_at_genesis() {
    let config = GBFTConfig { version: String::from("2.0.0"), vc_retry_times: 3, recovery_retry_times: 2 };
    let init = GPBFInitlizer::new(config, String::from("node.wal"));
    assert_eq!(init.current, 0);
    assert_eq!(init.state.consensus.phase, Phase::NewHeight);
    assert_eq!(init.state.print_info(), "height 0 round 0 phase new-height");
    let vals = vec![Validator { id: 7, public_key: vec![1], power: 5 }];
    let driver = init
        .into_driver(7, vals, TimeoutPolicy { base: 10, factor: 2, max: 100 })
        .expect("an empty log is consistent");
    assert_eq!(driver.consensus().height, 0);
    assert_eq!(driver.wal().fd(), "node.wal");
}

#[test]
fn state_description_and_recovered_initializer() {
    let consensus = ConsensusState {
        height: 1234567890,
        round: 10,
        phase: Phase::Precommit,
        locked: Some(3),
        last_commit: Some(CommitInfo { height: 1234567889, block: 8 }),
        last_proposal: None,
        last_vote: None,
    };
    let state = State {
        consensus,
        timeout: TimeoutStruct { height: 1234567890, round: 10, duration: 400 },
        wal: WAL::new(String::from("s.wal")),
    };
    assert_eq!(state.print_info(), "height 1234567890 round 10 phase precommit");
    let config = GBFTConfig { version: String::from("1.0.1"), vc_retry_times: 1, recovery_retry_times: 1 };
    let init = GPBFInitlizer::from_recovered(config, consensus, WAL::new(String::from("s.wal")));
    assert_eq!(init.current, 1234567890);
    assert_eq!(init.state.consensus, consensus);
    assert_eq!(init.config.get_version(), "1.0.1");
}
