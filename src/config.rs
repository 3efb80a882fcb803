//! Engine configuration and the initializer that assembles a driver.

use vstd::prelude::*;

use crate::driver::Driver;
use crate::quorum::{valid_set, Validator};
use crate::state::{genesis, replay_spec, ConsensusState, State};
use crate::timeout::{TimeoutPolicy, TimeoutStruct};
use crate::wal::{WalRecord, WAL};

verus! {

/// Protocol version and retry budgets.
pub struct GBFTConfig {
    pub version: String,
    /// View changes allowed at one height before recovery is attempted.
    pub vc_retry_times: u64,
    /// Failed recoveries allowed before the engine halts.
    pub recovery_retry_times: u64,
}

impl GBFTConfig {
    pub fn get_version(&self) -> (r: String)
        ensures
            r@ == self.version@,
    {
        self.version.clone()
    }
}

/// What a driver is started from: a state, its height and the configuration.
pub struct GPBFInitlizer {
    pub state: State,
    pub current: u64,
    pub config: GBFTConfig,
}

impl GPBFInitlizer {
    /// Starts at genesis with an empty log kept in the file `fd`.
    pub fn new(config: GBFTConfig, fd: String) -> (r: Self)
        ensures
            r.state.consensus == genesis(),
            r.state.wal.wf(),
            r.state.wal.records_view() == Seq::<WalRecord>::empty(),
            r.current == 0,
            r.config == config,
    {
        let state = State {
            consensus: ConsensusState::genesis(),
            timeout: TimeoutStruct { height: 0, round: 0, duration: 0 },
            wal: WAL::new(fd),
        };
        GPBFInitlizer { state, current: 0, config }
    }

    /// Starts from a state and the log it was recovered from.
    pub fn from_recovered(config: GBFTConfig, consensus: ConsensusState, wal: WAL) -> (r: Self)
        ensures
            r.state.consensus == consensus,
            r.state.wal == wal,
            r.current == consensus.height,
            r.config == config,
    {
        let state = State {
            consensus,
            timeout: TimeoutStruct { height: consensus.height, round: consensus.round, duration: 0 },
            wal,
        };
        GPBFInitlizer { state, current: consensus.height, config }
    }

    /// The driver of validator `me` that continues from the log, with the
    /// configured view-change budget; `None` when the log runs past the
    /// height it replays to.
    pub fn into_driver(self, me: u32, validators: Vec<Validator>, policy: TimeoutPolicy) -> (r: Option<Driver>)
        requires
            valid_set(validators@),
            policy.valid(),
            self.state.wal.wf(),
        ensures
            r is Some <==> self.state.wal.last_height() <= replay_spec(genesis(), self.state.wal.records_view()).height,
            r matches Some(d) ==> d.wf() && d.cs() == replay_spec(genesis(), self.state.wal.records_view())
                && d.log() == self.state.wal.records_view() && d.identity() == me
                && d.aggregator().vals() == validators@
                && d.retry_limit() == self.config.vc_retry_times,
    {
        Driver::restore(me, validators, policy, self.config.vc_retry_times, self.state.wal)
    }
}

} // verus!
