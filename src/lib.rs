//! A Byzantine-fault-tolerant block-agreement engine: quorum arithmetic,
//! vote aggregation, a write-ahead log, round timeouts, the round state
//! machine and recovery from the log.

pub mod aggregator;
pub mod codec;
pub mod config;
pub mod driver;
pub mod pow;
pub mod quorum;
pub mod recovery;
pub mod safety;
pub mod state;
pub mod timeout;
pub mod types;
pub mod wal;
