//! Static configuration of the election core, loaded once at startup.
//!
//! All durations are in milliseconds: the protocol uses one consistent time
//! unit throughout, on the wire and locally.

use vstd::prelude::*;

verus! {

/// Everything the election core is configured with. Immutable after load.
pub struct ElectionConfig {
    /// This node's own address ("host:port"), its identity in the cluster.
    pub this_node: String,
    /// The static peer list; may or may not include this node itself.
    pub peers: Vec<String>,
    /// How often a Leader broadcasts heartbeats.
    pub heartbeat_interval_ms: u64,
    /// Lower bound of the randomized election timeout.
    pub election_timeout_min_ms: u64,
    /// Upper bound of the randomized election timeout.
    pub election_timeout_max_ms: u64,
    /// How long one leadership lease lasts without renewal.
    pub leader_term_ms: u64,
    /// Bound on every connect, send and read of one RPC.
    pub net_timeout_ms: u64,
    /// How often the local CPU load is re-sampled.
    pub cpu_refresh_ms: u64,
    /// Pause between the peer queries of one election round.
    pub election_retry_ms: u64,
}

impl ElectionConfig {
    /// A configuration the node can run on: the election-timeout interval
    /// is not empty.
    pub open spec fn wf(&self) -> bool {
        self.election_timeout_min_ms <= self.election_timeout_max_ms
    }

    /// Startup validation: true exactly on a well-formed configuration.
    /// A process whose configuration fails this check must not begin
    /// serving.
    pub fn validate(&self) -> (b: bool)
        ensures
            b == self.wf(),
    {
        self.election_timeout_min_ms <= self.election_timeout_max_ms
    }
}

} // verus!
