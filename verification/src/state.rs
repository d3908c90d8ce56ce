//! The mutable election state of one node, with its spec-level image.
//!
//! All timestamps are in milliseconds of one local clock domain; CPU load is
//! carried in hundredths of a percent, so that every value the core reasons
//! about is a plain integer.

use vstd::prelude::*;

verus! {

/// The role a node currently holds: exactly one of the two at any instant.
#[derive(Clone, Copy, Debug, PartialEq, Eq, Structural)]
pub enum State {
    Follower,
    Leader,
}

/// Spec-level image of a [`NodeState`]: the leader address as a character
/// sequence, everything else as the plain values the executable type holds.
#[verifier::ext_equal]
pub struct NodeStateV {
    pub state: State,
    pub leader: Option<Seq<char>>,
    pub last_heartbeat: Option<u64>,
    pub term_end: Option<u64>,
    pub startup_time: u64,
    pub current_term: u64,
    pub cpu_snapshot: u32,
}

/// Election state of one node: role, current term, who leads, and the local
/// deadlines. Created once at startup as a Follower in term 0 and mutated
/// only through the message handler and the election functions.
pub struct NodeState {
    pub state: State,
    pub leader: Option<String>,
    pub last_heartbeat: Option<u64>,
    pub term_end: Option<u64>,
    pub startup_time: u64,
    pub current_term: u64,
    pub cpu_snapshot: u32,
}

/// The view of an optional address: the character sequence it holds, if any.
pub open spec fn opt_str_view(o: Option<String>) -> Option<Seq<char>> {
    match o {
        Option::Some(s) => Option::Some(s@),
        Option::None => Option::None,
    }
}

impl View for NodeState {
    type V = NodeStateV;

    open spec fn view(&self) -> NodeStateV {
        NodeStateV {
            state: self.state,
            leader: opt_str_view(self.leader),
            last_heartbeat: self.last_heartbeat,
            term_end: self.term_end,
            startup_time: self.startup_time,
            current_term: self.current_term,
            cpu_snapshot: self.cpu_snapshot,
        }
    }
}

/// The state every node starts in: Follower, term 0, nothing heard yet.
pub open spec fn init_state(startup_time: u64) -> NodeStateV {
    NodeStateV {
        state: State::Follower,
        leader: Option::None,
        last_heartbeat: Option::None,
        term_end: Option::None,
        startup_time,
        current_term: 0,
        cpu_snapshot: 0,
    }
}

/// A node that reports itself Leader also reports itself as the leader
/// address: no node is simultaneously Leader and pointing at another node.
pub open spec fn leader_consistent(ns: NodeStateV, self_addr: Seq<char>) -> bool {
    ns.state is Leader ==> (ns.leader matches Option::Some(l) && l == self_addr)
}

impl NodeState {
    /// Fresh state at process start.
    pub fn initial(startup_time: u64) -> (ns: NodeState)
        ensures
            ns@ == init_state(startup_time),
    {
        NodeState {
            state: State::Follower,
            leader: Option::None,
            last_heartbeat: Option::None,
            term_end: Option::None,
            startup_time,
            current_term: 0,
            cpu_snapshot: 0,
        }
    }

    /// Read-only role check offered to the application layer: true exactly
    /// when this node currently serves as Leader.
    pub fn is_leader(&self) -> (b: bool)
        ensures
            b == (self@.state is Leader),
    {
        self.state == State::Leader
    }

    /// Read-only view of the current leader's address, if one is known.
    pub fn current_leader(&self) -> (l: Option<String>)
        ensures
            opt_str_view(l) == self@.leader,
    {
        match &self.leader {
            Option::Some(a) => Option::Some(a.clone()),
            Option::None => Option::None,
        }
    }
}

} // verus!
