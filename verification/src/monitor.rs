//! Timer decisions: when a Follower starts an election, and when a Leader
//! steps down.
//!
//! The background loops around these decisions live outside the core; they
//! hand in the clock reading and act on the answers.

use vstd::prelude::*;

use crate::message::{Message, MessageView};
use crate::state::{NodeState, NodeStateV, State};

verus! {

/// The node's last sign of a live leader: the last heartbeat heard, or
/// process startup while none has arrived yet.
pub open spec fn last_contact(ns: NodeStateV) -> u64 {
    match ns.last_heartbeat {
        Option::Some(t) => t,
        Option::None => ns.startup_time,
    }
}

/// Whether a Follower's silence has reached the drawn timeout. Only
/// Followers elect; a Leader never triggers an election against itself.
pub open spec fn spec_should_start_election(ns: NodeStateV, now: u64, timeout: u64) -> bool {
    &&& ns.state is Follower
    &&& now >= last_contact(ns)
    &&& now - last_contact(ns) >= timeout
}

/// The timeout monitor's one decision, taken every tick: start an election
/// exactly when this node follows and has heard nothing for the current
/// randomized timeout.
pub fn should_start_election(ns: &NodeState, now: u64, timeout: u64) -> (b: bool)
    ensures
        b == spec_should_start_election(ns@, now, timeout),
{
    if !(ns.state == State::Follower) {
        return false;
    }
    let since: u64 = match ns.last_heartbeat {
        Option::Some(t) => t,
        Option::None => ns.startup_time,
    };
    now >= since && now - since >= timeout
}

/// The state after the Leader's own expiry check: a Leader whose lease
/// deadline has passed becomes Follower with leader and timers cleared;
/// everything else stays as it was.
pub open spec fn spec_leader_expiry(ns: NodeStateV, now: u64) -> NodeStateV {
    if ns.state is Leader && (ns.term_end matches Option::Some(e) && now >= e) {
        NodeStateV {
            state: State::Follower,
            leader: Option::None,
            term_end: Option::None,
            last_heartbeat: Option::None,
            ..ns
        }
    } else {
        ns
    }
}

/// The heartbeat sender's safety valve, run every tick: forces the
/// step-down of a Leader whose own lease has run out, with no inbound
/// message required. Returns whether it stepped down.
pub fn enforce_leader_expiry(ns: &mut NodeState, now: u64) -> (stepped: bool)
    ensures
        final(ns)@ == spec_leader_expiry(old(ns)@, now),
        stepped == (old(ns)@.state is Leader && (old(ns)@.term_end matches Option::Some(e) && now
            >= e)),
{
    if ns.state == State::Leader {
        let expired: bool = match ns.term_end {
            Option::Some(e) => now >= e,
            Option::None => false,
        };
        if expired {
            ns.state = State::Follower;
            ns.leader = Option::None;
            ns.term_end = Option::None;
            ns.last_heartbeat = Option::None;
            return true;
        }
    }
    false
}

/// The heartbeat a Leader broadcasts each tick: it names this node and
/// carries a freshly extended absolute deadline, so each tick renews the
/// followers' view of the lease.
pub fn make_heartbeat(ns: &NodeState, self_addr: &String, now: u64, leader_term_ms: u64) -> (m:
    Message)
    requires
        now + leader_term_ms <= u64::MAX,
    ensures
        m@ == (MessageView::Heartbeat {
            leader: self_addr@,
            term_end_unix: (now + leader_term_ms) as u64,
            term: ns@.current_term,
        }),
{
    Message::Heartbeat {
        leader: self_addr.clone(),
        term_end_unix: now + leader_term_ms,
        term: ns.current_term,
    }
}

/// Law: a Leader whose lease deadline has elapsed steps down at its next
/// tick — Follower, with leader address and both timers cleared, the term
/// untouched — with no external message required.
pub proof fn lemma_expired_leader_steps_down(ns: NodeStateV, now: u64)
    requires
        ns.state is Leader,
        ns.term_end matches Option::Some(e) && now >= e,
    ensures
        spec_leader_expiry(ns, now).state is Follower,
        spec_leader_expiry(ns, now).leader is None,
        spec_leader_expiry(ns, now).term_end is None,
        spec_leader_expiry(ns, now).last_heartbeat is None,
        spec_leader_expiry(ns, now).current_term == ns.current_term,
{
}

/// Law: a Follower silent for longer than the configured maximum election
/// timeout starts an election, whichever timeout was drawn from the
/// interval.
pub proof fn lemma_silent_follower_elects(
    ns: NodeStateV,
    now: u64,
    timeout: u64,
    timeout_max: u64,
)
    requires
        ns.state is Follower,
        timeout <= timeout_max,
        now >= last_contact(ns),
        now - last_contact(ns) > timeout_max,
    ensures
        spec_should_start_election(ns, now, timeout),
{
}

} // verus!
