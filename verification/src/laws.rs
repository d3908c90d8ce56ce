//! The protocol's safety laws, over every step the core can take.
//!
//! The core mutates the node state in exactly four places: the message
//! handler, the opening of an election round, its closing, and the leader's
//! own expiry check. [`NodeTransition`] names those steps; the laws below
//! hold over any sequence of them, and therefore over every state a node
//! can reach from startup.

use vstd::prelude::*;

use crate::election::{lemma_conclude_leader_consistent, spec_begin, spec_conclude};
use crate::handler::{lemma_leader_consistent_step, lemma_term_monotone, spec_step};
use crate::message::MessageView;
use crate::monitor::spec_leader_expiry;
use crate::state::{NodeStateV, init_state, leader_consistent};

verus! {

/// One step of the core: everything that can change the node state.
pub enum NodeTransition {
    /// One inbound message arrives, with the live load and the clock
    /// reading at its arrival.
    Deliver { msg: MessageView, live_cpu: u32, now: u64 },
    /// An election round opens on this node.
    OpenElection { live_cpu: u32 },
    /// An election round closes over the results it collected.
    CloseElection { results: Seq<(Seq<char>, u32)>, now: u64, leader_term_ms: u64 },
    /// The heartbeat sender checks this node's own lease.
    CheckExpiry { now: u64 },
}

/// The state after one step.
pub open spec fn apply_transition(
    ns: NodeStateV,
    t: NodeTransition,
    self_addr: Seq<char>,
) -> NodeStateV {
    match t {
        NodeTransition::Deliver { msg, live_cpu, now } => spec_step(
            ns,
            msg,
            self_addr,
            live_cpu,
            now,
        ),
        NodeTransition::OpenElection { live_cpu } => spec_begin(ns, live_cpu),
        NodeTransition::CloseElection { results, now, leader_term_ms } => spec_conclude(
            ns,
            self_addr,
            results,
            now,
            leader_term_ms,
        ),
        NodeTransition::CheckExpiry { now } => spec_leader_expiry(ns, now),
    }
}

/// The state after a whole sequence of steps, first to last.
pub open spec fn apply_transitions(
    ns: NodeStateV,
    ts: Seq<NodeTransition>,
    self_addr: Seq<char>,
) -> NodeStateV
    decreases ts.len(),
{
    if ts.len() == 0 {
        ns
    } else {
        apply_transitions(apply_transition(ns, ts[0], self_addr), ts.drop_first(), self_addr)
    }
}

/// Law: no single step lowers the current term.
pub proof fn lemma_transition_term_monotone(ns: NodeStateV, t: NodeTransition, self_addr: Seq<char>)
    ensures
        apply_transition(ns, t, self_addr).current_term >= ns.current_term,
{
    if let NodeTransition::Deliver { msg, live_cpu, now } = t {
        lemma_term_monotone(ns, msg, self_addr, live_cpu, now);
    }
}

/// Law: the current term is monotonically non-decreasing across any
/// sequence of steps — in particular across any sequence of inbound
/// messages.
pub proof fn lemma_term_monotone_over(ns: NodeStateV, ts: Seq<NodeTransition>, self_addr: Seq<char>)
    ensures
        apply_transitions(ns, ts, self_addr).current_term >= ns.current_term,
    decreases ts.len(),
{
    if ts.len() > 0 {
        lemma_transition_term_monotone(ns, ts[0], self_addr);
        lemma_term_monotone_over(
            apply_transition(ns, ts[0], self_addr),
            ts.drop_first(),
            self_addr,
        );
    }
}

/// Law: every single step preserves leader consistency.
pub proof fn lemma_transition_leader_consistent(
    ns: NodeStateV,
    t: NodeTransition,
    self_addr: Seq<char>,
)
    requires
        leader_consistent(ns, self_addr),
    ensures
        leader_consistent(apply_transition(ns, t, self_addr), self_addr),
{
    match t {
        NodeTransition::Deliver { msg, live_cpu, now } => {
            lemma_leader_consistent_step(ns, msg, self_addr, live_cpu, now);
        },
        NodeTransition::CloseElection { results, now, leader_term_ms } => {
            lemma_conclude_leader_consistent(ns, self_addr, results, now, leader_term_ms);
        },
        NodeTransition::OpenElection { .. } => {},
        NodeTransition::CheckExpiry { .. } => {},
    }
}

/// Law: in every state reachable from startup — under any interleaving of
/// inbound messages, election rounds and expiry checks — a node reporting
/// itself Leader also reports itself as the leader address; no node is
/// simultaneously Leader and pointing at a different leader.
pub proof fn lemma_reachable_leader_consistent(
    startup_time: u64,
    ts: Seq<NodeTransition>,
    self_addr: Seq<char>,
)
    ensures
        leader_consistent(apply_transitions(init_state(startup_time), ts, self_addr), self_addr),
{
    lemma_leader_consistent_over(init_state(startup_time), ts, self_addr);
}

/// Law: leader consistency is preserved across any sequence of steps.
pub proof fn lemma_leader_consistent_over(
    ns: NodeStateV,
    ts: Seq<NodeTransition>,
    self_addr: Seq<char>,
)
    requires
        leader_consistent(ns, self_addr),
    ensures
        leader_consistent(apply_transitions(ns, ts, self_addr), self_addr),
    decreases ts.len(),
{
    if ts.len() > 0 {
        lemma_transition_leader_consistent(ns, ts[0], self_addr);
        lemma_leader_consistent_over(
            apply_transition(ns, ts[0], self_addr),
            ts.drop_first(),
            self_addr,
        );
    }
}

} // verus!
