//! Server-side dispatch of inbound messages.
//!
//! Every mutation of the node state by inbound traffic funnels through
//! [`apply_message`], so the staleness rule — a message whose term is behind
//! the node's current term changes nothing — is enforced in one place.
//! [`spec_step`] and [`spec_response`] say exactly what each variant does.

use vstd::prelude::*;

use crate::codec::{decode, encode, spec_decode, spec_encode};
use crate::message::{Message, MessageView, msg_term, opt_msg_view};
use crate::state::{NodeState, NodeStateV, State, leader_consistent};

verus! {

/// An absolute deadline is adopted only while it still lies ahead; a
/// deadline already past is cleared.
pub open spec fn accept_deadline(term_end_unix: u64, now: u64) -> Option<u64> {
    if term_end_unix > now {
        Option::Some(term_end_unix)
    } else {
        Option::None
    }
}

/// The state after one inbound message.
///
/// * A `Heartbeat` or `LeaderAnnounce` behind the current term is ignored.
/// * An accepted `Heartbeat` adopts the sender's term, records the sender's
///   leader and deadline, and — since a heartbeat asserts someone else's
///   leadership — demotes a Leader to Follower unless the heartbeat names
///   this node itself. (Demoting on an equal term as well keeps a Leader
///   from ever pointing at another node.)
/// * An accepted `LeaderAnnounce` makes this node Leader exactly when it
///   names this node, Follower otherwise.
/// * A `GetCpu` with a term beyond the current one adopts that term and
///   snapshots the live load for it; the snapshot then stands for the whole
///   term. `GetCpu` never touches role, leader or timers.
/// * `CpuResp` and `Ping` change nothing.
pub open spec fn spec_step(
    ns: NodeStateV,
    m: MessageView,
    self_addr: Seq<char>,
    live_cpu: u32,
    now: u64,
) -> NodeStateV {
    match m {
        MessageView::Heartbeat { leader, term_end_unix, term } => {
            if term < ns.current_term {
                ns
            } else {
                NodeStateV {
                    state: if leader != self_addr {
                        State::Follower
                    } else {
                        ns.state
                    },
                    leader: Option::Some(leader),
                    last_heartbeat: Option::Some(now),
                    term_end: accept_deadline(term_end_unix, now),
                    current_term: term,
                    ..ns
                }
            }
        },
        MessageView::LeaderAnnounce { leader, term_end_unix, term } => {
            if term < ns.current_term {
                ns
            } else {
                NodeStateV {
                    state: if leader == self_addr {
                        State::Leader
                    } else {
                        State::Follower
                    },
                    leader: Option::Some(leader),
                    last_heartbeat: Option::Some(now),
                    term_end: accept_deadline(term_end_unix, now),
                    current_term: term,
                    ..ns
                }
            }
        },
        MessageView::GetCpu { term, .. } => {
            if term > ns.current_term {
                NodeStateV { current_term: term, cpu_snapshot: live_cpu, ..ns }
            } else {
                ns
            }
        },
        MessageView::CpuResp { .. } => ns,
        MessageView::Ping => ns,
    }
}

/// The one response a message produces: `Ping` acknowledges heartbeats,
/// announcements and pings; `GetCpu` is answered with the per-term load
/// snapshot; an unsolicited `CpuResp` gets no response.
pub open spec fn spec_response(
    ns: NodeStateV,
    m: MessageView,
    self_addr: Seq<char>,
    live_cpu: u32,
) -> Option<MessageView> {
    match m {
        MessageView::Heartbeat { .. } => Option::Some(MessageView::Ping),
        MessageView::LeaderAnnounce { .. } => Option::Some(MessageView::Ping),
        MessageView::Ping => Option::Some(MessageView::Ping),
        MessageView::CpuResp { .. } => Option::None,
        MessageView::GetCpu { term, .. } => Option::Some(
            MessageView::CpuResp {
                cpu_percent: if term > ns.current_term {
                    live_cpu
                } else {
                    ns.cpu_snapshot
                },
                addr: self_addr,
                term,
            },
        ),
    }
}

/// Applies one inbound message to the node state and returns the response
/// to write back, exactly as [`spec_step`] and [`spec_response`] say.
pub fn apply_message(
    ns: &mut NodeState,
    msg: &Message,
    self_addr: &String,
    live_cpu: u32,
    now: u64,
) -> (resp: Option<Message>)
    ensures
        final(ns)@ == spec_step(old(ns)@, msg@, self_addr@, live_cpu, now),
        opt_msg_view(resp) == spec_response(old(ns)@, msg@, self_addr@, live_cpu),
{
    match msg {
        Message::Heartbeat { leader, term_end_unix, term } => {
            if *term >= ns.current_term {
                ns.current_term = *term;
                if !(*leader == *self_addr) {
                    ns.state = State::Follower;
                }
                ns.leader = Option::Some(leader.clone());
                ns.last_heartbeat = Option::Some(now);
                ns.term_end = if *term_end_unix > now {
                    Option::Some(*term_end_unix)
                } else {
                    Option::None
                };
            }
            Option::Some(Message::Ping)
        },
        Message::LeaderAnnounce { leader, term_end_unix, term } => {
            if *term >= ns.current_term {
                ns.current_term = *term;
                if *leader == *self_addr {
                    ns.state = State::Leader;
                } else {
                    ns.state = State::Follower;
                }
                ns.leader = Option::Some(leader.clone());
                ns.last_heartbeat = Option::Some(now);
                ns.term_end = if *term_end_unix > now {
                    Option::Some(*term_end_unix)
                } else {
                    Option::None
                };
            }
            Option::Some(Message::Ping)
        },
        Message::GetCpu { term, initiator_addr: _, initiator_cpu: _ } => {
            if *term > ns.current_term {
                ns.current_term = *term;
                ns.cpu_snapshot = live_cpu;
            }
            Option::Some(
                Message::CpuResp {
                    cpu_percent: ns.cpu_snapshot,
                    addr: self_addr.clone(),
                    term: *term,
                },
            )
        },
        Message::CpuResp { .. } => Option::None,
        Message::Ping => Option::Some(Message::Ping),
    }
}

/// Relies on chrono::Utc::now: the local wall clock, read once, as
/// milliseconds since the Unix epoch.
#[verifier::external_body]
fn unix_now_ms() -> u64 {
    chrono::Utc::now().timestamp_millis() as u64
}

/// Serves the one line an inbound connection brings: decode it, apply it
/// against the local clock, and encode the one response line, if the
/// message calls for one. A line that is not a canonical record changes
/// nothing and gets no response.
pub fn handle_line(ns: &mut NodeState, line: &str, self_addr: &String, live_cpu: u32) -> (resp:
    Option<String>)
    ensures
        spec_decode(line@) is None ==> final(ns)@ == old(ns)@ && resp is None,
        spec_decode(line@) matches Option::Some(m) ==> exists|now: u64|
            final(ns)@ == spec_step(old(ns)@, m, self_addr@, live_cpu, now),
        spec_decode(line@) matches Option::Some(m) ==> match spec_response(
            old(ns)@,
            m,
            self_addr@,
            live_cpu,
        ) {
            Option::Some(v) => resp matches Option::Some(out) && out@ == spec_encode(v),
            Option::None => resp is None,
        },
{
    match decode(line) {
        Option::None => Option::None,
        Option::Some(msg) => {
            let now: u64 = unix_now_ms();
            let r = apply_message(ns, &msg, self_addr, live_cpu, now);
            proof {
                assert(final(ns)@ == spec_step(old(ns)@, msg@, self_addr@, live_cpu, now));
            }
            match r {
                Option::Some(out) => Option::Some(encode(&out)),
                Option::None => Option::None,
            }
        },
    }
}

// ---------------------------------------------------------------------------
// Laws of the handler.
// ---------------------------------------------------------------------------

/// Law: a message whose term is behind the node's current term leaves the
/// whole state — role, leader, timers, term, snapshot — unchanged.
pub proof fn lemma_stale_message_ignored(
    ns: NodeStateV,
    m: MessageView,
    self_addr: Seq<char>,
    live_cpu: u32,
    now: u64,
)
    requires
        msg_term(m) matches Option::Some(t) && t < ns.current_term,
    ensures
        spec_step(ns, m, self_addr, live_cpu, now) == ns,
{
}

/// Law: no inbound message ever lowers the current term.
pub proof fn lemma_term_monotone(
    ns: NodeStateV,
    m: MessageView,
    self_addr: Seq<char>,
    live_cpu: u32,
    now: u64,
)
    ensures
        spec_step(ns, m, self_addr, live_cpu, now).current_term >= ns.current_term,
{
}

/// Law: the load snapshot is fixed once per term. Whatever the live
/// reading has moved to, a second `GetCpu` for the same term is answered
/// with the same value as the first: every voter judges this node against
/// one value per round, never a moving reading.
pub proof fn lemma_snapshot_fixed_per_term(
    ns: NodeStateV,
    t: u64,
    a1: Seq<char>,
    a2: Seq<char>,
    c1: u32,
    c2: u32,
    self_addr: Seq<char>,
    live1: u32,
    live2: u32,
    now: u64,
)
    ensures
        ({
            let first = MessageView::GetCpu { term: t, initiator_addr: a1, initiator_cpu: c1 };
            let second = MessageView::GetCpu { term: t, initiator_addr: a2, initiator_cpu: c2 };
            let ns1 = spec_step(ns, first, self_addr, live1, now);
            spec_response(ns1, second, self_addr, live2) == spec_response(
                ns,
                first,
                self_addr,
                live1,
            )
        }),
{
}

/// Law: one inbound message preserves leader consistency — a Leader always
/// points at itself.
pub proof fn lemma_leader_consistent_step(
    ns: NodeStateV,
    m: MessageView,
    self_addr: Seq<char>,
    live_cpu: u32,
    now: u64,
)
    requires
        leader_consistent(ns, self_addr),
    ensures
        leader_consistent(spec_step(ns, m, self_addr, live_cpu, now), self_addr),
{
}

} // verus!
