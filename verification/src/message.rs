//! The five wire messages of the election protocol.
//!
//! CPU loads travel as integers in hundredths of a percent; timestamps are
//! absolute milliseconds since the Unix epoch.

use vstd::prelude::*;

verus! {

/// Spec-level image of a [`Message`]: addresses as character sequences.
#[verifier::ext_equal]
pub enum MessageView {
    Heartbeat { leader: Seq<char>, term_end_unix: u64, term: u64 },
    GetCpu { term: u64, initiator_addr: Seq<char>, initiator_cpu: u32 },
    CpuResp { cpu_percent: u32, addr: Seq<char>, term: u64 },
    LeaderAnnounce { leader: Seq<char>, term_end_unix: u64, term: u64 },
    Ping,
}

/// One message of the wire protocol, one line per message on the wire.
#[derive(Debug, PartialEq)]
pub enum Message {
    /// A leader renews its lease: sender claims leadership of `term` until
    /// the absolute deadline `term_end_unix`.
    Heartbeat { leader: String, term_end_unix: u64, term: u64 },
    /// An election initiator asks a peer for its CPU load in `term`.
    GetCpu { term: u64, initiator_addr: String, initiator_cpu: u32 },
    /// The answer to `GetCpu`: the responder's per-term CPU snapshot.
    CpuResp { cpu_percent: u32, addr: String, term: u64 },
    /// The election outcome: `leader` leads `term` until `term_end_unix`.
    LeaderAnnounce { leader: String, term_end_unix: u64, term: u64 },
    /// Liveness probe, and the acknowledgement for Heartbeat/LeaderAnnounce.
    Ping,
}

impl View for Message {
    type V = MessageView;

    open spec fn view(&self) -> MessageView {
        match self {
            Message::Heartbeat { leader, term_end_unix, term } => MessageView::Heartbeat {
                leader: leader@,
                term_end_unix: *term_end_unix,
                term: *term,
            },
            Message::GetCpu { term, initiator_addr, initiator_cpu } => MessageView::GetCpu {
                term: *term,
                initiator_addr: initiator_addr@,
                initiator_cpu: *initiator_cpu,
            },
            Message::CpuResp { cpu_percent, addr, term } => MessageView::CpuResp {
                cpu_percent: *cpu_percent,
                addr: addr@,
                term: *term,
            },
            Message::LeaderAnnounce { leader, term_end_unix, term } => MessageView::LeaderAnnounce {
                leader: leader@,
                term_end_unix: *term_end_unix,
                term: *term,
            },
            Message::Ping => MessageView::Ping,
        }
    }
}

/// The view of an optional message.
pub open spec fn opt_msg_view(o: Option<Message>) -> Option<MessageView> {
    match o {
        Option::Some(m) => Option::Some(m@),
        Option::None => Option::None,
    }
}

/// The term a message carries; `Ping` carries none.
pub open spec fn msg_term(m: MessageView) -> Option<u64> {
    match m {
        MessageView::Heartbeat { term, .. } => Option::Some(term),
        MessageView::GetCpu { term, .. } => Option::Some(term),
        MessageView::CpuResp { term, .. } => Option::Some(term),
        MessageView::LeaderAnnounce { term, .. } => Option::Some(term),
        MessageView::Ping => Option::None,
    }
}

/// An address is safe to put on the wire when it contains no quote, no
/// backslash and no newline: the codec neither escapes nor unescapes.
pub open spec fn wire_addr_ok(s: Seq<char>) -> bool {
    forall|i: int| 0 <= i < s.len() ==> s[i] != '"' && s[i] != '\\' && s[i] != '\n'
}

/// A message is well formed when every address field it carries is safe to
/// put on the wire.
pub open spec fn wf_view(m: MessageView) -> bool {
    match m {
        MessageView::Heartbeat { leader, .. } => wire_addr_ok(leader),
        MessageView::GetCpu { initiator_addr, .. } => wire_addr_ok(initiator_addr),
        MessageView::CpuResp { addr, .. } => wire_addr_ok(addr),
        MessageView::LeaderAnnounce { leader, .. } => wire_addr_ok(leader),
        MessageView::Ping => true,
    }
}

} // verus!
