use election_core::handler::{apply_message, handle_line};
use election_core::message::Message;
use election_core::state::{NodeState, State};

fn follower_at(term: u64) -> NodeState {
    let mut ns = NodeState::initial(0);
    ns.current_term = term;
    ns
}

#[test]
fn stale_heartbeat_changes_nothing_but_is_acknowledged() {
    let me = "n1:1".to_string();
    let mut ns = follower_at(7);
    ns.leader = Some("n9:1".to_string());
    ns.last_heartbeat = Some(500);
    ns.term_end = Some(900);
    let msg = Message::Heartbeat {
        leader: "n2:1".to_string(),
        term_end_unix: 10_000,
        term: 6,
    };
    let resp = apply_message(&mut ns, &msg, &me, 0, 1000);
    assert_eq!(resp, Some(Message::Ping));
    assert_eq!(ns.state, State::Follower);
    assert_eq!(ns.leader, Some("n9:1".to_string()));
    assert_eq!(ns.last_heartbeat, Some(500));
    assert_eq!(ns.term_end, Some(900));
    assert_eq!(ns.current_term, 7);
}

#[test]
fn stale_announce_changes_nothing() {
    let me = "n1:1".to_string();
    let mut ns = follower_at(4);
    let msg = Message::LeaderAnnounce {
        leader: me.clone(),
        term_end_unix: 10_000,
        term: 3,
    };
    let resp = apply_message(&mut ns, &msg, &me, 0, 1000);
    assert_eq!(resp, Some(Message::Ping));
    assert_eq!(ns.state, State::Follower);
    assert_eq!(ns.leader, None);
    assert_eq!(ns.current_term, 4);
}

#[test]
fn accepted_heartbeat_adopts_term_and_leader() {
    let me = "n1:1".to_string();
    let mut ns = follower_at(2);
    let msg = Message::Heartbeat {
        leader: "n2:1".to_string(),
        term_end_unix: 8_000,
        term: 5,
    };
    let resp = apply_message(&mut ns, &msg, &me, 0, 1000);
    assert_eq!(resp, Some(Message::Ping));
    assert_eq!(ns.state, State::Follower);
    assert_eq!(ns.leader, Some("n2:1".to_string()));
    assert_eq!(ns.last_heartbeat, Some(1000));
    assert_eq!(ns.term_end, Some(8_000));
    assert_eq!(ns.current_term, 5);
}

#[test]
fn heartbeat_with_past_deadline_clears_term_end() {
    let me = "n1:1".to_string();
    let mut ns = follower_at(0);
    let msg = Message::Heartbeat {
        leader: "n2:1".to_string(),
        term_end_unix: 400,
        term: 1,
    };
    apply_message(&mut ns, &msg, &me, 0, 1000);
    assert_eq!(ns.term_end, None);
}

#[test]
fn heartbeat_from_higher_term_demotes_leader() {
    let me = "n1:1".to_string();
    let mut ns = follower_at(3);
    ns.state = State::Leader;
    ns.leader = Some(me.clone());
    let msg = Message::Heartbeat {
        leader: "n2:1".to_string(),
        term_end_unix: 9_000,
        term: 4,
    };
    apply_message(&mut ns, &msg, &me, 0, 1000);
    assert_eq!(ns.state, State::Follower);
    assert_eq!(ns.leader, Some("n2:1".to_string()));
    assert_eq!(ns.current_term, 4);
}

#[test]
fn announce_naming_self_makes_leader() {
    let me = "n1:1".to_string();
    let mut ns = follower_at(2);
    let msg = Message::LeaderAnnounce {
        leader: me.clone(),
        term_end_unix: 9_000,
        term: 2,
    };
    apply_message(&mut ns, &msg, &me, 0, 1000);
    assert_eq!(ns.state, State::Leader);
    assert_eq!(ns.leader, Some(me.clone()));
}

#[test]
fn announce_naming_peer_makes_follower() {
    let me = "n1:1".to_string();
    let mut ns = follower_at(2);
    ns.state = State::Leader;
    ns.leader = Some(me.clone());
    let msg = Message::LeaderAnnounce {
        leader: "n2:1".to_string(),
        term_end_unix: 9_000,
        term: 2,
    };
    apply_message(&mut ns, &msg, &me, 0, 1000);
    assert_eq!(ns.state, State::Follower);
    assert_eq!(ns.leader, Some("n2:1".to_string()));
}

#[test]
fn getcpu_snapshots_once_per_term() {
    let me = "n1:1".to_string();
    let mut ns = follower_at(0);
    let ask = |term: u64| Message::GetCpu {
        term,
        initiator_addr: "n2:1".to_string(),
        initiator_cpu: 0,
    };
    // A new term snapshots the live reading.
    let r1 = apply_message(&mut ns, &ask(5), &me, 3000, 100);
    assert_eq!(
        r1,
        Some(Message::CpuResp {
            cpu_percent: 3000,
            addr: me.clone(),
            term: 5,
        })
    );
    // The same term answers with the cached snapshot, not the live value.
    let r2 = apply_message(&mut ns, &ask(5), &me, 9900, 200);
    assert_eq!(
        r2,
        Some(Message::CpuResp {
            cpu_percent: 3000,
            addr: me.clone(),
            term: 5,
        })
    );
    // GetCpu never touches role, leader or timers.
    assert_eq!(ns.state, State::Follower);
    assert_eq!(ns.leader, None);
    assert_eq!(ns.last_heartbeat, None);
    assert_eq!(ns.term_end, None);
    assert_eq!(ns.current_term, 5);
}

#[test]
fn ping_answers_ping_and_cpuresp_is_ignored() {
    let me = "n1:1".to_string();
    let mut ns = follower_at(3);
    assert_eq!(
        apply_message(&mut ns, &Message::Ping, &me, 0, 0),
        Some(Message::Ping)
    );
    let unsolicited = Message::CpuResp {
        cpu_percent: 1,
        addr: "n2:1".to_string(),
        term: 9,
    };
    assert_eq!(apply_message(&mut ns, &unsolicited, &me, 0, 0), None);
    assert_eq!(ns.current_term, 3);
    assert_eq!(ns.state, State::Follower);
}

#[test]
fn term_monotone_across_message_sequence() {
    let me = "n1:1".to_string();
    let mut ns = follower_at(0);
    let msgs = vec![
        Message::Heartbeat {
            leader: "n2:1".to_string(),
            term_end_unix: 10,
            term: 4,
        },
        Message::GetCpu {
            term: 2,
            initiator_addr: "n3:1".to_string(),
            initiator_cpu: 0,
        },
        Message::LeaderAnnounce {
            leader: "n3:1".to_string(),
            term_end_unix: 10,
            term: 1,
        },
        Message::Ping,
        Message::GetCpu {
            term: 9,
            initiator_addr: "n3:1".to_string(),
            initiator_cpu: 0,
        },
    ];
    let mut last_term = ns.current_term;
    for (i, m) in msgs.iter().enumerate() {
        apply_message(&mut ns, m, &me, 10, 100 + i as u64);
        assert!(ns.current_term >= last_term);
        last_term = ns.current_term;
    }
    assert_eq!(ns.current_term, 9);
}

#[test]
fn leader_never_points_elsewhere() {
    // Drive a node through a mixed message sequence and check the invariant
    // at every step: Leader implies leader address is its own.
    let me = "n1:1".to_string();
    let mut ns = NodeState::initial(0);
    let msgs = vec![
        Message::LeaderAnnounce {
            leader: me.clone(),
            term_end_unix: u64::MAX,
            term: 1,
        },
        Message::Heartbeat {
            leader: me.clone(),
            term_end_unix: u64::MAX,
            term: 1,
        },
        Message::Heartbeat {
            leader: "n2:1".to_string(),
            term_end_unix: u64::MAX,
            term: 1,
        },
        Message::LeaderAnnounce {
            leader: me.clone(),
            term_end_unix: u64::MAX,
            term: 2,
        },
        Message::LeaderAnnounce {
            leader: "n2:1".to_string(),
            term_end_unix: u64::MAX,
            term: 3,
        },
    ];
    for (i, m) in msgs.iter().enumerate() {
        apply_message(&mut ns, m, &me, 0, i as u64);
        if ns.state == State::Leader {
            assert_eq!(ns.leader, Some(me.clone()));
        }
    }
}

#[test]
fn handle_line_serves_one_connection() {
    let me = "n1:1".to_string();
    let mut ns = NodeState::initial(0);
    let line = election_core::codec::encode(&Message::LeaderAnnounce {
        leader: me.clone(),
        term_end_unix: u64::MAX,
        term: 6,
    });
    let resp = handle_line(&mut ns, line.as_str(), &me, 0);
    assert_eq!(resp, Some("{\"type\":\"Ping\"}\n".to_string()));
    assert_eq!(ns.state, State::Leader);
    assert_eq!(ns.leader, Some(me.clone()));
    assert_eq!(ns.current_term, 6);
    assert!(ns.last_heartbeat.is_some());
}

#[test]
fn handle_line_ignores_malformed_input() {
    let me = "n1:1".to_string();
    let mut ns = NodeState::initial(77);
    ns.current_term = 5;
    let resp = handle_line(&mut ns, "not a record\n", &me, 0);
    assert_eq!(resp, None);
    assert_eq!(ns.state, State::Follower);
    assert_eq!(ns.leader, None);
    assert_eq!(ns.current_term, 5);
    assert_eq!(ns.startup_time, 77);
}
