use election_core::monitor::{enforce_leader_expiry, make_heartbeat, should_start_election};
use election_core::message::Message;
use election_core::state::{NodeState, State};

#[test]
fn expired_leader_steps_down_on_its_own_tick() {
    let mut ns = NodeState::initial(0);
    ns.state = State::Leader;
    ns.leader = Some("n1:1".to_string());
    ns.term_end = Some(1_000);
    ns.last_heartbeat = Some(900);
    ns.current_term = 5;
    let stepped = enforce_leader_expiry(&mut ns, 1_000);
    assert!(stepped);
    assert_eq!(ns.state, State::Follower);
    assert_eq!(ns.leader, None);
    assert_eq!(ns.term_end, None);
    assert_eq!(ns.last_heartbeat, None);
    assert_eq!(ns.current_term, 5);
}

#[test]
fn leader_within_lease_stays_leader() {
    let mut ns = NodeState::initial(0);
    ns.state = State::Leader;
    ns.leader = Some("n1:1".to_string());
    ns.term_end = Some(1_000);
    let stepped = enforce_leader_expiry(&mut ns, 999);
    assert!(!stepped);
    assert_eq!(ns.state, State::Leader);
    assert_eq!(ns.leader, Some("n1:1".to_string()));
    assert_eq!(ns.term_end, Some(1_000));
}

#[test]
fn follower_is_untouched_by_expiry_check() {
    let mut ns = NodeState::initial(0);
    ns.term_end = Some(10);
    let stepped = enforce_leader_expiry(&mut ns, 1_000);
    assert!(!stepped);
    assert_eq!(ns.state, State::Follower);
    assert_eq!(ns.term_end, Some(10));
}

#[test]
fn silent_follower_starts_election() {
    // Silent since startup, longer than the maximum timeout: any timeout
    // drawn from the interval triggers an election.
    let ns = NodeState::initial(1_000);
    assert!(should_start_election(&ns, 1_301, 300));
    assert!(should_start_election(&ns, 1_301, 100));
}

#[test]
fn recently_contacted_follower_waits() {
    let mut ns = NodeState::initial(0);
    ns.last_heartbeat = Some(5_000);
    assert!(!should_start_election(&ns, 5_200, 300));
    assert!(should_start_election(&ns, 5_300, 300));
}

#[test]
fn leader_never_starts_an_election() {
    let mut ns = NodeState::initial(0);
    ns.state = State::Leader;
    ns.leader = Some("n1:1".to_string());
    assert!(!should_start_election(&ns, u64::MAX, 0));
}

#[test]
fn skewed_clock_does_not_trigger_election() {
    let mut ns = NodeState::initial(0);
    ns.last_heartbeat = Some(9_000);
    assert!(!should_start_election(&ns, 8_000, 300));
}

#[test]
fn heartbeat_extends_the_lease_on_the_wire() {
    let mut ns = NodeState::initial(0);
    ns.state = State::Leader;
    ns.leader = Some("n1:1".to_string());
    ns.current_term = 9;
    let me = "n1:1".to_string();
    let m = make_heartbeat(&ns, &me, 20_000, 5_000);
    assert_eq!(
        m,
        Message::Heartbeat {
            leader: me,
            term_end_unix: 25_000,
            term: 9,
        }
    );
}
