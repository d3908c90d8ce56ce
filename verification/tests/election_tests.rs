use election_core::config::ElectionConfig;
use election_core::election::{
    begin_election, conclude_election, elect_winner, random_election_timeout,
};
use election_core::message::Message;
use election_core::state::{NodeState, State};

fn config(min: u64, max: u64) -> ElectionConfig {
    ElectionConfig {
        this_node: "n1:1".to_string(),
        peers: vec!["n2:1".to_string()],
        heartbeat_interval_ms: 100,
        election_timeout_min_ms: min,
        election_timeout_max_ms: max,
        leader_term_ms: 5_000,
        net_timeout_ms: 200,
        cpu_refresh_ms: 500,
        election_retry_ms: 10,
    }
}

#[test]
fn winner_lowest_cpu_wins_from_either_side() {
    // A at "n1" with 10%, B at "n2" with 90% (hundredths of a percent):
    // whichever node collected the results, A wins.
    let from_a = vec![("n1".to_string(), 1000u32), ("n2".to_string(), 9000u32)];
    let from_b = vec![("n2".to_string(), 9000u32), ("n1".to_string(), 1000u32)];
    assert_eq!(elect_winner(&from_a), Some(("n1".to_string(), 1000)));
    assert_eq!(elect_winner(&from_b), Some(("n1".to_string(), 1000)));
}

#[test]
fn winner_tie_goes_to_smaller_address() {
    // Tied at 50%: "n1" < "n2" wins regardless of collection order.
    let from_a = vec![("n1".to_string(), 5000u32), ("n2".to_string(), 5000u32)];
    let from_b = vec![("n2".to_string(), 5000u32), ("n1".to_string(), 5000u32)];
    assert_eq!(elect_winner(&from_a), Some(("n1".to_string(), 5000)));
    assert_eq!(elect_winner(&from_b), Some(("n1".to_string(), 5000)));
}

#[test]
fn winner_of_empty_list_is_none() {
    assert_eq!(elect_winner(&vec![]), None);
}

#[test]
fn election_on_node_with_lower_load_makes_it_leader() {
    let me = "n1".to_string();
    let mut ns = NodeState::initial(0);
    let (term, snapshot) = begin_election(&mut ns, 1000);
    assert_eq!(term, 1);
    assert_eq!(snapshot, 1000);
    let results = vec![(me.clone(), snapshot), ("n2".to_string(), 9000u32)];
    let ann = conclude_election(&mut ns, &me, &results, 10_000, 5_000);
    assert_eq!(ns.state, State::Leader);
    assert_eq!(ns.leader, Some(me.clone()));
    assert_eq!(ns.term_end, Some(15_000));
    assert_eq!(ns.last_heartbeat, Some(10_000));
    assert_eq!(
        ann,
        Some(Message::LeaderAnnounce {
            leader: me,
            term_end_unix: 15_000,
            term: 1,
        })
    );
}

#[test]
fn election_on_node_with_higher_load_follows_the_winner() {
    let me = "n2".to_string();
    let mut ns = NodeState::initial(0);
    let (term, snapshot) = begin_election(&mut ns, 9000);
    let results = vec![(me.clone(), snapshot), ("n1".to_string(), 1000u32)];
    let ann = conclude_election(&mut ns, &me, &results, 10_000, 5_000);
    assert_eq!(ns.state, State::Follower);
    assert_eq!(ns.leader, Some("n1".to_string()));
    assert_eq!(
        ann,
        Some(Message::LeaderAnnounce {
            leader: "n1".to_string(),
            term_end_unix: 15_000,
            term,
        })
    );
}

#[test]
fn single_node_cluster_elects_itself() {
    // With an empty peer list the result list is just the seeded self entry,
    // and one round makes the node Leader.
    let me = "solo:1".to_string();
    let mut ns = NodeState::initial(0);
    let (term, snapshot) = begin_election(&mut ns, 4200);
    let results = vec![(me.clone(), snapshot)];
    let ann = conclude_election(&mut ns, &me, &results, 1_000, 2_000);
    assert_eq!(term, 1);
    assert_eq!(ns.state, State::Leader);
    assert_eq!(ns.leader, Some(me.clone()));
    assert_eq!(ns.current_term, 1);
    assert_eq!(ns.term_end, Some(3_000));
    assert!(ann.is_some());
}

#[test]
fn conclude_with_no_results_changes_nothing() {
    let me = "n1".to_string();
    let mut ns = NodeState::initial(0);
    ns.current_term = 3;
    let ann = conclude_election(&mut ns, &me, &vec![], 1_000, 2_000);
    assert_eq!(ann, None);
    assert_eq!(ns.state, State::Follower);
    assert_eq!(ns.leader, None);
    assert_eq!(ns.term_end, None);
}

#[test]
fn begin_election_snapshots_load_and_raises_term() {
    let mut ns = NodeState::initial(0);
    ns.current_term = 41;
    ns.cpu_snapshot = 1;
    let (term, snapshot) = begin_election(&mut ns, 777);
    assert_eq!(term, 42);
    assert_eq!(snapshot, 777);
    assert_eq!(ns.current_term, 42);
    assert_eq!(ns.cpu_snapshot, 777);
    assert_eq!(ns.state, State::Follower);
}

#[test]
fn random_timeout_stays_within_bounds() {
    let cfg = config(150, 300);
    for _ in 0..100 {
        let t = random_election_timeout(&cfg);
        assert!(150 <= t && t <= 300);
    }
}

#[test]
fn random_timeout_with_equal_bounds_is_exact() {
    let cfg = config(250, 250);
    assert_eq!(random_election_timeout(&cfg), 250);
}

#[test]
fn config_validation() {
    assert!(config(100, 200).validate());
    assert!(config(100, 100).validate());
    assert!(!config(200, 100).validate());
}
