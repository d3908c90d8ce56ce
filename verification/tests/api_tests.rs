use election_core::api::{
    DiscoverWithImagesResponse, ImageListResponse, OnlineClient, status_of,
};
use election_core::registration::{RegistrationConfig, UserStatus};
use election_core::state::{NodeState, State};

#[test]
fn status_reports_role_and_leader() {
    let mut ns = NodeState::initial(0);
    ns.state = State::Leader;
    ns.leader = Some("n1:1".to_string());
    let r = status_of(&ns, "registry".to_string(), 3);
    assert_eq!(r.status, "ok");
    assert_eq!(r.service, "registry");
    assert!(r.is_leader);
    assert_eq!(r.current_leader, Some("n1:1".to_string()));
    assert_eq!(r.online_clients_count, 3);
}

#[test]
fn status_of_fresh_follower() {
    let ns = NodeState::initial(0);
    let r = status_of(&ns, "registry".to_string(), 0);
    assert!(!r.is_leader);
    assert_eq!(r.current_leader, None);
}

#[test]
fn online_check_uses_ttl_and_forgives_skew() {
    let c = OnlineClient {
        username: "u".to_string(),
        addr: "a:1".to_string(),
        last_heartbeat: 10_000,
    };
    assert!(c.is_online(10_000, 5_000));
    assert!(c.is_online(15_000, 5_000));
    assert!(!c.is_online(15_001, 5_000));
    // A heartbeat from the apparent future still counts as online.
    assert!(c.is_online(9_000, 5_000));
}

#[test]
fn list_responses_count_their_entries() {
    let images = ImageListResponse::new(vec!["a.png".to_string(), "b.png".to_string()]);
    assert_eq!(images.count, 2);
    assert_eq!(images.images.len(), 2);
    let empty = DiscoverWithImagesResponse::new(vec![]);
    assert_eq!(empty.count, 0);
}

#[test]
fn registration_config_construction() {
    let c = RegistrationConfig::new("creds.json".to_string(), "folder".to_string());
    assert_eq!(c.credentials_path, "creds.json");
    assert_eq!(c.users_folder_id, "folder");
    assert_eq!(c.shared_drive_id, None);
    let c = c.with_shared_drive("drive9".to_string());
    assert_eq!(c.credentials_path, "creds.json");
    assert_eq!(c.shared_drive_id, Some("drive9".to_string()));
}

#[test]
fn registration_config_default_locations() {
    let c = RegistrationConfig::default();
    assert_eq!(c.credentials_path, "credentials/service-account.json");
    assert_eq!(c.users_folder_id, "REGISTERED_USERS_FOLDER_ID");
    assert_eq!(c.shared_drive_id, None);
}

#[test]
fn user_status_labels() {
    assert_eq!(UserStatus::Active.label(), "active");
    assert_eq!(UserStatus::Inactive.label(), "inactive");
    assert_eq!(UserStatus::Suspended.label(), "suspended");
}
