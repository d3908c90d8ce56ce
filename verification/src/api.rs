//! Plain data types exchanged with the application layer around the core:
//! registration, heartbeat tracking, discovery and image listing.
//!
//! The application layer consumes exactly two facts from the core — the
//! current role and the current leader's address — through
//! [`status_of`] and the accessors on [`NodeState`]. Timestamps are
//! milliseconds, as everywhere in the core.

use vstd::prelude::*;

use crate::state::{NodeState, opt_str_view};
use vstd::string::StringExecFns;

verus! {

/// A client currently known to be online, tracked by its last heartbeat.
#[derive(Debug, Clone)]
pub struct OnlineClient {
    pub username: String,
    pub addr: String,
    pub last_heartbeat: u64,
}

/// Whether a heartbeat seen at `last` still counts as online at `now`:
/// within the time-to-live, or apparently in the future (clock skew is
/// forgiven rather than marking the client offline).
pub open spec fn spec_is_online(last: u64, now: u64, ttl_ms: u64) -> bool {
    now < last || now - last <= ttl_ms
}

impl OnlineClient {
    /// The discovery filter: keep exactly the clients whose last heartbeat
    /// is within the time-to-live.
    pub fn is_online(&self, now: u64, ttl_ms: u64) -> (b: bool)
        ensures
            b == spec_is_online(self.last_heartbeat, now, ttl_ms),
    {
        now < self.last_heartbeat || now - self.last_heartbeat <= ttl_ms
    }
}

/// A request to register a username under an address.
#[derive(Debug, Clone)]
pub struct RegisterRequest {
    pub username: String,
    pub addr: String,
}

/// The answer to a registration request.
#[derive(Debug, Clone)]
pub struct RegisterResponse {
    pub success: bool,
    pub message: String,
    pub user_id: Option<String>,
}

/// A client's periodic liveness report.
#[derive(Debug, Clone)]
pub struct HeartbeatRequest {
    pub username: String,
    pub addr: String,
}

/// The answer to a heartbeat report.
#[derive(Debug, Clone)]
pub struct HeartbeatResponse {
    pub success: bool,
    pub message: String,
}

/// One online user as discovery reports it.
#[derive(Debug, Clone)]
pub struct OnlineUserInfo {
    pub username: String,
    pub ip: String,
    pub port: u16,
    pub sample_images: Option<Vec<String>>,
}

/// The service status: the two facts the application layer needs from the
/// core — role and current leader — beside its own counters.
#[derive(Debug, Clone)]
pub struct StatusResponse {
    pub status: String,
    pub service: String,
    pub is_leader: bool,
    pub current_leader: Option<String>,
    pub online_clients_count: usize,
}

/// Builds the status report from the node state: `is_leader` and
/// `current_leader` are exactly the core's view, nothing recomputed.
pub fn status_of(ns: &NodeState, service: String, online_clients_count: usize) -> (r:
    StatusResponse)
    ensures
        r.is_leader == (ns@.state is Leader),
        opt_str_view(r.current_leader) == ns@.leader,
        r.status@ == "ok"@,
        r.service == service,
        r.online_clients_count == online_clients_count,
{
    StatusResponse {
        status: String::from_str("ok"),
        service,
        is_leader: ns.is_leader(),
        current_leader: ns.current_leader(),
        online_clients_count,
    }
}

/// One online client as discovery reports it.
#[derive(Debug, Clone)]
pub struct DiscoveryClient {
    pub username: String,
    pub addr: String,
}

/// The answer to an image upload.
#[derive(Debug, Clone)]
pub struct ImageUploadResponse {
    pub success: bool,
    pub message: String,
    pub filename: Option<String>,
}

/// A user's stored image names.
#[derive(Debug, Clone)]
pub struct ImageListResponse {
    pub images: Vec<String>,
    pub count: usize,
}

impl ImageListResponse {
    /// Packs a list of image names; the count always matches the list.
    pub fn new(images: Vec<String>) -> (r: ImageListResponse)
        ensures
            r.images == images,
            r.count == r.images@.len(),
    {
        let count: usize = images.len();
        ImageListResponse { images, count }
    }
}

/// One image with its transported payload.
#[derive(Debug, Clone)]
pub struct ImageWithData {
    pub filename: String,
    pub data: String,
}

/// An online client together with its shared images.
#[derive(Debug, Clone)]
pub struct OnlineClientWithImages {
    pub username: String,
    pub addr: String,
    pub images: Vec<ImageWithData>,
}

/// The answer to discovery with images included.
#[derive(Debug, Clone)]
pub struct DiscoverWithImagesResponse {
    pub online_clients: Vec<OnlineClientWithImages>,
    pub count: usize,
}

impl DiscoverWithImagesResponse {
    /// Packs the online clients; the count always matches the list.
    pub fn new(online_clients: Vec<OnlineClientWithImages>) -> (r: DiscoverWithImagesResponse)
        ensures
            r.online_clients == online_clients,
            r.count == r.online_clients@.len(),
    {
        let count: usize = online_clients.len();
        DiscoverWithImagesResponse { online_clients, count }
    }
}

/// What a shared image carries hidden alongside its pixels: who may view
/// the original, how often, and whose it is.
#[derive(Debug, Clone)]
pub struct ImageMetadata {
    pub allowed_username: String,
    pub views_remaining: u32,
    pub original_username: String,
}

} // verus!
